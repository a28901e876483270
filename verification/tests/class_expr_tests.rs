use cogito::class_expr::{
    class_expression_parses, parse_class_expression, split_conjunction, split_keyword,
    strip_parens, ClassExpr,
};
use cogito::text::{chars_of, is_white_space, trim_chars};

fn named(iri: &str) -> ClassExpr {
    ClassExpr::Class(iri.to_string())
}

fn chars(s: &str) -> Vec<char> {
    s.chars().collect()
}

#[test]
fn parses_a_named_class() {
    assert_eq!(parse_class_expression("https://x#Daemon"), named("https://x#Daemon"));
    assert_eq!(parse_class_expression("  https://x#Daemon \t"), named("https://x#Daemon"));
}

#[test]
fn parses_an_existential_restriction() {
    assert_eq!(
        parse_class_expression("https://x#registersOn some https://x#Bus"),
        ClassExpr::ObjectSomeValuesFrom(
            "https://x#registersOn".to_string(),
            Box::new(named("https://x#Bus"))
        )
    );
}

#[test]
fn parses_an_intersection() {
    assert_eq!(
        parse_class_expression("https://x#A and https://x#B and https://x#C"),
        ClassExpr::ObjectIntersectionOf(vec![
            named("https://x#A"),
            named("https://x#B"),
            named("https://x#C")
        ])
    );
}

#[test]
fn parses_the_bus_registrant_definition() {
    assert_eq!(
        parse_class_expression("https://x#Daemon and (https://x#registersOn some https://x#Bus)"),
        ClassExpr::ObjectIntersectionOf(vec![
            named("https://x#Daemon"),
            ClassExpr::ObjectSomeValuesFrom(
                "https://x#registersOn".to_string(),
                Box::new(named("https://x#Bus"))
            )
        ])
    );
}

#[test]
fn some_binds_looser_than_and_at_top_level() {
    // The first top-level ` some ` splits before any ` and ` is looked at.
    assert_eq!(
        parse_class_expression("p some A and B"),
        ClassExpr::ObjectSomeValuesFrom(
            "p".to_string(),
            Box::new(ClassExpr::ObjectIntersectionOf(vec![named("A"), named("B")]))
        )
    );
}

#[test]
fn a_top_level_some_splits_before_and() {
    // The property part is everything before the first top-level ` some `.
    assert_eq!(
        parse_class_expression("A and p some B"),
        ClassExpr::ObjectSomeValuesFrom("A and p".to_string(), Box::new(named("B")))
    );
}

#[test]
fn strips_enclosing_parentheses() {
    assert_eq!(parse_class_expression("((A))"), named("A"));
    assert_eq!(
        parse_class_expression("(p some (q some C))"),
        ClassExpr::ObjectSomeValuesFrom(
            "p".to_string(),
            Box::new(ClassExpr::ObjectSomeValuesFrom("q".to_string(), Box::new(named("C"))))
        )
    );
}

#[test]
fn parentheses_hide_keywords() {
    assert_eq!(parse_class_expression("(A and B) and C"), ClassExpr::ObjectIntersectionOf(vec![
        ClassExpr::ObjectIntersectionOf(vec![named("A"), named("B")]),
        named("C"),
    ]));
}

#[test]
fn overlapping_conjunctions_do_not_parse() {
    assert!(!class_expression_parses("A and and B"));
    assert!(split_conjunction(&chars("A and and B")).is_none());
    assert!(class_expression_parses("A and B"));
    assert!(class_expression_parses("(A and and B) some C"));
}

#[test]
fn split_keyword_finds_the_first_top_level_occurrence() {
    let kw = chars(" some ");
    let (a, b) = split_keyword(&chars("(p some q) some r some s"), &kw).unwrap();
    assert_eq!(a, chars("(p some q)"));
    assert_eq!(b, chars("r some s"));
    assert!(split_keyword(&chars("(p some q)"), &kw).is_none());
}

#[test]
fn split_keyword_with_an_empty_keyword() {
    let empty: Vec<char> = Vec::new();
    let (a, b) = split_keyword(&chars("(a)b"), &empty).unwrap();
    assert_eq!(a, chars("(a"));
    assert_eq!(b, chars(")b"));
    let (a, b) = split_keyword(&chars("xy"), &empty).unwrap();
    assert_eq!(a, chars(""));
    assert_eq!(b, chars("xy"));
    assert!(split_keyword(&chars(""), &empty).is_none());
    assert!(split_keyword(&chars("(("), &empty).is_none());
}

#[test]
fn split_keyword_parts_rejoin() {
    let kw = chars(" and ");
    let s = chars("(a and b) and c and d");
    let (a, b) = split_keyword(&s, &kw).unwrap();
    let mut joined = a.clone();
    joined.extend(kw.iter());
    joined.extend(b.iter());
    assert_eq!(joined, s);
}

#[test]
fn parenthesised_expression_parses_as_itself() {
    for e in ["A", "A and B", "p some (B and C)", "(A) and (B)", "p some A and B"] {
        assert_eq!(parse_class_expression(&format!("({})", e)), parse_class_expression(e));
    }
}

#[test]
fn split_conjunction_pieces_rejoin() {
    let s = chars("A and (B and C) and  D ");
    let parts = split_conjunction(&s).unwrap();
    assert!(!parts.is_empty());
    let mut joined: Vec<char> = Vec::new();
    for (k, p) in parts.iter().enumerate() {
        if k > 0 {
            joined.extend(chars(" and "));
        }
        joined.extend(p.iter());
    }
    assert_eq!(joined, s);
}

#[test]
fn split_conjunction_pieces() {
    let parts = split_conjunction(&chars("A and (B and C) and D")).unwrap();
    assert_eq!(parts, vec![chars("A"), chars("(B and C)"), chars("D")]);
    assert_eq!(split_conjunction(&chars("A")).unwrap(), vec![chars("A")]);
}

#[test]
fn strip_parens_cases() {
    assert_eq!(strip_parens(&chars("  (A)  ")), chars("A"));
    assert_eq!(strip_parens(&chars("(A) and (B)")), chars("A) and (B"));
    assert_eq!(strip_parens(&chars("A")), chars("A"));
    assert_eq!(strip_parens(&chars("()")), chars(""));
}

#[test]
fn white_space_and_trimming() {
    assert!(is_white_space(' '));
    assert!(is_white_space('\u{3000}'));
    assert!(is_white_space('\u{85}'));
    assert!(!is_white_space('a'));
    assert!(!is_white_space('\u{200b}'));
    for c in ['\u{9}', '\u{a}', '\u{b}', '\u{c}', '\u{d}', '\u{a0}', '\u{2001}', '\u{2028}'] {
        assert_eq!(is_white_space(c), c.is_whitespace());
    }
    assert_eq!(trim_chars(&chars("\u{a0} a b \n")), chars("a b"));
    assert_eq!(chars_of("añb"), vec!['a', 'ñ', 'b']);
}

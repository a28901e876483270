//! The class expression grammar of the spec.

use vstd::prelude::*;

use crate::text::{lemma_trim_idempotent, lemma_trim_shrinks, chars_of, string_of, sub_vec, trim, trim_bounds, trim_chars};

verus! {

/// A class expression, as the spec's `subclass_of` and `equivalent_to`
/// strings denote it.
#[derive(Debug, PartialEq, Eq)]
pub enum ClassExpr {
    /// A named class, by its IRI.
    Class(String),
    /// `prop some CE`: the existential restriction on an object property.
    ObjectSomeValuesFrom(String, Box<ClassExpr>),
    /// `CE and CE and ...`: the intersection of class expressions.
    ObjectIntersectionOf(Vec<ClassExpr>),
}

/// [`ClassExpr`] with its strings taken by their views.
pub enum ClassExprModel {
    Class(Seq<char>),
    ObjectSomeValuesFrom(Seq<char>, Box<ClassExprModel>),
    ObjectIntersectionOf(Seq<ClassExprModel>),
}

impl ClassExpr {
    pub open spec fn model(self) -> ClassExprModel
        decreases self,
    {
        match self {
            ClassExpr::Class(i) => ClassExprModel::Class(i@),
            ClassExpr::ObjectSomeValuesFrom(p, e) => ClassExprModel::ObjectSomeValuesFrom(
                p@,
                Box::new(e.model()),
            ),
            ClassExpr::ObjectIntersectionOf(v) => ClassExprModel::ObjectIntersectionOf(
                models(v@),
            ),
        }
    }
}

pub open spec fn models(s: Seq<ClassExpr>) -> Seq<ClassExprModel>
    decreases s,
{
    if s.len() == 0 {
        Seq::empty()
    } else {
        models(s.drop_last()).push(s.last().model())
    }
}


/// How a character moves the parenthesis depth.
pub open spec fn paren_step(c: char) -> int {
    if c == '(' {
        1
    } else if c == ')' {
        -1
    } else {
        0
    }
}

/// The parenthesis depth at the end of `s`: opening minus closing parentheses.
pub open spec fn paren_depth(s: Seq<char>) -> int
    decreases s.len(),
{
    if s.len() == 0 {
        0
    } else {
        paren_depth(s.drop_last()) + paren_step(s.last())
    }
}

/// The depth of a concatenation is the sum of the depths.
pub proof fn lemma_depth_concat(a: Seq<char>, b: Seq<char>)
    ensures
        paren_depth(a + b) == paren_depth(a) + paren_depth(b),
    decreases b.len(),
{
    if b.len() == 0 {
        assert(a + b =~= a);
    } else {
        lemma_depth_concat(a, b.drop_last());
        assert((a + b).drop_last() =~= a + b.drop_last());
    }
}

/// The keyword ` some ` of an existential restriction.
pub open spec fn some_kw() -> Seq<char> {
    seq![' ', 's', 'o', 'm', 'e', ' ']
}

/// The keyword ` and ` of an intersection.
pub open spec fn and_kw() -> Seq<char> {
    seq![' ', 'a', 'n', 'd', ' ']
}

/// `kw` occurs in `s` at index `i`.
pub open spec fn occurs_at(s: Seq<char>, kw: Seq<char>, i: int) -> bool {
    0 <= i && i + kw.len() <= s.len() && s.subrange(i, i + kw.len()) == kw
}

/// `kw` occurs in `s` at index `i`, a position of a character of `s`, outside
/// any parentheses (the depth after the character at `i` is zero).
pub open spec fn top_at(s: Seq<char>, kw: Seq<char>, i: int) -> bool {
    i < s.len() && occurs_at(s, kw, i) && paren_depth(s.take(i + 1)) == 0
}

/// `i` is the first index of a top-level occurrence of `kw` in `s`.
pub open spec fn is_first_top(s: Seq<char>, kw: Seq<char>, i: int) -> bool {
    top_at(s, kw, i) && forall|j: int| 0 <= j < i ==> !top_at(s, kw, j)
}

/// The first index of a top-level occurrence of `kw` in `s`, if any.
pub open spec fn first_top(s: Seq<char>, kw: Seq<char>) -> Option<int> {
    if exists|i: int| is_first_top(s, kw, i) {
        Some(choose|i: int| is_first_top(s, kw, i))
    } else {
        None
    }
}

/// `s` split around its first top-level `kw`: the part before and the part after.
pub open spec fn split_kw(s: Seq<char>, kw: Seq<char>) -> Option<(Seq<char>, Seq<char>)> {
    match first_top(s, kw) {
        Some(i) => Some((s.take(i), s.skip(i + kw.len()))),
        None => None,
    }
}

pub proof fn lemma_first_top(s: Seq<char>, kw: Seq<char>)
    ensures
        first_top(s, kw) matches Some(i) ==> is_first_top(s, kw, i),
        forall|i: int| #[trigger] is_first_top(s, kw, i) ==> first_top(s, kw) == Some(i),
{
    assert forall|i: int| #[trigger] is_first_top(s, kw, i) implies first_top(s, kw) == Some(i) by {
        let c = choose|i: int| is_first_top(s, kw, i);
        if c < i {
            assert(!top_at(s, kw, c));
        } else if i < c {
            assert(!top_at(s, kw, i));
        }
    }
}

/// The pieces of `s` between its top-level ` and ` keywords, or `None` where
/// two of those keywords overlap (as in `a and and b`), which the splitter
/// cannot slice.
pub open spec fn conj_split(s: Seq<char>) -> Option<Seq<Seq<char>>>
    decreases s.len(),
{
    match first_top(s, and_kw()) {
        None => Some(seq![s]),
        Some(i) => {
            if top_at(s, and_kw(), i + 4) {
                None
            } else {
                proof {
                    lemma_first_top(s, and_kw());
                }
                match conj_split(s.skip(i + 5)) {
                    Some(rest) => Some(seq![s.take(i)] + rest),
                    None => None,
                }
            }
        },
    }
}


/// The characters of ` some `.
fn some_keyword() -> (kw: Vec<char>)
    ensures
        kw@ == some_kw(),
{
    let kw = vec![' ', 's', 'o', 'm', 'e', ' '];
    assert(kw@ =~= some_kw());
    kw
}

/// The characters of ` and `.
fn and_keyword() -> (kw: Vec<char>)
    ensures
        kw@ == and_kw(),
{
    let kw = vec![' ', 'a', 'n', 'd', ' '];
    assert(kw@ =~= and_kw());
    kw
}

/// Whether `kw` occurs in `s` at index `i`.
fn occurs(s: &Vec<char>, kw: &Vec<char>, i: usize) -> (r: bool)
    requires
        i <= s.len(),
    ensures
        r == occurs_at(s@, kw@, i as int),
{
    if kw.len() > s.len() - i {
        return false;
    }
    let mut k: usize = 0;
    while k < kw.len()
        invariant
            i + kw.len() <= s.len(),
            k <= kw.len(),
            forall|j: int| 0 <= j < k ==> s@[i + j] == kw@[j],
        decreases kw.len() - k,
    {
        if s[i + k] != kw[k] {
            assert(s@.subrange(i as int, i + kw.len())[k as int] != kw@[k as int]);
            return false;
        }
        k += 1;
    }
    assert(s@.subrange(i as int, i + kw.len()) =~= kw@);
    true
}

proof fn lemma_depth_step(s: Seq<char>, k: int)
    requires
        0 <= k < s.len(),
    ensures
        paren_depth(s.take(k + 1)) == paren_depth(s.take(k)) + paren_step(s[k]),
{
    assert(s.take(k + 1).drop_last() =~= s.take(k));
}

/// The first index at or after `from` where `kw` occurs in `s` outside any
/// parentheses opened after `from`: the first top-level occurrence in the
/// part of `s` that starts at `from`.
fn find_top(s: &Vec<char>, kw: &Vec<char>, from: usize) -> (r: Option<usize>)
    requires
        from <= s.len(),
    ensures
        r matches Some(i) ==> i + kw.len() <= s.len(),
        r matches Some(i) ==> from <= i && first_top(s@.skip(from as int), kw@) == Some(
            (i - from) as int,
        ),
        r is None ==> first_top(s@.skip(from as int), kw@) is None,
{
    let ghost t = s@.skip(from as int);
    let mut opened: usize = 0;
    let mut closed: usize = 0;
    let mut i = from;
    proof {
        lemma_first_top(t, kw@);
    }
    while i < s.len()
        invariant
            from <= i <= s.len(),
            t == s@.skip(from as int),
            opened + closed <= i - from,
            opened - closed == paren_depth(t.take(i - from)),
            forall|j: int| 0 <= j < i - from ==> !#[trigger] top_at(t, kw@, j),
        decreases s.len() - i,
    {
        proof {
            lemma_depth_step(t, i - from);
        }
        if s[i] == '(' {
            opened += 1;
        } else if s[i] == ')' {
            closed += 1;
        }
        let here = occurs(s, kw, i);
        proof {
            if here {
                assert(t.subrange(i - from, i - from + kw.len()) =~= s@.subrange(
                    i as int,
                    i + kw.len(),
                ));
            } else {
                if occurs_at(t, kw@, i - from) {
                    assert(t.subrange(i - from, i - from + kw.len()) =~= s@.subrange(
                        i as int,
                        i + kw.len(),
                    ));
                }
            }
        }
        if opened == closed && here {
            proof {
                assert(is_first_top(t, kw@, i - from));
                lemma_first_top(t, kw@);
                assert(occurs_at(t, kw@, i - from));
            }
            return Some(i);
        }
        i += 1;
    }
    proof {
        assert forall|j: int| !#[trigger] is_first_top(t, kw@, j) by {
            if 0 <= j < t.len() {
                assert(!top_at(t, kw@, j));
            }
        }
    }
    None
}

/// Split `s` around its first top-level `kw`: the part before and the part
/// after.
pub fn split_keyword(s: &Vec<char>, kw: &Vec<char>) -> (r: Option<(Vec<char>, Vec<char>)>)
    ensures
        r is Some <==> split_kw(s@, kw@) is Some,
        r matches Some((a, b)) ==> split_kw(s@, kw@) == Some((a@, b@)),
        r matches Some((a, b)) ==> a@ + kw@ + b@ == s@,
{
    assert(s@.skip(0) =~= s@);
    match find_top(s, kw, 0) {
        Some(i) => {
            proof {
                lemma_first_top(s@, kw@);
                assert(is_first_top(s@, kw@, i as int));
                assert(occurs_at(s@, kw@, i as int));
                assert(s@.take(i as int) + kw@ + s@.skip(i + kw.len()) =~= s@);
            }
            Some((sub_vec(s, 0, i), sub_vec(s, i + kw.len(), s.len())))
        },
        None => None,
    }
}


/// The views of a sequence of character vectors.
pub open spec fn views(v: Seq<Vec<char>>) -> Seq<Seq<char>> {
    v.map_values(|x: Vec<char>| x@)
}

/// A top-level ` and ` four characters after another one is itself at depth
/// zero: the characters between hold no parenthesis.
proof fn lemma_and_overlap_depth(t: Seq<char>, k: int)
    requires
        top_at(t, and_kw(), k),
        k + 5 <= t.len(),
    ensures
        paren_depth(t.take(k + 5)) == 0,
{
    let w = t.subrange(k, k + 5);
    assert(w[1] == 'a' && w[2] == 'n' && w[3] == 'd' && w[4] == ' ');
    assert(t[k + 1] == w[1] && t[k + 2] == w[2] && t[k + 3] == w[3] && t[k + 4] == w[4]);
    lemma_depth_step(t, k + 1);
    lemma_depth_step(t, k + 2);
    lemma_depth_step(t, k + 3);
    lemma_depth_step(t, k + 4);
}

/// The pieces joined with ` and ` between each two.
pub open spec fn join_and(ps: Seq<Seq<char>>) -> Seq<char>
    decreases ps.len(),
{
    if ps.len() == 0 {
        Seq::empty()
    } else if ps.len() == 1 {
        ps[0]
    } else {
        ps[0] + and_kw() + join_and(ps.drop_first())
    }
}

/// The pieces of a conjunction split are never none, and joined with ` and `
/// they give back the string.
pub proof fn lemma_conj_split_joins(s: Seq<char>)
    ensures
        conj_split(s) matches Some(ps) ==> ps.len() >= 1 && join_and(ps) == s,
    decreases s.len(),
{
    lemma_first_top(s, and_kw());
    match first_top(s, and_kw()) {
        None => {},
        Some(i) => {
            if !top_at(s, and_kw(), i + 4) {
                lemma_conj_split_joins(s.skip(i + 5));
                if conj_split(s.skip(i + 5)) is Some {
                    let rest = conj_split(s.skip(i + 5)).unwrap();
                    let ps = seq![s.take(i)] + rest;
                    assert(ps.drop_first() =~= rest);
                    assert(ps[0] == s.take(i));
                    assert(s.subrange(i, i + 5) == and_kw());
                    assert(s.take(i) + and_kw() + s.skip(i + 5) =~= s);
                }
            }
        },
    }
}

/// The pieces of `s` between its top-level ` and ` keywords, cut left to
/// right; joined with ` and ` they give back `s`. `None` where two of those
/// keywords overlap (the input on which slicing the pieces fails).
pub fn split_conjunction(s: &Vec<char>) -> (r: Option<Vec<Vec<char>>>)
    ensures
        r is Some <==> conj_split(s@) is Some,
        r matches Some(parts) ==> conj_split(s@) == Some(views(parts@)),
        r matches Some(parts) ==> parts.len() >= 1 && join_and(views(parts@)) == s@,
{
    proof {
        lemma_conj_split_joins(s@);
    }
    let and = and_keyword();
    let mut result: Vec<Vec<char>> = Vec::new();
    let mut start: usize = 0;
    assert(s@.skip(0) =~= s@);
    assert(views(result@) + seq![] =~= seq![]);
    loop
        invariant
            start <= s.len(),
            and@ == and_kw(),
            conj_split(s@) is Some <==> conj_split(s@.skip(start as int)) is Some,
            conj_split(s@.skip(start as int)) is Some ==> conj_split(s@) == Some(
                views(result@) + conj_split(s@.skip(start as int)).unwrap(),
            ),
        decreases s.len() - start,
    {
        let ghost t = s@.skip(start as int);
        proof {
            lemma_first_top(t, and_kw());
        }
        match find_top(s, &and, start) {
            None => {
                result.push(sub_vec(s, start, s.len()));
                proof {
                    assert(s@.subrange(start as int, s.len() as int) =~= t);
                    assert(views(result@) =~= views(result@.drop_last()).push(t));
                    lemma_conj_split_joins(s@);
                }
                return Some(result);
            },
            Some(i) => {
                let k = i - start;
                if i + 4 <= s.len() && occurs(s, &and, i + 4) {
                    proof {
                        assert(t.subrange(k + 4, k + 9) =~= s@.subrange(i + 4, i + 9));
                        lemma_and_overlap_depth(t, k as int);
                        lemma_depth_step(t, k + 4);
                        assert(top_at(t, and_kw(), k + 4));
                    }
                    return None;
                }
                proof {
                    if top_at(t, and_kw(), k + 4) {
                        assert(t.subrange(k + 4, k + 9) =~= s@.subrange(i + 4, i + 9));
                    }
                    assert(t.skip(k + 5) =~= s@.skip(i + 5));
                    assert(t.take(k as int) =~= s@.subrange(start as int, i as int));
                }
                let ghost before = views(result@);
                result.push(sub_vec(s, start, i));
                proof {
                    assert(views(result@) =~= before.push(t.take(k as int)));
                    if conj_split(s@.skip(i + 5)) is Some {
                        assert(before + conj_split(t).unwrap() =~= views(result@) + conj_split(
                            s@.skip(i + 5),
                        ).unwrap());
                    }
                }
                start = i + 5;
            },
        }
    }
}


/// `s` trimmed, and without one pair of enclosing parentheses where it is
/// enclosed in them.
pub open spec fn strip_parens_spec(s: Seq<char>) -> Seq<char> {
    let t = trim(s);
    if t.len() > 0 && t[0] == '(' && t.last() == ')' {
        t.subrange(1, t.len() - 1)
    } else {
        t
    }
}

/// The class expression that a string denotes, or `None` where parsing it
/// fails by overlapping ` and ` keywords.
///
/// The string is trimmed; then, in this order: a top-level ` some ` splits it
/// into a property and a filler; else two or more top-level ` and ` pieces
/// make an intersection; else a pair of enclosing parentheses is dropped and
/// the rest parsed; else it names a class.
pub open spec fn parse_ce(s: Seq<char>) -> Option<ClassExprModel>
    decreases s.len() + 1, 0int,
{
    let t = trim(s);
    proof {
        lemma_trim_shrinks(s);
    }
    match split_kw(t, some_kw()) {
        Some((p, rest)) => {
            proof {
                lemma_first_top(t, some_kw());
                lemma_trim_shrinks(rest);
            }
            match parse_ce(trim(rest)) {
                Some(e) => Some(ClassExprModel::ObjectSomeValuesFrom(trim(p), Box::new(e))),
                None => None,
            }
        },
        None => match conj_split(t) {
            None => None,
            Some(parts) => {
                if parts.len() > 1 {
                    match parse_pieces(parts, t.len()) {
                        Some(ms) => Some(ClassExprModel::ObjectIntersectionOf(ms)),
                        None => None,
                    }
                } else {
                    let st = strip_parens_spec(t);
                    proof {
                        lemma_trim_idempotent(s);
                    }
                    if st != t {
                        parse_ce(st)
                    } else {
                        Some(ClassExprModel::Class(t))
                    }
                }
            },
        },
    }
}

/// The class expressions of the trimmed pieces of an intersection, each
/// shorter than `bound`.
pub open spec fn parse_pieces(ps: Seq<Seq<char>>, bound: nat) -> Option<Seq<ClassExprModel>>
    decreases bound, ps.len(),
{
    if ps.len() == 0 {
        Some(Seq::empty())
    } else if trim(ps.last()).len() < bound {
        match parse_pieces(ps.drop_last(), bound) {
            Some(ms) => match parse_ce(trim(ps.last())) {
                Some(m) => Some(ms.push(m)),
                None => None,
            },
            None => None,
        }
    } else {
        None
    }
}


/// The model of an optional class expression.
pub open spec fn opt_model(r: Option<ClassExpr>) -> Option<ClassExprModel> {
    match r {
        Some(e) => Some(e.model()),
        None => None,
    }
}

/// Every piece of a conjunction split is no longer than the string; where
/// there are two pieces or more, each is shorter.
pub proof fn lemma_conj_parts_len(s: Seq<char>)
    ensures
        conj_split(s) matches Some(parts) ==> forall|j: int|
            0 <= j < parts.len() ==> (#[trigger] parts[j]).len() <= s.len() && (parts.len() > 1
                ==> parts[j].len() < s.len()),
    decreases s.len(),
{
    lemma_first_top(s, and_kw());
    match first_top(s, and_kw()) {
        None => {},
        Some(i) => {
            if !top_at(s, and_kw(), i + 4) {
                lemma_conj_parts_len(s.skip(i + 5));
                if conj_split(s.skip(i + 5)) is Some {
                    let rest = conj_split(s.skip(i + 5)).unwrap();
                    let parts = seq![s.take(i)] + rest;
                    assert forall|j: int| 0 <= j < parts.len() implies (#[trigger] parts[j]).len()
                        < s.len() by {
                        if j > 0 {
                            assert(parts[j] == rest[j - 1]);
                        }
                    }
                }
            }
        },
    }
}

/// Once a prefix of the pieces fails to parse, all of them do.
proof fn lemma_pieces_prefix(ps: Seq<Seq<char>>, bound: nat, n: int)
    requires
        0 <= n <= ps.len(),
        parse_pieces(ps.take(n), bound) is None,
    ensures
        parse_pieces(ps, bound) is None,
    decreases ps.len() - n,
{
    if n < ps.len() {
        assert(ps.take(n + 1).drop_last() =~= ps.take(n));
        lemma_pieces_prefix(ps, bound, n + 1);
    } else {
        assert(ps.take(n) =~= ps);
    }
}

/// Whether `kw` occurs anywhere in `s`.
fn contains_keyword(s: &Vec<char>, kw: &Vec<char>) -> (r: bool)
    requires
        kw.len() > 0,
    ensures
        r == exists|i: int| occurs_at(s@, kw@, i),
{
    let mut i: usize = 0;
    while i < s.len()
        invariant
            i <= s.len(),
            forall|j: int| 0 <= j < i ==> !#[trigger] occurs_at(s@, kw@, j),
        decreases s.len() - i,
    {
        if occurs(s, kw, i) {
            return true;
        }
        i += 1;
    }
    false
}

/// Whether two character vectors are equal.
fn chars_eq(a: &Vec<char>, b: &Vec<char>) -> (r: bool)
    ensures
        r == (a@ == b@),
{
    if a.len() != b.len() {
        return false;
    }
    let mut i: usize = 0;
    while i < a.len()
        invariant
            a.len() == b.len(),
            i <= a.len(),
            forall|j: int| 0 <= j < i ==> a@[j] == b@[j],
        decreases a.len() - i,
    {
        if a[i] != b[i] {
            return false;
        }
        i += 1;
    }
    assert(a@ =~= b@);
    true
}

/// Trim `s`, then drop one pair of enclosing parentheses where it is enclosed
/// in them.
pub fn strip_parens(s: &Vec<char>) -> (r: Vec<char>)
    ensures
        r@ == strip_parens_spec(s@),
{
    let (lo, hi) = trim_bounds(s);
    if lo < hi && s[lo] == '(' && s[hi - 1] == ')' {
        proof {
            let t = s@.subrange(lo as int, hi as int);
            assert(t[0] == s@[lo as int] && t.last() == s@[hi - 1]);
            assert(t.subrange(1, t.len() - 1) =~= s@.subrange(lo + 1, hi - 1));
        }
        sub_vec(s, lo + 1, hi - 1)
    } else {
        proof {
            let t = s@.subrange(lo as int, hi as int);
            if t.len() > 0 {
                assert(t[0] == s@[lo as int] && t.last() == s@[hi - 1]);
            }
        }
        sub_vec(s, lo, hi)
    }
}

/// The class expressions of the trimmed pieces of an intersection.
fn parse_parts(parts: &Vec<Vec<char>>, bound: usize) -> (r: Option<Vec<ClassExpr>>)
    requires
        forall|j: int| 0 <= j < parts.len() ==> (#[trigger] parts@[j])@.len() < bound,
    ensures
        r is Some <==> parse_pieces(views(parts@), bound as nat) is Some,
        r matches Some(ms) ==> parse_pieces(views(parts@), bound as nat) == Some(models(ms@)),
    decreases bound, 1int,
{
    let ghost ps = views(parts@);
    assert(ps.take(0) =~= Seq::<Seq<char>>::empty());
    let mut ms: Vec<ClassExpr> = Vec::new();
    let mut k: usize = 0;
    while k < parts.len()
        invariant
            k <= parts.len(),
            ps == views(parts@),
            forall|j: int| 0 <= j < parts.len() ==> (#[trigger] parts@[j])@.len() < bound,
            parse_pieces(ps.take(k as int), bound as nat) == Some(models(ms@)),
        decreases parts.len() - k,
    {
        let pt = trim_chars(&parts[k]);
        proof {
            assert(ps[k as int] == parts@[k as int]@);
            lemma_trim_shrinks(parts@[k as int]@);
            assert(ps.take(k + 1).drop_last() =~= ps.take(k as int));
            assert(ps.take(k + 1).last() == ps[k as int]);
        }
        match parse_chars(&pt) {
            Some(e) => {
                let ghost before = ms@;
                ms.push(e);
                proof {
                    assert(ms@.drop_last() =~= before);
                }
            },
            None => {
                proof {
                    lemma_pieces_prefix(ps, bound as nat, k + 1);
                }
                return None;
            },
        }
        k += 1;
    }
    proof {
        assert(ps.take(k as int) =~= ps);
    }
    Some(ms)
}

/// The class expression that the characters `s` denote; `None` where the
/// expression holds overlapping top-level ` and ` keywords, on which the
/// conjunction cannot be split.
fn parse_chars(s: &Vec<char>) -> (r: Option<ClassExpr>)
    ensures
        opt_model(r) == parse_ce(s@),
    decreases s@.len() + 1, 0int,
{
    let t = trim_chars(s);
    proof {
        lemma_trim_shrinks(s@);
        lemma_trim_idempotent(s@);
    }
    let some = some_keyword();
    match split_keyword(&t, &some) {
        Some((p, rest)) => {
            let rt = trim_chars(&rest);
            proof {
                lemma_first_top(t@, some_kw());
                lemma_trim_shrinks(rest@);
            }
            match parse_chars(&rt) {
                Some(e) => {
                    let (lo, hi) = trim_bounds(&p);
                    Some(ClassExpr::ObjectSomeValuesFrom(string_of(&p, lo, hi), Box::new(e)))
                },
                None => None,
            }
        },
        None => {
            let and = and_keyword();
            if contains_keyword(&t, &and) {
                match split_conjunction(&t) {
                    None => {
                        return None;
                    },
                    Some(parts) => {
                        if parts.len() > 1 {
                            proof {
                                lemma_conj_parts_len(t@);
                                assert forall|j: int| 0 <= j < parts.len() implies (
                                #[trigger] parts@[j])@.len() < t.len() by {
                                    assert(views(parts@)[j] == parts@[j]@);
                                }
                            }
                            return match parse_parts(&parts, t.len()) {
                                Some(ms) => Some(ClassExpr::ObjectIntersectionOf(ms)),
                                None => None,
                            };
                        }
                    },
                }
            } else {
                proof {
                    lemma_first_top(t@, and_kw());
                    if first_top(t@, and_kw()) is Some {
                        let i = first_top(t@, and_kw()).unwrap();
                        assert(occurs_at(t@, and_kw(), i));
                    }
                }
            }
            let st = strip_parens(&t);
            if !chars_eq(&st, &t) {
                parse_chars(&st)
            } else {
                assert(t@.subrange(0, t@.len() as int) =~= t@);
                Some(ClassExpr::Class(string_of(&t, 0, t.len())))
            }
        },
    }
}

/// Parse a class expression string of the forms:
///   "FullIRI and FullIRI"   (intersection)
///   "FullIRI some FullIRI"  (existential restriction)
///   "FullIRI"               (named class)
/// with parentheses for grouping, as [`parse_ce`] defines it.
pub fn parse_class_expression(expr: &str) -> (e: ClassExpr)
    requires
        parse_ce(expr@) is Some,
    ensures
        e.model() == parse_ce(expr@).unwrap(),
{
    let s = chars_of(expr);
    match parse_chars(&s) {
        Some(e) => e,
        None => {
            proof {
                assert(false);
            }
            ClassExpr::Class(String::new())
        },
    }
}

/// Whether [`parse_class_expression`] accepts `expr`: it does, unless two
/// top-level ` and ` keywords overlap somewhere in it (as in `a and and b`).
pub fn class_expression_parses(expr: &str) -> (r: bool)
    ensures
        r == parse_ce(expr@) is Some,
{
    let s = chars_of(expr);
    parse_chars(&s).is_some()
}

} // verus!

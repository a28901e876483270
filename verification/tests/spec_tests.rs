use cogito::spec::{load, validate, ClassDef, CogitoSpec, LoadError, ObjectPropertyDef, SpecError};

fn prop(iri: &str, label: &str) -> ObjectPropertyDef {
    ObjectPropertyDef {
        iri: iri.to_string(),
        label: label.to_string(),
        transitive: false,
        inverse_of: None,
        domain: None,
        range: None,
    }
}

fn class(iri: &str, label: &str) -> ClassDef {
    ClassDef {
        iri: iri.to_string(),
        label: label.to_string(),
        parent: None,
        parent_full: None,
        definition: None,
        equivalent_to: None,
        subclass_of: Vec::new(),
    }
}

fn spec(props: Vec<ObjectPropertyDef>, classes: Vec<ClassDef>) -> CogitoSpec {
    CogitoSpec {
        iri: Some("https://wintermute.local/cogito".to_string()),
        version_iri: None,
        imports: None,
        object_properties: props,
        classes,
    }
}

#[test]
fn ac7_check_malformed_spec_fails() {
    let s = spec(
        vec![],
        vec![
            class("https://wintermute.local/cogito#Dup", "Dup"),
            class("https://wintermute.local/cogito#Dup", "Dup Again"),
        ],
    );
    assert!(validate(&s).is_err());
    assert_eq!(
        validate(&s),
        Err(SpecError::DuplicateIri("https://wintermute.local/cogito#Dup".to_string()))
    );
    assert!(matches!(load(Ok(s)), Err(LoadError::Invalid(SpecError::DuplicateIri(_)))));
}

#[test]
fn validate_accepts_well_formed_spec() {
    let s = spec(
        vec![prop("urn:p", "p"), prop("urn:q", "q")],
        vec![class("urn:A", "A"), class("urn:B", "B")],
    );
    assert_eq!(validate(&s), Ok(()));
}

#[test]
fn validate_accepts_empty_spec() {
    assert_eq!(validate(&spec(vec![], vec![])), Ok(()));
}

#[test]
fn validate_reports_empty_property_iri() {
    let s = spec(vec![prop("", "p")], vec![]);
    assert_eq!(validate(&s), Err(SpecError::EmptyPropertyIri));
    assert_eq!(validate(&s).unwrap_err().message(), "object property has empty IRI");
}

#[test]
fn validate_reports_empty_property_label() {
    let s = spec(vec![prop("urn:p", "")], vec![]);
    let e = validate(&s).unwrap_err();
    assert_eq!(e, SpecError::EmptyPropertyLabel("urn:p".to_string()));
    assert_eq!(e.message(), "object property 'urn:p' has empty label");
}

#[test]
fn validate_reports_duplicate_across_properties_and_classes() {
    let s = spec(vec![prop("urn:x", "x")], vec![class("urn:x", "X")]);
    let e = validate(&s).unwrap_err();
    assert_eq!(e, SpecError::DuplicateIri("urn:x".to_string()));
    assert_eq!(e.message(), "duplicate IRI in spec: urn:x");
}

#[test]
fn validate_reports_empty_class_iri_and_label() {
    let s = spec(vec![], vec![class("", "A")]);
    assert_eq!(validate(&s), Err(SpecError::EmptyClassIri));
    assert_eq!(validate(&s).unwrap_err().message(), "class has empty IRI");
    let s = spec(vec![], vec![class("urn:A", "")]);
    let e = validate(&s).unwrap_err();
    assert_eq!(e, SpecError::EmptyClassLabel("urn:A".to_string()));
    assert_eq!(e.message(), "class 'urn:A' has empty label");
}

#[test]
fn validate_reports_the_first_fault() {
    // An empty label on the first property comes before the duplicate class IRI.
    let s = spec(
        vec![prop("urn:p", "")],
        vec![class("urn:A", "A"), class("urn:A", "A")],
    );
    assert_eq!(validate(&s), Err(SpecError::EmptyPropertyLabel("urn:p".to_string())));
    // Properties are checked before classes, and the empty IRI before the label.
    let s = spec(vec![prop("urn:p", "p")], vec![class("", "")]);
    assert_eq!(validate(&s), Err(SpecError::EmptyClassIri));
}

#[test]
fn load_passes_parse_errors_through() {
    let r = load(Err("expected `=`".to_string()));
    assert_eq!(r, Err(LoadError::Parse("expected `=`".to_string())));
}

#[test]
fn load_returns_a_valid_spec() {
    let s = spec(vec![prop("urn:p", "p")], vec![class("urn:A", "A")]);
    let expected = spec(vec![prop("urn:p", "p")], vec![class("urn:A", "A")]);
    assert_eq!(load(Ok(s)), Ok(expected));
}

#[test]
fn effective_parent_prefers_parent_full() {
    let mut c = class("urn:A", "A");
    assert_eq!(c.effective_parent(), None);
    c.parent = Some("BFO:process".to_string());
    assert_eq!(c.effective_parent(), Some("BFO:process"));
    c.parent_full = Some("http://purl.obolibrary.org/obo/BFO_0000015".to_string());
    assert_eq!(c.effective_parent(), Some("http://purl.obolibrary.org/obo/BFO_0000015"));
    c.parent = None;
    assert_eq!(c.effective_parent(), Some("http://purl.obolibrary.org/obo/BFO_0000015"));
}

#[test]
fn removing_entries_keeps_a_spec_valid() {
    let s = spec(
        vec![prop("urn:p", "p"), prop("urn:q", "q")],
        vec![class("urn:A", "A"), class("urn:B", "B"), class("urn:C", "C")],
    );
    assert_eq!(validate(&s), Ok(()));
    let t = spec(vec![prop("urn:q", "q")], vec![class("urn:A", "A"), class("urn:C", "C")]);
    assert_eq!(validate(&t), Ok(()));
}

#[test]
fn validity_ignores_order_and_other_fields() {
    let s = spec(vec![prop("urn:p", "p"), prop("urn:q", "q")], vec![class("urn:A", "A"), class("urn:B", "B")]);
    let mut b = class("urn:B", "B");
    b.parent = Some("urn:A".to_string());
    b.definition = Some("the second".to_string());
    let mut q = prop("urn:q", "q");
    q.transitive = true;
    let mut t = spec(vec![q, prop("urn:p", "p")], vec![b, class("urn:A", "A")]);
    t.imports = Some(vec!["urn:other".to_string()]);
    assert_eq!(validate(&s).is_ok(), validate(&t).is_ok());
    // And the same for an invalid pair.
    let s = spec(vec![prop("urn:p", "p")], vec![class("urn:p", "P")]);
    let t = spec(vec![prop("urn:p", "p")], vec![class("urn:p", "P")]);
    assert!(validate(&s).is_err() && validate(&t).is_err());
}

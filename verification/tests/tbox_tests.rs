use cogito::class_expr::ClassExpr;
use cogito::spec::{ClassDef, CogitoSpec, ObjectPropertyDef, BFO_IMPORT, COGITO_ONT};
use cogito::tbox::{
    build_with_horned, count_components, stats, tbox_axioms, tbox_parses, Axiom, ComponentTag,
    TboxStats, RDFS_COMMENT, RDFS_LABEL,
};

const NS: &str = "https://wintermute.local/cogito#";

fn iri(name: &str) -> String {
    format!("{}{}", NS, name)
}

fn prop(name: &str, transitive: bool, inverse: Option<&str>) -> ObjectPropertyDef {
    ObjectPropertyDef {
        iri: iri(name),
        label: name.to_string(),
        transitive,
        inverse_of: inverse.map(iri),
        domain: None,
        range: None,
    }
}

fn class(name: &str) -> ClassDef {
    ClassDef {
        iri: iri(name),
        label: name.to_string(),
        parent: None,
        parent_full: None,
        definition: None,
        equivalent_to: None,
        subclass_of: Vec::new(),
    }
}

fn sample_spec() -> CogitoSpec {
    let mut daemon = class("Daemon");
    daemon.parent = Some("http://purl.obolibrary.org/obo/BFO_0000015".to_string());
    daemon.definition = Some("A long-running process.".to_string());
    let bus = class("Bus");
    let mut registrant = class("BusRegistrant");
    registrant.equivalent_to = Some(format!("{} and ({} some {})", iri("Daemon"), iri("registersOn"), iri("Bus")));
    let mut hc = class("BusHealthcheck");
    hc.subclass_of = vec![format!("{} some {}", iri("healthcheckedBy"), iri("BusRegistrant"))];
    CogitoSpec {
        iri: None,
        version_iri: Some("https://wintermute.local/cogito/0.1.0".to_string()),
        imports: Some(vec![BFO_IMPORT.to_string()]),
        object_properties: vec![
            prop("dependsOn", true, None),
            prop("registersOn", false, None),
            prop("healthchecks", false, Some("healthcheckedBy")),
            prop("healthcheckedBy", false, None),
        ],
        classes: vec![daemon, bus, registrant, hc],
    }
}

fn ann(subject: &str, property: &str, literal: &str) -> Axiom {
    Axiom::AnnotationAssertion(iri(subject), property.to_string(), literal.to_string())
}

#[test]
fn tbox_axioms_of_the_sample_spec() {
    let spec = sample_spec();
    assert!(tbox_parses(&spec));
    let axioms = tbox_axioms(&spec);
    let some = |p: &str, c: &str| ClassExpr::ObjectSomeValuesFrom(iri(p), Box::new(ClassExpr::Class(iri(c))));
    let expected = vec![
        Axiom::OntologyId(COGITO_ONT.to_string(), Some("https://wintermute.local/cogito/0.1.0".to_string())),
        Axiom::Import(BFO_IMPORT.to_string()),
        Axiom::DeclareObjectProperty(iri("dependsOn")),
        ann("dependsOn", RDFS_LABEL, "dependsOn"),
        Axiom::TransitiveObjectProperty(iri("dependsOn")),
        Axiom::DeclareObjectProperty(iri("registersOn")),
        ann("registersOn", RDFS_LABEL, "registersOn"),
        Axiom::DeclareObjectProperty(iri("healthchecks")),
        ann("healthchecks", RDFS_LABEL, "healthchecks"),
        Axiom::InverseObjectProperties(iri("healthchecks"), iri("healthcheckedBy")),
        Axiom::DeclareObjectProperty(iri("healthcheckedBy")),
        ann("healthcheckedBy", RDFS_LABEL, "healthcheckedBy"),
        Axiom::DeclareClass(iri("Daemon")),
        ann("Daemon", RDFS_LABEL, "Daemon"),
        ann("Daemon", RDFS_COMMENT, "A long-running process."),
        Axiom::SubClassOf(iri("Daemon"), ClassExpr::Class("http://purl.obolibrary.org/obo/BFO_0000015".to_string())),
        Axiom::DeclareClass(iri("Bus")),
        ann("Bus", RDFS_LABEL, "Bus"),
        Axiom::DeclareClass(iri("BusRegistrant")),
        ann("BusRegistrant", RDFS_LABEL, "BusRegistrant"),
        Axiom::EquivalentClasses(
            iri("BusRegistrant"),
            ClassExpr::ObjectIntersectionOf(vec![ClassExpr::Class(iri("Daemon")), some("registersOn", "Bus")]),
        ),
        Axiom::DeclareClass(iri("BusHealthcheck")),
        ann("BusHealthcheck", RDFS_LABEL, "BusHealthcheck"),
        Axiom::SubClassOf(iri("BusHealthcheck"), some("healthcheckedBy", "BusRegistrant")),
    ];
    assert_eq!(axioms, expected);
}

#[test]
fn tbox_parses_refuses_overlapping_conjunctions() {
    let mut spec = sample_spec();
    assert!(tbox_parses(&spec));
    spec.classes[0].subclass_of = vec!["A and and B".to_string()];
    assert!(!tbox_parses(&spec));
}

#[test]
fn build_writes_nonempty_document() {
    let bytes = build_with_horned(&sample_spec());
    assert!(!bytes.is_empty());
    let text = String::from_utf8(bytes).unwrap();
    assert!(text.starts_with("<?xml"));
    assert!(text.contains("<Ontology"));
}

#[test]
fn build_is_reproducible() {
    let first = build_with_horned(&sample_spec());
    let second = build_with_horned(&sample_spec());
    assert_eq!(first, second, "two builds produced different output");
}

#[test]
fn build_holds_transitive_and_bus_axioms() {
    let text = String::from_utf8(build_with_horned(&sample_spec())).unwrap();
    assert!(text.contains("TransitiveObjectProperty"));
    assert!(text.contains("BusHealthcheck"));
    assert!(text.contains("BusRegistrant"));
    assert!(text.contains("EquivalentClasses"));
    assert!(text.contains("ObjectSomeValuesFrom"));
    assert!(text.contains("InverseObjectProperties"));
}

#[test]
fn stats_of_a_built_document() {
    let bytes = build_with_horned(&sample_spec());
    let s = stats(&bytes).expect("stats");
    assert_eq!(s.classes, 4);
    assert_eq!(s.object_properties, 4);
    // The ontology identity, one import, 4 + 4 declarations, 8 labels, one
    // comment, one transitive, one inverse, three subclass axioms (one of
    // them the parent) and one equivalence: 24 components.
    assert_eq!(s.total_axioms, 24);
}

#[test]
fn stats_refuses_what_is_not_owl_xml() {
    assert!(stats(b"<Ontology").is_err());
}

#[test]
fn count_components_counts_each_kind() {
    let tags = vec![
        ComponentTag::Other,
        ComponentTag::DeclareClass,
        ComponentTag::DeclareObjectProperty,
        ComponentTag::DeclareClass,
        ComponentTag::Other,
    ];
    assert_eq!(
        count_components(&tags),
        TboxStats { classes: 2, object_properties: 1, total_axioms: 5 }
    );
    assert_eq!(
        count_components(&Vec::new()),
        TboxStats { classes: 0, object_properties: 0, total_axioms: 0 }
    );
}

#[test]
fn build_ignores_the_order_of_properties_and_classes() {
    let spec = sample_spec();
    let mut reordered = sample_spec();
    reordered.object_properties.reverse();
    reordered.classes.swap(0, 3);
    reordered.classes.swap(1, 2);
    assert_eq!(build_with_horned(&spec), build_with_horned(&reordered));
}

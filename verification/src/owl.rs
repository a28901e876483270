//! The OWL side of the TBox, through horned-owl: the ontology that holds the
//! axioms, the prefix mapping, and the OWL/XML writer and reader. Every item
//! here is trusted: its contract is read from horned-owl's source, not proved.

use std::rc::Rc;

use horned_owl::curie::PrefixMapping;
use horned_owl::io::owx::reader;
use horned_owl::model::{
    AnnotatedComponent, Annotation, AnnotationAssertion, AnnotationSubject, AnnotationValue, Build,
    ClassExpression, ComponentKind, DeclareClass, DeclareObjectProperty, EquivalentClasses, Import,
    InverseObjectProperties, Kinded, Literal, MutableOntology, ObjectPropertyExpression, OntologyID, RcStr,
    SubClassOf, TransitiveObjectProperty,
};
use horned_owl::ontology::component_mapped::ComponentMappedOntology;

use vstd::prelude::*;

use crate::class_expr::ClassExpr;
use crate::tbox::{Axiom, AxiomModel, ComponentTag};

verus! {

#[verifier::external_type_specification]
#[verifier::external_body]
#[verifier::reject_recursive_types(A)]
pub struct ExAnnotatedComponent<A>(AnnotatedComponent<A>);

#[verifier::external_type_specification]
#[verifier::external_body]
#[verifier::reject_recursive_types(A)]
pub struct ExClassExpression<A>(ClassExpression<A>);

#[verifier::external_type_specification]
#[verifier::external_body]
#[verifier::reject_recursive_types(A)]
#[verifier::reject_recursive_types(AA)]
pub struct ExComponentMappedOntology<A, AA>(ComponentMappedOntology<A, AA>);

#[verifier::external_type_specification]
#[verifier::external_body]
pub struct ExPrefixMapping(PrefixMapping);

/// The ontology type that the TBox is built in.
pub type Ontology = ComponentMappedOntology<RcStr, Rc<AnnotatedComponent<RcStr>>>;

/// The axioms that an ontology built here holds, as a set: horned-owl keeps
/// each kind of component in a `BTreeSet`, so inserting an axiom that is
/// already there changes nothing.
pub uninterp spec fn ontology_axioms(o: Ontology) -> Set<AxiomModel>;

/// The entries of a prefix mapping, prefix and IRI, in the order of its
/// `IndexMap`.
pub uninterp spec fn prefix_entries(m: PrefixMapping) -> Seq<(Seq<char>, Seq<char>)>;

/// The OWL/XML document that horned-owl's writer makes of an ontology holding
/// these axioms with these prefixes (and no default prefix). The writer walks the components kind by kind, each kind's set in
/// order, and the prefixes in insertion order, so the document depends on
/// nothing else.
pub uninterp spec fn owx_document(axioms: Set<AxiomModel>, prefixes: Seq<(Seq<char>, Seq<char>)>) -> Seq<u8>;

/// The kinds of the components that horned-owl's OWL/XML reader finds in a
/// document, in the order in which its component-mapped ontology holds them,
/// or `None` where it refuses the document.
pub uninterp spec fn owx_component_tags(owx: Seq<u8>) -> Option<Seq<ComponentTag>>;

/// `ComponentMappedOntology::new_rc`: a new ontology holds no axiom.
#[verifier::external_body]
fn new_ontology() -> (o: Ontology)
    ensures
        ontology_axioms(o) == Set::<AxiomModel>::empty(),
{
    ComponentMappedOntology::new_rc()
}

/// The library's class expression as horned-owl's: classes and object
/// properties by `Build::class` and `Build::object_property`, one for one.
/// It is a conversion that only the two insertion wrappers below use; nothing
/// is stated of its result, and those wrappers state what the ontology then
/// holds.
#[verifier::external_body]
fn horned_class_expression(e: &ClassExpr) -> ClassExpression<RcStr> {
    let b = Build::new_rc();
    match e {
        ClassExpr::Class(i) => ClassExpression::Class(b.class(i.as_str())),
        ClassExpr::ObjectSomeValuesFrom(p, f) => ClassExpression::ObjectSomeValuesFrom {
            ope: ObjectPropertyExpression::ObjectProperty(b.object_property(p.as_str())),
            bce: Box::new(horned_class_expression(f)),
        },
        ClassExpr::ObjectIntersectionOf(v) => ClassExpression::ObjectIntersectionOf(
            v.iter().map(horned_class_expression).collect(),
        ),
    }
}

/// `MutableOntology::insert` of an `OntologyID` with IRIs by `Build::iri`:
/// the ontology's identity joins its axioms.
#[verifier::external_body]
fn insert_ontology_id(o: &mut Ontology, iri: &str, version_iri: Option<&str>)
    ensures
        ontology_axioms(*final(o)) == ontology_axioms(*old(o)).insert(
            AxiomModel::OntologyId(iri@, match version_iri { Some(v) => Some(v@), None => None }),
        ),
{
    let b = Build::new_rc();
    let viri = match version_iri {
        Some(v) => Some(b.iri(v)),
        None => None,
    };
    o.insert(OntologyID { iri: Some(b.iri(iri)), viri });
}

/// `MutableOntology::insert` of an `Import` of an IRI by `Build::iri`.
#[verifier::external_body]
fn insert_import(o: &mut Ontology, iri: &str)
    ensures
        ontology_axioms(*final(o)) == ontology_axioms(*old(o)).insert(AxiomModel::Import(iri@)),
{
    o.insert(Import(Build::new_rc().iri(iri)));
}

/// `MutableOntology::insert` of a `DeclareObjectProperty` of an object
/// property by `Build::object_property`.
#[verifier::external_body]
fn insert_declare_object_property(o: &mut Ontology, iri: &str)
    ensures
        ontology_axioms(*final(o)) == ontology_axioms(*old(o)).insert(
            AxiomModel::DeclareObjectProperty(iri@),
        ),
{
    o.insert(DeclareObjectProperty(Build::new_rc().object_property(iri)));
}

/// `MutableOntology::insert` of an `AnnotationAssertion` on a subject IRI, by
/// an annotation property (`Build::annotation_property`), of a simple literal.
#[verifier::external_body]
fn insert_annotation(o: &mut Ontology, subject: &str, property: &str, literal: &str)
    ensures
        ontology_axioms(*final(o)) == ontology_axioms(*old(o)).insert(
            AxiomModel::AnnotationAssertion(subject@, property@, literal@),
        ),
{
    let b = Build::new_rc();
    let ann = Annotation {
        ap: b.annotation_property(property),
        av: AnnotationValue::Literal(Literal::Simple { literal: literal.to_string() }),
    };
    o.insert(AnnotationAssertion { subject: AnnotationSubject::IRI(b.iri(subject)), ann });
}

/// `MutableOntology::insert` of a `TransitiveObjectProperty` of an object
/// property by `Build::object_property`.
#[verifier::external_body]
fn insert_transitive(o: &mut Ontology, iri: &str)
    ensures
        ontology_axioms(*final(o)) == ontology_axioms(*old(o)).insert(
            AxiomModel::TransitiveObjectProperty(iri@),
        ),
{
    let op = Build::new_rc().object_property(iri);
    o.insert(TransitiveObjectProperty(ObjectPropertyExpression::ObjectProperty(op)));
}

/// `MutableOntology::insert` of `InverseObjectProperties` of two object
/// properties by `Build::object_property`.
#[verifier::external_body]
fn insert_inverse(o: &mut Ontology, iri: &str, inverse: &str)
    ensures
        ontology_axioms(*final(o)) == ontology_axioms(*old(o)).insert(
            AxiomModel::InverseObjectProperties(iri@, inverse@),
        ),
{
    let b = Build::new_rc();
    o.insert(InverseObjectProperties(b.object_property(iri), b.object_property(inverse)));
}

/// `MutableOntology::insert` of a `DeclareClass` of a class by `Build::class`.
#[verifier::external_body]
fn insert_declare_class(o: &mut Ontology, iri: &str)
    ensures
        ontology_axioms(*final(o)) == ontology_axioms(*old(o)).insert(AxiomModel::DeclareClass(iri@)),
{
    o.insert(DeclareClass(Build::new_rc().class(iri)));
}

/// `MutableOntology::insert` of `SubClassOf` with the named class (by
/// `Build::class`) as subclass and the class expression as superclass.
#[verifier::external_body]
fn insert_sub_class_of(o: &mut Ontology, sub: &str, sup: &ClassExpr)
    ensures
        ontology_axioms(*final(o)) == ontology_axioms(*old(o)).insert(
            AxiomModel::SubClassOf(sub@, sup.model()),
        ),
{
    let sub = ClassExpression::Class(Build::new_rc().class(sub));
    o.insert(SubClassOf { sup: horned_class_expression(sup), sub });
}

/// `MutableOntology::insert` of `EquivalentClasses` of the named class (by
/// `Build::class`) and the class expression, in that order.
#[verifier::external_body]
fn insert_equivalent_classes(o: &mut Ontology, class: &str, ce: &ClassExpr)
    ensures
        ontology_axioms(*final(o)) == ontology_axioms(*old(o)).insert(
            AxiomModel::EquivalentClasses(class@, ce.model()),
        ),
{
    let class = ClassExpression::Class(Build::new_rc().class(class));
    o.insert(EquivalentClasses(vec![class, horned_class_expression(ce)]));
}

/// `PrefixMapping::default`: a new mapping has no entry.
#[verifier::external_body]
fn new_prefix_mapping() -> (m: PrefixMapping)
    ensures
        prefix_entries(m) == Seq::<(Seq<char>, Seq<char>)>::empty(),
{
    PrefixMapping::default()
}

/// The entries of an `IndexMap` after inserting `(key, value)`: an existing
/// key keeps its place and takes the new value; a new key goes last.
pub open spec fn entries_insert(es: Seq<(Seq<char>, Seq<char>)>, key: Seq<char>, value: Seq<char>) -> Seq<(Seq<char>, Seq<char>)> {
    if exists|i: int| 0 <= i < es.len() && (#[trigger] es[i]).0 == key {
        let i = choose|i: int| 0 <= i < es.len() && (#[trigger] es[i]).0 == key;
        es.update(i, (key, value))
    } else {
        es.push((key, value))
    }
}

/// `PrefixMapping::add_prefix`: refuses the reserved prefix `_` and changes
/// nothing; else inserts the entry into its `IndexMap`.
#[verifier::external_body]
fn add_prefix(m: &mut PrefixMapping, prefix: &str, iri: &str) -> (added: bool)
    ensures
        added == (prefix@ != seq!['_']),
        added ==> prefix_entries(*final(m)) == entries_insert(prefix_entries(*old(m)), prefix@, iri@),
        !added ==> prefix_entries(*final(m)) == prefix_entries(*old(m)),
{
    m.add_prefix(prefix, iri).is_ok()
}

/// `horned_owl::io::owx::writer::write` into a byte vector: the document is
/// the one named by [`owx_document`]. The writer fails only where writing
/// its output fails, which writing into a `Vec` never does, so the result is
/// `Ok`. Every ontology and mapping that reaches it sits in an
/// [`OwlDocument`], so it holds only modelled axioms and no default prefix.
#[verifier::external_body]
fn write_owx(o: &Ontology, m: &PrefixMapping) -> (r: Result<Vec<u8>, String>)
    ensures
        r is Ok,
        r matches Ok(bytes) ==> owx_document(ontology_axioms(*o), prefix_entries(*m)) == bytes@,
{
    let mut buf = Vec::new();
    horned_owl::io::owx::writer::write(&mut buf, o, Some(m)).map_err(|e| e.to_string())?;
    Ok(buf)
}

/// An ontology together with the prefixes to write it with. Its fields are
/// private to this module, so every ontology and mapping that the writer sees
/// was built by the functions here: it holds only axioms of [`AxiomModel`] and
/// has no default prefix.
pub struct OwlDocument {
    ontology: Ontology,
    prefixes: PrefixMapping,
}

impl OwlDocument {
    /// The axioms that the document's ontology holds.
    pub closed spec fn axioms(&self) -> Set<AxiomModel> {
        ontology_axioms(self.ontology)
    }

    /// The document's prefixes, in insertion order.
    pub closed spec fn prefixes(&self) -> Seq<(Seq<char>, Seq<char>)> {
        prefix_entries(self.prefixes)
    }

    /// An empty ontology with no prefix.
    pub fn new() -> (d: Self)
        ensures
            d.axioms() == Set::<AxiomModel>::empty(),
            d.prefixes() == Seq::<(Seq<char>, Seq<char>)>::empty(),
    {
        OwlDocument { ontology: new_ontology(), prefixes: new_prefix_mapping() }
    }

    /// Insert one axiom into the ontology.
    pub fn insert(&mut self, a: &Axiom)
        ensures
            final(self).axioms() == old(self).axioms().insert(a.model()),
            final(self).prefixes() == old(self).prefixes(),
    {
        let o = &mut self.ontology;
        match a {
            Axiom::OntologyId(iri, viri) => {
                let v = match viri {
                    Some(v) => Some(v.as_str()),
                    None => None,
                };
                insert_ontology_id(o, iri.as_str(), v);
            },
            Axiom::Import(iri) => insert_import(o, iri.as_str()),
            Axiom::DeclareObjectProperty(iri) => insert_declare_object_property(o, iri.as_str()),
            Axiom::AnnotationAssertion(subject, property, literal) => insert_annotation(
                o,
                subject.as_str(),
                property.as_str(),
                literal.as_str(),
            ),
            Axiom::TransitiveObjectProperty(iri) => insert_transitive(o, iri.as_str()),
            Axiom::InverseObjectProperties(iri, inv) => insert_inverse(o, iri.as_str(), inv.as_str()),
            Axiom::DeclareClass(iri) => insert_declare_class(o, iri.as_str()),
            Axiom::SubClassOf(sub, sup) => insert_sub_class_of(o, sub.as_str(), sup),
            Axiom::EquivalentClasses(class, ce) => insert_equivalent_classes(o, class.as_str(), ce),
        }
    }

    /// Add a prefix: the reserved prefix `_` is refused and changes nothing;
    /// any other is inserted into the prefixes.
    pub fn add_prefix(&mut self, prefix: &str, iri: &str) -> (added: bool)
        ensures
            added == (prefix@ != seq!['_']),
            added ==> final(self).prefixes() == entries_insert(old(self).prefixes(), prefix@, iri@),
            !added ==> final(self).prefixes() == old(self).prefixes(),
            final(self).axioms() == old(self).axioms(),
    {
        add_prefix(&mut self.prefixes, prefix, iri)
    }

    /// The OWL/XML document of the ontology with its prefixes.
    pub fn write(&self) -> (bytes: Vec<u8>)
        ensures
            bytes@ == owx_document(self.axioms(), self.prefixes()),
    {
        match write_owx(&self.ontology, &self.prefixes) {
            Ok(bytes) => bytes,
            Err(_) => {
                proof {
                    assert(false);
                }
                Vec::new()
            },
        }
    }
}

/// `horned_owl::io::owx::reader::read` into a component-mapped ontology, and
/// the kind of each component it holds (`ComponentMappedOntology::iter`,
/// `AnnotatedComponent::kind`), told apart as class declarations, object
/// property declarations and the rest. The message of a failure is not
/// stated, nor which documents the reader accepts.
#[verifier::external_body]
pub(crate) fn read_owx_tags(owx: &[u8]) -> (r: Result<Vec<ComponentTag>, String>)
    ensures
        r matches Ok(tags) ==> owx_component_tags(owx@) == Some(tags@),
        r is Err ==> owx_component_tags(owx@) is None,
{
    let mut input = owx;
    let read: Result<(Ontology, PrefixMapping), _> = reader::read(&mut input, Default::default());
    let (ont, _) = read.map_err(|e| e.to_string())?;
    Ok(ont.iter().map(|c| match c.kind() {
        ComponentKind::DeclareClass => ComponentTag::DeclareClass,
        ComponentKind::DeclareObjectProperty => ComponentTag::DeclareObjectProperty,
        _ => ComponentTag::Other,
    }).collect())
}

} // verus!

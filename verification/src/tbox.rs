//! The TBox that a spec denotes: its axioms, the OWL/XML document built from
//! them, and the counts that summarise a built document.

use vstd::prelude::*;

use crate::class_expr::{class_expression_parses, parse_ce, parse_class_expression, ClassExpr, ClassExprModel};
use crate::owl::{entries_insert, owx_component_tags, owx_document, read_owx_tags, OwlDocument};
use crate::spec::{opt_view, ClassDef, CogitoSpec, ObjectPropertyDef, COGITO_ONT};

verus! {

/// IRI of the `rdfs:label` annotation property.
pub const RDFS_LABEL: &'static str = "http://www.w3.org/2000/01/rdf-schema#label";

/// IRI of the `rdfs:comment` annotation property.
pub const RDFS_COMMENT: &'static str = "http://www.w3.org/2000/01/rdf-schema#comment";

/// IRI of `owl:TransitiveProperty`.
pub const OWL_TRANSITIVE: &'static str = "http://www.w3.org/2002/07/owl#TransitiveProperty";

/// One axiom (or the ontology's identity) of the TBox, with every entity
/// named by its IRI.
#[derive(Debug, PartialEq, Eq)]
pub enum Axiom {
    /// The ontology IRI and its optional version IRI.
    OntologyId(String, Option<String>),
    /// `owl:imports` of an ontology IRI.
    Import(String),
    /// Declaration of an object property.
    DeclareObjectProperty(String),
    /// Annotation of a subject IRI by an annotation property with a plain literal.
    AnnotationAssertion(String, String, String),
    /// The object property is transitive.
    TransitiveObjectProperty(String),
    /// The two object properties are inverses of each other.
    InverseObjectProperties(String, String),
    /// Declaration of a class.
    DeclareClass(String),
    /// The named class is a subclass of the class expression.
    SubClassOf(String, ClassExpr),
    /// The named class is equivalent to the class expression.
    EquivalentClasses(String, ClassExpr),
}

/// [`Axiom`] with its strings and class expressions taken by their models.
pub enum AxiomModel {
    OntologyId(Seq<char>, Option<Seq<char>>),
    Import(Seq<char>),
    DeclareObjectProperty(Seq<char>),
    AnnotationAssertion(Seq<char>, Seq<char>, Seq<char>),
    TransitiveObjectProperty(Seq<char>),
    InverseObjectProperties(Seq<char>, Seq<char>),
    DeclareClass(Seq<char>),
    SubClassOf(Seq<char>, ClassExprModel),
    EquivalentClasses(Seq<char>, ClassExprModel),
}

impl Axiom {
    pub open spec fn model(self) -> AxiomModel {
        match self {
            Axiom::OntologyId(i, v) => AxiomModel::OntologyId(i@, opt_view(v)),
            Axiom::Import(i) => AxiomModel::Import(i@),
            Axiom::DeclareObjectProperty(i) => AxiomModel::DeclareObjectProperty(i@),
            Axiom::AnnotationAssertion(s, p, l) => AxiomModel::AnnotationAssertion(s@, p@, l@),
            Axiom::TransitiveObjectProperty(i) => AxiomModel::TransitiveObjectProperty(i@),
            Axiom::InverseObjectProperties(i, j) => AxiomModel::InverseObjectProperties(i@, j@),
            Axiom::DeclareClass(i) => AxiomModel::DeclareClass(i@),
            Axiom::SubClassOf(i, e) => AxiomModel::SubClassOf(i@, e.model()),
            Axiom::EquivalentClasses(i, e) => AxiomModel::EquivalentClasses(i@, e.model()),
        }
    }
}

/// The models of a sequence of axioms.
pub open spec fn axiom_models(s: Seq<Axiom>) -> Seq<AxiomModel> {
    s.map_values(|a: Axiom| a.model())
}

/// The ontology IRI: the spec's, else the cogito ontology's.
pub open spec fn ontology_iri(s: &CogitoSpec) -> Seq<char> {
    match s.iri {
        Some(i) => i@,
        None => COGITO_ONT@,
    }
}

/// The imported ontology IRIs (none where the spec names none).
pub open spec fn import_iris(s: &CogitoSpec) -> Seq<String> {
    match s.imports {
        Some(v) => v@,
        None => Seq::empty(),
    }
}

/// The axioms of one object property: its declaration and label, whether it
/// is transitive, and its inverse.
pub open spec fn property_axioms(op: ObjectPropertyDef) -> Seq<AxiomModel> {
    seq![
        AxiomModel::DeclareObjectProperty(op.iri@),
        AxiomModel::AnnotationAssertion(op.iri@, RDFS_LABEL@, op.label@),
    ] + (if op.transitive {
        seq![AxiomModel::TransitiveObjectProperty(op.iri@)]
    } else {
        Seq::empty()
    }) + match op.inverse_of {
        Some(inv) => seq![AxiomModel::InverseObjectProperties(op.iri@, inv@)],
        None => Seq::empty(),
    }
}

/// The class expression that a string of the spec denotes (where it parses).
pub open spec fn class_expression_of(r: String) -> ClassExprModel {
    parse_ce(r@).unwrap()
}

/// The axioms that open a class: its declaration and label, its definition
/// as a comment, and its effective parent.
pub open spec fn class_head_axioms(c: ClassDef) -> Seq<AxiomModel> {
    seq![
        AxiomModel::DeclareClass(c.iri@),
        AxiomModel::AnnotationAssertion(c.iri@, RDFS_LABEL@, c.label@),
    ] + match c.definition {
        Some(d) => seq![AxiomModel::AnnotationAssertion(c.iri@, RDFS_COMMENT@, d@)],
        None => Seq::empty(),
    } + match c.spec_effective_parent() {
        Some(p) => seq![AxiomModel::SubClassOf(c.iri@, ClassExprModel::Class(p))],
        None => Seq::empty(),
    }
}

/// The subclass axioms of a class's `subclass_of` restrictions.
pub open spec fn class_restriction_axioms(c: ClassDef) -> Seq<AxiomModel> {
    c.subclass_of@.map_values(|r: String| AxiomModel::SubClassOf(c.iri@, class_expression_of(r)))
}

/// The equivalence axiom of a class, where it has one.
pub open spec fn class_equivalence_axioms(c: ClassDef) -> Seq<AxiomModel> {
    match c.equivalent_to {
        Some(e) => seq![AxiomModel::EquivalentClasses(c.iri@, class_expression_of(e))],
        None => Seq::empty(),
    }
}

/// The axioms of one class: its declaration and label, its definition as a
/// comment, its effective parent, its `subclass_of` restrictions and its
/// equivalent class expression.
pub open spec fn class_axioms(c: ClassDef) -> Seq<AxiomModel> {
    class_head_axioms(c) + class_restriction_axioms(c) + class_equivalence_axioms(c)
}

/// The axioms of a sequence of object properties, in order.
pub open spec fn properties_axioms(ops: Seq<ObjectPropertyDef>) -> Seq<AxiomModel>
    decreases ops.len(),
{
    if ops.len() == 0 {
        Seq::empty()
    } else {
        properties_axioms(ops.drop_last()) + property_axioms(ops.last())
    }
}

/// The axioms of a sequence of classes, in order.
pub open spec fn classes_axioms(cs: Seq<ClassDef>) -> Seq<AxiomModel>
    decreases cs.len(),
{
    if cs.len() == 0 {
        Seq::empty()
    } else {
        classes_axioms(cs.drop_last()) + class_axioms(cs.last())
    }
}

/// Every class expression string of a class parses.
pub open spec fn class_parses(c: ClassDef) -> bool {
    &&& forall|j: int| 0 <= j < c.subclass_of.len() ==> parse_ce(#[trigger] c.subclass_of@[j]@) is Some
    &&& c.equivalent_to matches Some(e) ==> parse_ce(e@) is Some
}

/// Every class expression string of the spec parses.
pub open spec fn spec_tbox_parses(s: &CogitoSpec) -> bool {
    forall|i: int| 0 <= i < s.classes.len() ==> class_parses(#[trigger] s.classes@[i])
}

/// The axioms of the TBox, in the order in which they are built: the
/// ontology's identity, its imports, the object properties' axioms, then the
/// classes' axioms.
pub open spec fn spec_tbox_axioms(s: &CogitoSpec) -> Seq<AxiomModel> {
    seq![AxiomModel::OntologyId(ontology_iri(s), opt_view(s.version_iri))] + import_iris(s).map_values(
        |i: String| AxiomModel::Import(i@),
    ) + properties_axioms(s.object_properties@) + classes_axioms(s.classes@)
}

fn property_axioms_into(op: &ObjectPropertyDef, out: &mut Vec<Axiom>)
    ensures
        axiom_models(final(out)@) == axiom_models(old(out)@) + property_axioms(*op),
{
    let ghost start = old(out)@;
    out.push(Axiom::DeclareObjectProperty(op.iri.clone()));
    out.push(Axiom::AnnotationAssertion(op.iri.clone(), String::from_str(RDFS_LABEL), op.label.clone()));
    if op.transitive {
        out.push(Axiom::TransitiveObjectProperty(op.iri.clone()));
    }
    match &op.inverse_of {
        Some(inv) => out.push(Axiom::InverseObjectProperties(op.iri.clone(), inv.clone())),
        None => {},
    }
    assert(axiom_models(out@) =~= axiom_models(start) + property_axioms(*op));
}

fn class_axioms_into(c: &ClassDef, out: &mut Vec<Axiom>)
    requires
        class_parses(*c),
    ensures
        axiom_models(final(out)@) == axiom_models(old(out)@) + class_axioms(*c),
{
    let ghost start = axiom_models(old(out)@);
    out.push(Axiom::DeclareClass(c.iri.clone()));
    out.push(Axiom::AnnotationAssertion(c.iri.clone(), String::from_str(RDFS_LABEL), c.label.clone()));
    match &c.definition {
        Some(d) => out.push(Axiom::AnnotationAssertion(c.iri.clone(), String::from_str(RDFS_COMMENT), d.clone())),
        None => {},
    }
    match c.effective_parent() {
        Some(p) => out.push(Axiom::SubClassOf(c.iri.clone(), ClassExpr::Class(String::from_str(p)))),
        None => {},
    }
    assert(axiom_models(out@) =~= start + class_head_axioms(*c));
    let ghost before_restrictions = axiom_models(out@);
    let mut j: usize = 0;
    while j < c.subclass_of.len()
        invariant
            class_parses(*c),
            j <= c.subclass_of.len(),
            axiom_models(out@) == before_restrictions + c.subclass_of@.take(j as int).map_values(
                |r: String| AxiomModel::SubClassOf(c.iri@, class_expression_of(r)),
            ),
        decreases c.subclass_of.len() - j,
    {
        let ghost prev = out@;
        let e = parse_class_expression(c.subclass_of[j].as_str());
        out.push(Axiom::SubClassOf(c.iri.clone(), e));
        assert(c.subclass_of@.take(j + 1) =~= c.subclass_of@.take(j as int).push(c.subclass_of@[j as int]));
        assert(axiom_models(out@) =~= axiom_models(prev).push(out@.last().model()));
        j += 1;
    }
    assert(c.subclass_of@.take(j as int) =~= c.subclass_of@);
    assert(axiom_models(out@) =~= start + class_head_axioms(*c) + class_restriction_axioms(*c));
    let ghost restricted = axiom_models(out@);
    match &c.equivalent_to {
        Some(e) => {
            let ce = parse_class_expression(e.as_str());
            out.push(Axiom::EquivalentClasses(c.iri.clone(), ce));
        },
        None => {},
    }
    assert(axiom_models(out@) =~= restricted + class_equivalence_axioms(*c));
    assert(axiom_models(out@) =~= start + class_axioms(*c));
}

/// The axioms of the TBox that the spec denotes, in the order in which they
/// are built.
pub fn tbox_axioms(spec: &CogitoSpec) -> (r: Vec<Axiom>)
    requires
        spec_tbox_parses(spec),
    ensures
        axiom_models(r@) == spec_tbox_axioms(spec),
{
    let mut out: Vec<Axiom> = Vec::new();
    let ont_iri = match &spec.iri {
        Some(i) => i.clone(),
        None => String::from_str(COGITO_ONT),
    };
    let viri = match &spec.version_iri {
        Some(v) => Some(v.clone()),
        None => None,
    };
    out.push(Axiom::OntologyId(ont_iri, viri));
    assert(axiom_models(out@) =~= seq![AxiomModel::OntologyId(ontology_iri(spec), opt_view(spec.version_iri))]);
    let ghost head = axiom_models(out@);
    match &spec.imports {
        Some(imports) => {
            let mut j: usize = 0;
            while j < imports.len()
                invariant
                    j <= imports.len(),
                    axiom_models(out@) == head + imports@.take(j as int).map_values(
                        |i: String| AxiomModel::Import(i@),
                    ),
                decreases imports.len() - j,
            {
                let ghost prev = out@;
                out.push(Axiom::Import(imports[j].clone()));
                assert(imports@.take(j + 1) =~= imports@.take(j as int).push(imports@[j as int]));
                assert(axiom_models(out@) =~= axiom_models(prev).push(out@.last().model()));
                j += 1;
            }
            assert(imports@.take(j as int) =~= imports@);
        },
        None => {
            assert(axiom_models(out@) =~= head + import_iris(spec).map_values(|i: String| AxiomModel::Import(i@)));
        },
    }
    let ghost after_imports = axiom_models(out@);
    let mut i: usize = 0;
    while i < spec.object_properties.len()
        invariant
            i <= spec.object_properties.len(),
            axiom_models(out@) == after_imports + properties_axioms(spec.object_properties@.take(i as int)),
        decreases spec.object_properties.len() - i,
    {
        property_axioms_into(&spec.object_properties[i], &mut out);
        proof {
            let ops = spec.object_properties@;
            assert(ops.take(i + 1).drop_last() =~= ops.take(i as int));
        }
        i += 1;
    }
    assert(spec.object_properties@.take(i as int) =~= spec.object_properties@);
    let ghost after_properties = axiom_models(out@);
    let mut k: usize = 0;
    while k < spec.classes.len()
        invariant
            spec_tbox_parses(spec),
            k <= spec.classes.len(),
            axiom_models(out@) == after_properties + classes_axioms(spec.classes@.take(k as int)),
        decreases spec.classes.len() - k,
    {
        assert(class_parses(spec.classes@[k as int]));
        class_axioms_into(&spec.classes[k], &mut out);
        proof {
            let cs = spec.classes@;
            assert(cs.take(k + 1).drop_last() =~= cs.take(k as int));
        }
        k += 1;
    }
    assert(spec.classes@.take(k as int) =~= spec.classes@);
    out
}


fn class_parses_exec(c: &ClassDef) -> (r: bool)
    ensures
        r == class_parses(*c),
{
    let mut j: usize = 0;
    while j < c.subclass_of.len()
        invariant
            j <= c.subclass_of.len(),
            forall|k: int| 0 <= k < j ==> parse_ce(#[trigger] c.subclass_of@[k]@) is Some,
        decreases c.subclass_of.len() - j,
    {
        if !class_expression_parses(c.subclass_of[j].as_str()) {
            return false;
        }
        j += 1;
    }
    match &c.equivalent_to {
        Some(e) => class_expression_parses(e.as_str()),
        None => true,
    }
}

/// Whether every class expression string of the spec parses, which building
/// its TBox needs.
pub fn tbox_parses(spec: &CogitoSpec) -> (r: bool)
    ensures
        r == spec_tbox_parses(spec),
{
    let mut i: usize = 0;
    while i < spec.classes.len()
        invariant
            i <= spec.classes.len(),
            forall|k: int| 0 <= k < i ==> class_parses(#[trigger] spec.classes@[k]),
        decreases spec.classes.len() - i,
    {
        if !class_parses_exec(&spec.classes[i]) {
            return false;
        }
        i += 1;
    }
    true
}


/// The kind of a component of an OWL ontology, as the TBox statistics tell
/// kinds apart.
#[derive(Debug, Clone, Copy, PartialEq, Eq, Structural)]
pub enum ComponentTag {
    DeclareClass,
    DeclareObjectProperty,
    Other,
}


proof fn lemma_push_to_set<A>(s: Seq<A>, a: A)
    ensures
        s.push(a).to_set() == s.to_set().insert(a),
{
    let p = s.push(a);
    assert forall|x: A| p.contains(x) <==> s.to_set().insert(a).contains(x) by {
        if p.contains(x) {
            let k = choose|k: int| 0 <= k < p.len() && p[k] == x;
            if k < s.len() {
                assert(s[k] == x);
            }
        }
        if s.contains(x) {
            let k = choose|k: int| 0 <= k < s.len() && s[k] == x;
            assert(p[k] == x);
        }
        if x == a {
            assert(p[s.len() as int] == a);
        }
    }
    assert(p.to_set() =~= s.to_set().insert(a));
}

/// An ontology holding exactly the given axioms, with no prefix yet.
pub fn build_ontology(axioms: &Vec<Axiom>) -> (d: OwlDocument)
    ensures
        d.axioms() == axiom_models(axioms@).to_set(),
        d.prefixes() == Seq::<(Seq<char>, Seq<char>)>::empty(),
{
    let mut d = OwlDocument::new();
    let ghost ms = axiom_models(axioms@);
    assert(ms.take(0).to_set() =~= Set::<AxiomModel>::empty());
    let mut i: usize = 0;
    while i < axioms.len()
        invariant
            i <= axioms.len(),
            ms == axiom_models(axioms@),
            d.axioms() == ms.take(i as int).to_set(),
            d.prefixes() == Seq::<(Seq<char>, Seq<char>)>::empty(),
        decreases axioms.len() - i,
    {
        d.insert(&axioms[i]);
        proof {
            assert(ms.take(i + 1) =~= ms.take(i as int).push(ms[i as int]));
            lemma_push_to_set(ms.take(i as int), ms[i as int]);
        }
        i += 1;
    }
    assert(ms.take(i as int) =~= ms);
    d
}

/// The prefixes that the OWL/XML document declares, added in this order:
/// `owl`, `rdf`, `rdfs`, `xsd`, `cogito`, `obo`.
pub open spec fn cogito_prefixes() -> Seq<(Seq<char>, Seq<char>)> {
    let e0 = Seq::<(Seq<char>, Seq<char>)>::empty();
    let e1 = entries_insert(e0, "owl"@, "http://www.w3.org/2002/07/owl#"@);
    let e2 = entries_insert(e1, "rdf"@, "http://www.w3.org/1999/02/22-rdf-syntax-ns#"@);
    let e3 = entries_insert(e2, "rdfs"@, "http://www.w3.org/2000/01/rdf-schema#"@);
    let e4 = entries_insert(e3, "xsd"@, "http://www.w3.org/2001/XMLSchema#"@);
    let e5 = entries_insert(e4, "cogito"@, crate::spec::COGITO_NS@);
    entries_insert(e5, "obo"@, "http://purl.obolibrary.org/obo/"@)
}

/// Add the prefixes of the OWL/XML document to a document that has none.
pub fn add_cogito_prefixes(d: &mut OwlDocument)
    requires
        old(d).prefixes() == Seq::<(Seq<char>, Seq<char>)>::empty(),
    ensures
        final(d).prefixes() == cogito_prefixes(),
        final(d).axioms() == old(d).axioms(),
{
    proof {
        reveal_strlit("owl");
        reveal_strlit("rdf");
        reveal_strlit("rdfs");
        reveal_strlit("xsd");
        reveal_strlit("cogito");
        reveal_strlit("obo");
    }
    assert("owl"@.len() == 3 && "rdf"@.len() == 3 && "rdfs"@.len() == 4);
    assert("xsd"@.len() == 3 && "cogito"@.len() == 6 && "obo"@.len() == 3);
    d.add_prefix("owl", "http://www.w3.org/2002/07/owl#");
    d.add_prefix("rdf", "http://www.w3.org/1999/02/22-rdf-syntax-ns#");
    d.add_prefix("rdfs", "http://www.w3.org/2000/01/rdf-schema#");
    d.add_prefix("xsd", "http://www.w3.org/2001/XMLSchema#");
    d.add_prefix("cogito", crate::spec::COGITO_NS);
    d.add_prefix("obo", "http://purl.obolibrary.org/obo/");
}

/// The OWL/XML document of the TBox that a spec denotes.
pub open spec fn tbox_document(spec: &CogitoSpec) -> Seq<u8> {
    owx_document(spec_tbox_axioms(spec).to_set(), cogito_prefixes())
}

/// Build the TBox of the spec as an OWL/XML document: an ontology holding the
/// spec's axioms, written with the cogito prefixes.
pub fn build_with_horned(spec: &CogitoSpec) -> (bytes: Vec<u8>)
    requires
        spec_tbox_parses(spec),
    ensures
        bytes@ == tbox_document(spec),
{
    let axioms = tbox_axioms(spec);
    let mut document = build_ontology(&axioms);
    add_cogito_prefixes(&mut document);
    document.write()
}

/// How many of the tags are `tag`.
pub open spec fn count_tag(tags: Seq<ComponentTag>, tag: ComponentTag) -> nat
    decreases tags.len(),
{
    if tags.len() == 0 {
        0
    } else {
        count_tag(tags.drop_last(), tag) + if tags.last() == tag {
            1nat
        } else {
            0nat
        }
    }
}

/// Class, object property and component counts of a built ontology.
#[derive(Debug, Clone, Copy, PartialEq, Eq, Structural)]
pub struct TboxStats {
    pub classes: usize,
    pub object_properties: usize,
    pub total_axioms: usize,
}

/// The counts of a sequence of component kinds.
pub open spec fn spec_stats(tags: Seq<ComponentTag>) -> TboxStats {
    TboxStats {
        classes: count_tag(tags, ComponentTag::DeclareClass) as usize,
        object_properties: count_tag(tags, ComponentTag::DeclareObjectProperty) as usize,
        total_axioms: tags.len() as usize,
    }
}

proof fn lemma_count_tag_bound(tags: Seq<ComponentTag>, tag: ComponentTag)
    ensures
        count_tag(tags, tag) <= tags.len(),
    decreases tags.len(),
{
    if tags.len() > 0 {
        lemma_count_tag_bound(tags.drop_last(), tag);
    }
}

/// Count the class declarations, the object property declarations and all the
/// components of an ontology, given the kind of each component.
pub fn count_components(tags: &Vec<ComponentTag>) -> (s: TboxStats)
    ensures
        s == spec_stats(tags@),
        s.classes == count_tag(tags@, ComponentTag::DeclareClass),
        s.object_properties == count_tag(tags@, ComponentTag::DeclareObjectProperty),
        s.total_axioms == tags@.len(),
{
    let mut classes: usize = 0;
    let mut object_properties: usize = 0;
    let mut i: usize = 0;
    while i < tags.len()
        invariant
            i <= tags.len(),
            classes == count_tag(tags@.take(i as int), ComponentTag::DeclareClass),
            object_properties == count_tag(tags@.take(i as int), ComponentTag::DeclareObjectProperty),
        decreases tags.len() - i,
    {
        proof {
            assert(tags@.take(i + 1).drop_last() =~= tags@.take(i as int));
            lemma_count_tag_bound(tags@.take(i as int), ComponentTag::DeclareClass);
            lemma_count_tag_bound(tags@.take(i as int), ComponentTag::DeclareObjectProperty);
        }
        match tags[i] {
            ComponentTag::DeclareClass => classes += 1,
            ComponentTag::DeclareObjectProperty => object_properties += 1,
            ComponentTag::Other => {},
        }
        i += 1;
    }
    assert(tags@.take(i as int) =~= tags@);
    TboxStats { classes, object_properties, total_axioms: tags.len() }
}

/// Class, object property and component counts of a built OWL/XML document;
/// `Err` with the reader's message where the reader refuses the document.
pub fn stats(owx: &[u8]) -> (r: Result<TboxStats, String>)
    ensures
        r is Ok <==> owx_component_tags(owx@) is Some,
        r matches Ok(s) ==> s == spec_stats(owx_component_tags(owx@).unwrap()),
{
    match read_owx_tags(owx) {
        Ok(tags) => Ok(count_components(&tags)),
        Err(e) => Err(e),
    }
}

} // verus!

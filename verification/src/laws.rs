//! Laws of the TBox that relate the spec to the axioms built from it.

use vstd::prelude::*;

use crate::class_expr::{
    and_kw, conj_split, first_top, is_first_top, lemma_conj_parts_len, lemma_conj_split_joins,
    lemma_depth_concat, lemma_first_top, paren_depth, parse_ce, parse_pieces, some_kw, split_kw,
    strip_parens_spec, top_at, ClassExprModel,
};
use crate::text::{lemma_trim_idempotent, lemma_trim_shrinks, trim, trim_end, trim_start};
use crate::spec::{
    index_hit, is_index_permutation, opt_view, ClassDef, CogitoSpec, ObjectPropertyDef, COGITO_ONT,
};
use crate::tbox::{
    class_axioms, class_equivalence_axioms, class_expression_of, class_head_axioms,
    class_restriction_axioms, classes_axioms, import_iris, ontology_iri, properties_axioms,
    property_axioms, spec_tbox_axioms, tbox_document, AxiomModel, RDFS_COMMENT, RDFS_LABEL,
};

verus! {

/// Whether an axiom declares a class.
pub open spec fn is_class_declaration(a: AxiomModel) -> bool {
    a is DeclareClass
}

/// Whether an axiom declares an object property.
pub open spec fn is_property_declaration(a: AxiomModel) -> bool {
    a is DeclareObjectProperty
}

/// How many axioms of a sequence declare a class.
pub open spec fn class_declaration_count(s: Seq<AxiomModel>) -> nat
    decreases s.len(),
{
    if s.len() == 0 {
        0
    } else {
        class_declaration_count(s.drop_last()) + if is_class_declaration(s.last()) {
            1nat
        } else {
            0nat
        }
    }
}

/// How many axioms of a sequence declare an object property.
pub open spec fn property_declaration_count(s: Seq<AxiomModel>) -> nat
    decreases s.len(),
{
    if s.len() == 0 {
        0
    } else {
        property_declaration_count(s.drop_last()) + if is_property_declaration(s.last()) {
            1nat
        } else {
            0nat
        }
    }
}

proof fn lemma_counts_concat(a: Seq<AxiomModel>, b: Seq<AxiomModel>)
    ensures
        class_declaration_count(a + b) == class_declaration_count(a) + class_declaration_count(b),
        property_declaration_count(a + b) == property_declaration_count(a)
            + property_declaration_count(b),
    decreases b.len(),
{
    if b.len() == 0 {
        assert(a + b =~= a);
    } else {
        lemma_counts_concat(a, b.drop_last());
        assert((a + b).drop_last() =~= a + b.drop_last());
    }
}

proof fn lemma_counts_of_no_declarations(s: Seq<AxiomModel>)
    requires
        forall|i: int| 0 <= i < s.len() ==> !is_class_declaration(#[trigger] s[i])
            && !is_property_declaration(s[i]),
    ensures
        class_declaration_count(s) == 0,
        property_declaration_count(s) == 0,
    decreases s.len(),
{
    if s.len() > 0 {
        lemma_counts_of_no_declarations(s.drop_last());
    }
}

proof fn lemma_property_axioms_counts(op: ObjectPropertyDef)
    ensures
        class_declaration_count(property_axioms(op)) == 0,
        property_declaration_count(property_axioms(op)) == 1,
{
    let head = seq![
        AxiomModel::DeclareObjectProperty(op.iri@),
        AxiomModel::AnnotationAssertion(op.iri@, RDFS_LABEL@, op.label@),
    ];
    let t = if op.transitive {
        seq![AxiomModel::TransitiveObjectProperty(op.iri@)]
    } else {
        Seq::empty()
    };
    let inv = match op.inverse_of {
        Some(i) => seq![AxiomModel::InverseObjectProperties(op.iri@, i@)],
        None => Seq::empty(),
    };
    assert(head.drop_last() =~= seq![AxiomModel::DeclareObjectProperty(op.iri@)]);
    assert(head.drop_last().drop_last() =~= Seq::<AxiomModel>::empty());
    assert(class_declaration_count(head.drop_last().drop_last()) == 0);
    assert(class_declaration_count(head.drop_last()) == 0);
    assert(class_declaration_count(head) == 0);
    assert(property_declaration_count(head.drop_last().drop_last()) == 0);
    assert(property_declaration_count(head.drop_last()) == 1);
    assert(property_declaration_count(head) == 1);
    lemma_counts_of_no_declarations(t);
    lemma_counts_of_no_declarations(inv);
    lemma_counts_concat(head, t);
    lemma_counts_concat(head + t, inv);
    assert(property_axioms(op) == head + t + inv);
}

proof fn lemma_class_axioms_counts(c: ClassDef)
    ensures
        class_declaration_count(class_axioms(c)) == 1,
        property_declaration_count(class_axioms(c)) == 0,
{
    let head = seq![
        AxiomModel::DeclareClass(c.iri@),
        AxiomModel::AnnotationAssertion(c.iri@, RDFS_LABEL@, c.label@),
    ];
    let rest = class_head_axioms(c).skip(2);
    assert(class_head_axioms(c) =~= head + rest);
    assert(head.drop_last() =~= seq![AxiomModel::DeclareClass(c.iri@)]);
    assert(head.drop_last().drop_last() =~= Seq::<AxiomModel>::empty());
    assert(class_declaration_count(head.drop_last().drop_last()) == 0);
    assert(class_declaration_count(head.drop_last()) == 1);
    assert(class_declaration_count(head) == 1);
    assert(property_declaration_count(head.drop_last().drop_last()) == 0);
    assert(property_declaration_count(head.drop_last()) == 0);
    assert(property_declaration_count(head) == 0);
    assert forall|i: int| 0 <= i < rest.len() implies !is_class_declaration(#[trigger] rest[i])
        && !is_property_declaration(rest[i]) by {
        assert(rest[i] == class_head_axioms(c)[i + 2]);
    }
    lemma_counts_of_no_declarations(rest);
    lemma_counts_of_no_declarations(class_restriction_axioms(c));
    lemma_counts_of_no_declarations(class_equivalence_axioms(c));
    lemma_counts_concat(head, rest);
    lemma_counts_concat(class_head_axioms(c), class_restriction_axioms(c));
    lemma_counts_concat(
        class_head_axioms(c) + class_restriction_axioms(c),
        class_equivalence_axioms(c),
    );
}

proof fn lemma_properties_counts(ops: Seq<ObjectPropertyDef>)
    ensures
        class_declaration_count(properties_axioms(ops)) == 0,
        property_declaration_count(properties_axioms(ops)) == ops.len(),
    decreases ops.len(),
{
    if ops.len() > 0 {
        lemma_properties_counts(ops.drop_last());
        lemma_property_axioms_counts(ops.last());
        lemma_counts_concat(properties_axioms(ops.drop_last()), property_axioms(ops.last()));
    }
}

proof fn lemma_classes_counts(cs: Seq<ClassDef>)
    ensures
        class_declaration_count(classes_axioms(cs)) == cs.len(),
        property_declaration_count(classes_axioms(cs)) == 0,
    decreases cs.len(),
{
    if cs.len() > 0 {
        lemma_classes_counts(cs.drop_last());
        lemma_class_axioms_counts(cs.last());
        lemma_counts_concat(classes_axioms(cs.drop_last()), class_axioms(cs.last()));
    }
}

/// Law: the TBox declares as many classes as the spec has classes, and as
/// many object properties as the spec has object properties (one declaration
/// each, nothing else declares).
pub proof fn tbox_declaration_counts(spec: &CogitoSpec)
    ensures
        class_declaration_count(spec_tbox_axioms(spec)) == spec.classes.len(),
        property_declaration_count(spec_tbox_axioms(spec)) == spec.object_properties.len(),
{
    let head = spec_tbox_axioms(spec).take(
        spec_tbox_axioms(spec).len() - properties_axioms(spec.object_properties@).len()
            - classes_axioms(spec.classes@).len(),
    );
    let ids = spec_tbox_axioms(spec).len() - properties_axioms(spec.object_properties@).len()
        - classes_axioms(spec.classes@).len();
    assert(spec_tbox_axioms(spec) =~= head + properties_axioms(spec.object_properties@)
        + classes_axioms(spec.classes@));
    assert forall|i: int| 0 <= i < head.len() implies !is_class_declaration(#[trigger] head[i])
        && !is_property_declaration(head[i]) by {
        assert(head[i] == spec_tbox_axioms(spec)[i]);
    }
    lemma_counts_of_no_declarations(head);
    lemma_properties_counts(spec.object_properties@);
    lemma_classes_counts(spec.classes@);
    lemma_counts_concat(head, properties_axioms(spec.object_properties@));
    lemma_counts_concat(
        head + properties_axioms(spec.object_properties@),
        classes_axioms(spec.classes@),
    );
}

proof fn lemma_properties_contain(ops: Seq<ObjectPropertyDef>, i: int, a: AxiomModel)
    requires
        0 <= i < ops.len(),
        property_axioms(ops[i]).contains(a),
    ensures
        properties_axioms(ops).contains(a),
    decreases ops.len(),
{
    let init = properties_axioms(ops.drop_last());
    let last = property_axioms(ops.last());
    if i == ops.len() - 1 {
        let k = choose|k: int| 0 <= k < last.len() && last[k] == a;
        assert((init + last)[init.len() + k] == a);
    } else {
        lemma_properties_contain(ops.drop_last(), i, a);
        let k = choose|k: int| 0 <= k < init.len() && init[k] == a;
        assert((init + last)[k] == a);
    }
}

proof fn lemma_classes_contain(cs: Seq<ClassDef>, i: int, a: AxiomModel)
    requires
        0 <= i < cs.len(),
        class_axioms(cs[i]).contains(a),
    ensures
        classes_axioms(cs).contains(a),
    decreases cs.len(),
{
    let init = classes_axioms(cs.drop_last());
    let last = class_axioms(cs.last());
    if i == cs.len() - 1 {
        let k = choose|k: int| 0 <= k < last.len() && last[k] == a;
        assert((init + last)[init.len() + k] == a);
    } else {
        lemma_classes_contain(cs.drop_last(), i, a);
        let k = choose|k: int| 0 <= k < init.len() && init[k] == a;
        assert((init + last)[k] == a);
    }
}

proof fn lemma_tbox_contains_tail(spec: &CogitoSpec, a: AxiomModel)
    requires
        properties_axioms(spec.object_properties@).contains(a) || classes_axioms(
            spec.classes@,
        ).contains(a),
    ensures
        spec_tbox_axioms(spec).contains(a),
{
    let all = spec_tbox_axioms(spec);
    let p = properties_axioms(spec.object_properties@);
    let c = classes_axioms(spec.classes@);
    let head_len = all.len() - p.len() - c.len();
    if p.contains(a) {
        let k = choose|k: int| 0 <= k < p.len() && p[k] == a;
        assert(all[head_len + k] == a);
    } else {
        let k = choose|k: int| 0 <= k < c.len() && c[k] == a;
        assert(all[head_len + p.len() + k] == a);
    }
}

/// Law: every object property of the spec is declared and labelled in the
/// TBox; a transitive one is a `TransitiveObjectProperty`, and one with an
/// inverse stands in `InverseObjectProperties` with it.
pub proof fn tbox_holds_each_property(spec: &CogitoSpec, i: int)
    requires
        0 <= i < spec.object_properties.len(),
    ensures
        ({
            let op = spec.object_properties@[i];
            &&& spec_tbox_axioms(spec).contains(AxiomModel::DeclareObjectProperty(op.iri@))
            &&& spec_tbox_axioms(spec).contains(
                AxiomModel::AnnotationAssertion(op.iri@, RDFS_LABEL@, op.label@),
            )
            &&& op.transitive ==> spec_tbox_axioms(spec).contains(
                AxiomModel::TransitiveObjectProperty(op.iri@),
            )
            &&& op.inverse_of matches Some(inv) ==> spec_tbox_axioms(spec).contains(
                AxiomModel::InverseObjectProperties(op.iri@, inv@),
            )
        }),
{
    let ops = spec.object_properties@;
    let op = ops[i];
    let axs = property_axioms(op);
    let n = if op.transitive { 3int } else { 2int };
    assert(axs[0] == AxiomModel::DeclareObjectProperty(op.iri@));
    assert(axs[1] == AxiomModel::AnnotationAssertion(op.iri@, RDFS_LABEL@, op.label@));
    lemma_properties_contain(ops, i, axs[0]);
    lemma_tbox_contains_tail(spec, axs[0]);
    lemma_properties_contain(ops, i, axs[1]);
    lemma_tbox_contains_tail(spec, axs[1]);
    if op.transitive {
        assert(axs[2] == AxiomModel::TransitiveObjectProperty(op.iri@));
        lemma_properties_contain(ops, i, axs[2]);
        lemma_tbox_contains_tail(spec, axs[2]);
    }
    if op.inverse_of is Some {
        let inv = op.inverse_of.unwrap();
        assert(axs[n] == AxiomModel::InverseObjectProperties(op.iri@, inv@));
        lemma_properties_contain(ops, i, axs[n]);
        lemma_tbox_contains_tail(spec, axs[n]);
    }
}

/// Law: every class of the spec is declared and labelled in the TBox, carries
/// its definition as an `rdfs:comment` whether or not it has a parent, is a
/// subclass of its effective parent and of each of its restrictions, and is
/// equivalent to its defining class expression.
pub proof fn tbox_holds_each_class(spec: &CogitoSpec, i: int)
    requires
        0 <= i < spec.classes.len(),
    ensures
        ({
            let c = spec.classes@[i];
            &&& spec_tbox_axioms(spec).contains(AxiomModel::DeclareClass(c.iri@))
            &&& spec_tbox_axioms(spec).contains(
                AxiomModel::AnnotationAssertion(c.iri@, RDFS_LABEL@, c.label@),
            )
            &&& c.definition matches Some(d) ==> spec_tbox_axioms(spec).contains(
                AxiomModel::AnnotationAssertion(c.iri@, RDFS_COMMENT@, d@),
            )
            &&& c.spec_effective_parent() matches Some(p) ==> spec_tbox_axioms(spec).contains(
                AxiomModel::SubClassOf(c.iri@, ClassExprModel::Class(p)),
            )
            &&& forall|j: int|
                0 <= j < c.subclass_of.len() ==> spec_tbox_axioms(spec).contains(
                    AxiomModel::SubClassOf(c.iri@, class_expression_of(#[trigger] c.subclass_of@[j])),
                )
            &&& c.equivalent_to matches Some(e) ==> spec_tbox_axioms(spec).contains(
                AxiomModel::EquivalentClasses(c.iri@, class_expression_of(e)),
            )
        }),
{
    let cs = spec.classes@;
    let c = cs[i];
    let axs = class_axioms(c);
    let h = class_head_axioms(c);
    let r = class_restriction_axioms(c);
    let q = class_equivalence_axioms(c);
    assert(axs[0] == AxiomModel::DeclareClass(c.iri@));
    assert(axs[1] == AxiomModel::AnnotationAssertion(c.iri@, RDFS_LABEL@, c.label@));
    lemma_classes_contain(cs, i, axs[0]);
    lemma_tbox_contains_tail(spec, axs[0]);
    lemma_classes_contain(cs, i, axs[1]);
    lemma_tbox_contains_tail(spec, axs[1]);
    if c.definition is Some {
        let d = c.definition.unwrap();
        assert(axs[2] == AxiomModel::AnnotationAssertion(c.iri@, RDFS_COMMENT@, d@));
        lemma_classes_contain(cs, i, axs[2]);
        lemma_tbox_contains_tail(spec, axs[2]);
    }
    if c.spec_effective_parent() is Some {
        let k = h.len() - 1;
        assert(axs[k] == h[k]);
        lemma_classes_contain(cs, i, axs[k]);
        lemma_tbox_contains_tail(spec, axs[k]);
    }
    assert forall|j: int| 0 <= j < c.subclass_of.len() implies spec_tbox_axioms(spec).contains(
        AxiomModel::SubClassOf(c.iri@, class_expression_of(#[trigger] c.subclass_of@[j])),
    ) by {
        assert(axs[h.len() + j] == r[j]);
        lemma_classes_contain(cs, i, axs[h.len() + j]);
        lemma_tbox_contains_tail(spec, axs[h.len() + j]);
    }
    if c.equivalent_to is Some {
        let k = (h.len() + r.len()) as int;
        assert(axs[k] == q[0]);
        lemma_classes_contain(cs, i, axs[k]);
        lemma_tbox_contains_tail(spec, axs[k]);
    }
}

proof fn lemma_property_axiom_kind(op: ObjectPropertyDef, a: AxiomModel)
    requires
        property_axioms(op).contains(a),
    ensures
        !(a is OntologyId),
        !(a is Import),
{
    let k = choose|k: int| 0 <= k < property_axioms(op).len() && property_axioms(op)[k] == a;
    assert(property_axioms(op)[k] == a);
}

proof fn lemma_class_axiom_kind(c: ClassDef, a: AxiomModel)
    requires
        class_axioms(c).contains(a),
    ensures
        !(a is OntologyId),
        !(a is Import),
{
    let h = class_head_axioms(c);
    let r = class_restriction_axioms(c);
    let q = class_equivalence_axioms(c);
    let k = choose|k: int| 0 <= k < class_axioms(c).len() && class_axioms(c)[k] == a;
    if k < h.len() {
        assert(h[k] == a);
    } else if k < h.len() + r.len() {
        assert(r[k - h.len()] == a);
    } else {
        assert(q[k - h.len() - r.len()] == a);
    }
}

/// Whatever the properties and classes of the spec give is neither an
/// ontology identity nor an import.
proof fn lemma_tail_axiom_kind(spec: &CogitoSpec, k: int)
    requires
        1 + import_iris(spec).len() <= k < spec_tbox_axioms(spec).len(),
    ensures
        !(spec_tbox_axioms(spec)[k] is OntologyId),
        !(spec_tbox_axioms(spec)[k] is Import),
{
    let all = spec_tbox_axioms(spec);
    let a = all[k];
    let n = 1 + import_iris(spec).len();
    let p = properties_axioms(spec.object_properties@);
    let c = classes_axioms(spec.classes@);
    if k < n + p.len() {
        assert(p[k - n] == a);
        lemma_properties_contain_some(spec.object_properties@, a);
        let i = choose|i: int|
            0 <= i < spec.object_properties@.len() && #[trigger] property_axioms(
                spec.object_properties@[i],
            ).contains(a);
        lemma_property_axiom_kind(spec.object_properties@[i], a);
    } else {
        assert(c[k - n - p.len()] == a);
        lemma_classes_contain_some(spec.classes@, a);
        let i = choose|i: int|
            0 <= i < spec.classes@.len() && #[trigger] class_axioms(spec.classes@[i]).contains(a);
        lemma_class_axiom_kind(spec.classes@[i], a);
    }
}

/// Law: the TBox opens with the ontology's identity, which carries the spec's
/// own IRI (the built-in cogito IRI only where the spec gives none) and the
/// spec's version IRI; no other axiom of the TBox is an ontology identity.
pub proof fn tbox_identity_is_the_specs(spec: &CogitoSpec)
    ensures
        spec_tbox_axioms(spec).len() >= 1,
        spec_tbox_axioms(spec)[0] == AxiomModel::OntologyId(
            match spec.iri {
                Some(i) => i@,
                None => COGITO_ONT@,
            },
            match spec.version_iri {
                Some(v) => Some(v@),
                None => None,
            },
        ),
        spec.iri matches Some(i) ==> spec_tbox_axioms(spec).contains(
            AxiomModel::OntologyId(i@, opt_view(spec.version_iri)),
        ),
        forall|k: int|
            1 <= k < spec_tbox_axioms(spec).len() ==> !(#[trigger] spec_tbox_axioms(spec)[k] is OntologyId),
{
    let all = spec_tbox_axioms(spec);
    assert(all[0] == AxiomModel::OntologyId(ontology_iri(spec), opt_view(spec.version_iri)));
    assert forall|k: int| 1 <= k < all.len() implies !(#[trigger] all[k] is OntologyId) by {
        if k < 1 + import_iris(spec).len() {
            assert(all[k] == AxiomModel::Import(import_iris(spec)[k - 1]@));
        } else {
            lemma_tail_axiom_kind(spec, k);
        }
    }
}

/// Law: each import IRI of the spec becomes an `Import` of the TBox, in the
/// spec's order right after the ontology's identity, and every `Import` of
/// the TBox is one of the spec's import IRIs.
pub proof fn tbox_imports_each_import(spec: &CogitoSpec)
    ensures
        spec.imports matches Some(v) ==> forall|k: int|
            0 <= k < v.len() ==> spec_tbox_axioms(spec)[1 + k] == AxiomModel::Import(
                #[trigger] v@[k]@,
            ),
        spec.imports matches Some(v) ==> forall|k: int|
            0 <= k < v.len() ==> spec_tbox_axioms(spec).contains(
                AxiomModel::Import(#[trigger] v@[k]@),
            ),
        forall|a: AxiomModel|
            #[trigger] spec_tbox_axioms(spec).contains(a) && a is Import ==> (
            spec.imports matches Some(v) && exists|k: int|
                0 <= k < v.len() && a == AxiomModel::Import(#[trigger] v@[k]@)),
{
    let all = spec_tbox_axioms(spec);
    if spec.imports is Some {
        let v = spec.imports.unwrap();
        assert forall|k: int| 0 <= k < v.len() implies all[1 + k] == AxiomModel::Import(
            #[trigger] v@[k]@,
        ) && all.contains(AxiomModel::Import(v@[k]@)) by {
            assert(all[1 + k] == AxiomModel::Import(v@[k]@));
        }
    }
    assert forall|a: AxiomModel| #[trigger] all.contains(a) && a is Import implies (
    spec.imports matches Some(v) && exists|k: int|
        0 <= k < v.len() && a == AxiomModel::Import(#[trigger] v@[k]@)) by {
        let m = choose|m: int| 0 <= m < all.len() && all[m] == a;
        if m == 0 {
            assert(all[0] is OntologyId);
        } else if m < 1 + import_iris(spec).len() {
            let v = spec.imports.unwrap();
            assert(all[m] == AxiomModel::Import(v@[m - 1]@));
        } else {
            lemma_tail_axiom_kind(spec, m);
        }
    }
}

proof fn lemma_concat_contains(a: Seq<AxiomModel>, b: Seq<AxiomModel>, x: AxiomModel)
    ensures
        (a + b).contains(x) <==> a.contains(x) || b.contains(x),
{
    if (a + b).contains(x) {
        let k = choose|k: int| 0 <= k < (a + b).len() && (a + b)[k] == x;
        if k < a.len() {
            assert(a[k] == x);
        } else {
            assert(b[k - a.len()] == x);
        }
    }
    if a.contains(x) {
        let k = choose|k: int| 0 <= k < a.len() && a[k] == x;
        assert((a + b)[k] == x);
    }
    if b.contains(x) {
        let k = choose|k: int| 0 <= k < b.len() && b[k] == x;
        assert((a + b)[a.len() + k] == x);
    }
}

proof fn lemma_properties_contain_some(ops: Seq<ObjectPropertyDef>, a: AxiomModel)
    requires
        properties_axioms(ops).contains(a),
    ensures
        exists|i: int| 0 <= i < ops.len() && #[trigger] property_axioms(ops[i]).contains(a),
    decreases ops.len(),
{
    lemma_concat_contains(properties_axioms(ops.drop_last()), property_axioms(ops.last()), a);
    if properties_axioms(ops.drop_last()).contains(a) {
        lemma_properties_contain_some(ops.drop_last(), a);
        let i = choose|i: int| 0 <= i < ops.drop_last().len() && #[trigger] property_axioms(
            ops.drop_last()[i],
        ).contains(a);
        assert(ops.drop_last()[i] == ops[i]);
    } else {
        assert(property_axioms(ops[ops.len() - 1]).contains(a));
    }
}

proof fn lemma_classes_contain_some(cs: Seq<ClassDef>, a: AxiomModel)
    requires
        classes_axioms(cs).contains(a),
    ensures
        exists|i: int| 0 <= i < cs.len() && #[trigger] class_axioms(cs[i]).contains(a),
    decreases cs.len(),
{
    lemma_concat_contains(classes_axioms(cs.drop_last()), class_axioms(cs.last()), a);
    if classes_axioms(cs.drop_last()).contains(a) {
        lemma_classes_contain_some(cs.drop_last(), a);
        let i = choose|i: int| 0 <= i < cs.drop_last().len() && #[trigger] class_axioms(
            cs.drop_last()[i],
        ).contains(a);
        assert(cs.drop_last()[i] == cs[i]);
    } else {
        assert(class_axioms(cs[cs.len() - 1]).contains(a));
    }
}

/// `t` is `s` reordered: element `i` of `t` is element `p[i]` of `s`, and
/// `p` is a bijection of the indices.
pub open spec fn permuted_by<A>(t: Seq<A>, s: Seq<A>, p: Seq<int>) -> bool {
    &&& t.len() == s.len()
    &&& is_index_permutation(p, s.len())
    &&& forall|i: int| 0 <= i < t.len() ==> #[trigger] t[i] == s[p[i]]
}

proof fn lemma_permuted_properties(t: Seq<ObjectPropertyDef>, s: Seq<ObjectPropertyDef>, p: Seq<int>, a: AxiomModel)
    requires
        permuted_by(t, s, p),
        properties_axioms(s).contains(a),
    ensures
        properties_axioms(t).contains(a),
{
    lemma_properties_contain_some(s, a);
    let i = choose|i: int| 0 <= i < s.len() && #[trigger] property_axioms(s[i]).contains(a);
    assert(index_hit(p, i));
    let j = choose|j: int| 0 <= j < p.len() && #[trigger] p[j] == i;
    assert(t[j] == s[i]);
    lemma_properties_contain(t, j, a);
}

proof fn lemma_permuted_classes(t: Seq<ClassDef>, s: Seq<ClassDef>, p: Seq<int>, a: AxiomModel)
    requires
        permuted_by(t, s, p),
        classes_axioms(s).contains(a),
    ensures
        classes_axioms(t).contains(a),
{
    lemma_classes_contain_some(s, a);
    let i = choose|i: int| 0 <= i < s.len() && #[trigger] class_axioms(s[i]).contains(a);
    assert(index_hit(p, i));
    let j = choose|j: int| 0 <= j < p.len() && #[trigger] p[j] == i;
    assert(t[j] == s[i]);
    lemma_classes_contain(t, j, a);
}

/// Law: the document does not depend on the order in which the spec lists
/// its object properties and its classes: two specs with the same ontology
/// IRIs and imports, whose properties and classes are the same up to order,
/// build the same document byte for byte.
pub proof fn tbox_document_ignores_order(s: &CogitoSpec, t: &CogitoSpec, p: Seq<int>, q: Seq<int>)
    requires
        t.iri == s.iri,
        t.version_iri == s.version_iri,
        t.imports == s.imports,
        permuted_by(t.object_properties@, s.object_properties@, p),
        permuted_by(t.classes@, s.classes@, q),
    ensures
        tbox_document(t) == tbox_document(s),
{
    let sa = spec_tbox_axioms(s);
    let ta = spec_tbox_axioms(t);
    let head = seq![AxiomModel::OntologyId(ontology_iri(s), opt_view(s.version_iri))]
        + import_iris(s).map_values(|i: String| AxiomModel::Import(i@));
    let (sp, tp) = (properties_axioms(s.object_properties@), properties_axioms(t.object_properties@));
    let (sc, tc) = (classes_axioms(s.classes@), classes_axioms(t.classes@));
    assert(sa == head + sp + sc);
    assert(ta == head + tp + tc);
    assert forall|x: AxiomModel| sa.contains(x) <==> ta.contains(x) by {
        lemma_concat_contains(head + sp, sc, x);
        lemma_concat_contains(head, sp, x);
        lemma_concat_contains(head + tp, tc, x);
        lemma_concat_contains(head, tp, x);
        if sp.contains(x) {
            lemma_permuted_properties(t.object_properties@, s.object_properties@, p, x);
        }
        if sc.contains(x) {
            lemma_permuted_classes(t.classes@, s.classes@, q, x);
        }
        if tp.contains(x) {
            lemma_properties_contain_some(t.object_properties@, x);
            let j = choose|j: int| 0 <= j < t.object_properties@.len()
                && #[trigger] property_axioms(t.object_properties@[j]).contains(x);
            assert(t.object_properties@[j] == s.object_properties@[p[j]]);
            lemma_properties_contain(s.object_properties@, p[j], x);
        }
        if tc.contains(x) {
            lemma_classes_contain_some(t.classes@, x);
            let j = choose|j: int| 0 <= j < t.classes@.len()
                && #[trigger] class_axioms(t.classes@[j]).contains(x);
            assert(t.classes@[j] == s.classes@[q[j]]);
            lemma_classes_contain(s.classes@, q[j], x);
        }
    }
    assert(sa.to_set() =~= ta.to_set());
}

/// Law: a class expression parses as its trimmed self; white space around it
/// changes nothing.
pub proof fn parse_ignores_surrounding_white_space(s: Seq<char>)
    ensures
        parse_ce(s) == parse_ce(crate::text::trim(s)),
{
    crate::text::lemma_trim_idempotent(s);
}

/// No prefix of `e` closes more parentheses than it opens.
pub open spec fn never_unbalanced(e: Seq<char>) -> bool {
    forall|k: int| 0 <= k <= e.len() ==> paren_depth(#[trigger] e.take(k)) >= 0
}

/// In `(e)`, with `e` never unbalanced, no keyword that starts with a space
/// stands at depth zero.
proof fn lemma_wrapped_has_no_top(e: Seq<char>, kw: Seq<char>)
    requires
        never_unbalanced(e),
        kw.len() > 0,
        kw[0] == ' ',
    ensures
        first_top(seq!['('] + e + seq![')'], kw) is None,
{
    let s = seq!['('] + e + seq![')'];
    assert forall|i: int| !top_at(s, kw, i) by {
        if top_at(s, kw, i) {
            assert(s.subrange(i, i + kw.len())[0] == kw[0]);
            assert(s[i] == ' ');
            if 1 <= i <= e.len() {
                assert(s.take(i + 1) =~= seq!['('] + e.take(i));
                lemma_depth_concat(seq!['('], e.take(i));
                let one = seq!['('];
                assert(one.drop_last() =~= Seq::<char>::empty());
                assert(paren_depth(Seq::<char>::empty()) == 0);
                assert(one.last() == '(');
                assert(paren_depth(one) == 1);
                assert(paren_depth(e.take(i)) >= 0);
            } else if i == 0 {
                assert(s[0] == '(');
            } else {
                assert(s[i] == ')');
            }
        }
    }
    assert forall|i: int| !#[trigger] is_first_top(s, kw, i) by {
        assert(!top_at(s, kw, i));
    }
}

/// Law: a class expression in parentheses parses as the expression itself,
/// where no prefix of the expression closes more parentheses than it opens
/// (so in particular for every balanced expression).
pub proof fn parenthesised_parses_as_itself(e: Seq<char>)
    requires
        never_unbalanced(e),
    ensures
        parse_ce(seq!['('] + e + seq![')']) == parse_ce(e),
{
    let s = seq!['('] + e + seq![')'];
    assert(s[0] == '(');
    assert(s.last() == ')');
    assert(trim_start(s) == s);
    assert(trim_end(s) == s);
    assert(trim(s) == s);
    assert(some_kw()[0] == ' ' && and_kw()[0] == ' ');
    lemma_wrapped_has_no_top(e, some_kw());
    lemma_wrapped_has_no_top(e, and_kw());
    assert(split_kw(s, some_kw()) is None);
    assert(conj_split(s) == Some(seq![s]));
    assert(s.subrange(1, s.len() - 1) =~= e);
    assert(strip_parens_spec(s) == e);
    assert(strip_parens_spec(s) != s) by {
        assert(e.len() < s.len());
    }
}

/// The pieces of an intersection parse together exactly when each trimmed
/// piece parses, and then to the parses of the pieces, in order.
proof fn lemma_parse_pieces(ps: Seq<Seq<char>>, b: nat)
    requires
        forall|k: int| 0 <= k < ps.len() ==> trim(#[trigger] ps[k]).len() < b,
    ensures
        parse_pieces(ps, b) is Some <==> forall|k: int|
            0 <= k < ps.len() ==> parse_ce(trim(#[trigger] ps[k])) is Some,
        parse_pieces(ps, b) matches Some(ms) ==> ms.len() == ps.len() && forall|k: int|
            0 <= k < ps.len() ==> Some(#[trigger] ms[k]) == parse_ce(trim(ps[k])),
    decreases ps.len(),
{
    if ps.len() > 0 {
        let init = ps.drop_last();
        assert forall|k: int| 0 <= k < init.len() implies trim(#[trigger] init[k]).len() < b by {
            assert(init[k] == ps[k]);
        }
        lemma_parse_pieces(init, b);
        assert(ps.last() == ps[ps.len() - 1]);
        assert(trim(ps[ps.len() - 1]).len() < b);
        if forall|k: int| 0 <= k < ps.len() ==> parse_ce(trim(#[trigger] ps[k])) is Some {
            assert forall|k: int| 0 <= k < init.len() implies parse_ce(trim(#[trigger] init[k])) is Some by {
                assert(init[k] == ps[k]);
                assert(parse_ce(trim(ps[k])) is Some);
            }
            assert(parse_ce(trim(ps[ps.len() - 1])) is Some);
            assert(parse_pieces(init, b) is Some);
            assert(parse_pieces(ps, b) is Some);
        }
        if parse_pieces(ps, b) is Some {
            let ms = parse_pieces(ps, b).unwrap();
            let mi = parse_pieces(init, b).unwrap();
            assert(ms == mi.push(parse_ce(trim(ps.last())).unwrap()));
            assert forall|k: int| 0 <= k < ps.len() implies Some(#[trigger] ms[k]) == parse_ce(
                trim(ps[k]),
            ) by {
                if k < init.len() {
                    assert(ms[k] == mi[k]);
                    assert(init[k] == ps[k]);
                }
            }
            assert forall|k: int| 0 <= k < ps.len() implies parse_ce(trim(#[trigger] ps[k])) is Some by {
                assert(Some(ms[k]) == parse_ce(trim(ps[k])));
            }
        } else {
            if parse_pieces(init, b) is None {
                let k = choose|k: int| 0 <= k < init.len() && !(parse_ce(trim(#[trigger] init[k])) is Some);
                assert(init[k] == ps[k]);
                assert(!(parse_ce(trim(ps[k])) is Some));
            } else {
                assert(!(parse_ce(trim(ps[ps.len() - 1])) is Some));
            }
        }
    }
}

/// Law: where the trimmed expression has no top-level ` some ` but has a
/// top-level ` and `, it parses as the intersection of its pieces, never as
/// anything unwrapped from parentheses around the whole: the pieces (cut at
/// the top-level ` and `, left to right, joining back to the expression) are
/// two or more, the expression parses exactly when every trimmed piece does,
/// and then to the `ObjectIntersectionOf` of the pieces' parses, in order.
pub proof fn top_level_and_parses_as_intersection(s: Seq<char>)
    requires
        first_top(trim(s), some_kw()) is None,
        first_top(trim(s), and_kw()) is Some,
    ensures
        conj_split(trim(s)) matches Some(parts) ==> {
            &&& parts.len() >= 2
            &&& parse_ce(s) is Some <==> forall|k: int|
                0 <= k < parts.len() ==> parse_ce(trim(#[trigger] parts[k])) is Some
            &&& parse_ce(s) matches Some(e) ==> (e matches ClassExprModel::ObjectIntersectionOf(ms)
                && ms.len() == parts.len() && forall|k: int|
                0 <= k < parts.len() ==> Some(#[trigger] ms[k]) == parse_ce(trim(parts[k])))
        },
{
    let t = trim(s);
    lemma_first_top(t, and_kw());
    lemma_conj_split_joins(t);
    lemma_conj_parts_len(t);
    if conj_split(t) is Some {
        let parts = conj_split(t).unwrap();
        let i = first_top(t, and_kw()).unwrap();
        lemma_conj_split_joins(t.skip(i + 5));
        let rest = conj_split(t.skip(i + 5)).unwrap();
        assert(parts == seq![t.take(i)] + rest);
        assert(parts.len() >= 2);
        assert forall|k: int| 0 <= k < parts.len() implies trim(#[trigger] parts[k]).len() < t.len() by {
            lemma_trim_shrinks(parts[k]);
        }
        lemma_parse_pieces(parts, t.len());
        assert(split_kw(t, some_kw()) is None);
    }
}

/// Law: the filler of an existential restriction is the whole parse of the
/// trimmed text after the first top-level ` some `, and the property is the
/// trimmed text before it.
pub proof fn some_parses_its_filler_in_full(s: Seq<char>)
    requires
        split_kw(trim(s), some_kw()) is Some,
    ensures
        ({
            let (p, rest) = split_kw(trim(s), some_kw()).unwrap();
            &&& parse_ce(s) is Some <==> parse_ce(trim(rest)) is Some
            &&& parse_ce(s) matches Some(e) ==> e == ClassExprModel::ObjectSomeValuesFrom(
                trim(p),
                Box::new(parse_ce(trim(rest)).unwrap()),
            )
        }),
{
}

/// Law: a named class that the parser gives holds no top-level ` some ` and
/// no top-level ` and `: those always make a restriction or an intersection.
pub proof fn named_class_has_no_top_level_keyword(s: Seq<char>)
    requires
        parse_ce(s) matches Some(ClassExprModel::Class(_)),
    ensures
        parse_ce(s) matches Some(ClassExprModel::Class(n)) ==> first_top(n, some_kw()) is None
            && first_top(n, and_kw()) is None,
    decreases s.len(),
{
    let t = trim(s);
    lemma_trim_shrinks(s);
    lemma_trim_idempotent(s);
    lemma_first_top(t, and_kw());
    lemma_conj_split_joins(t);
    if split_kw(t, some_kw()) is None && conj_split(t) is Some {
        let parts = conj_split(t).unwrap();
        if first_top(t, and_kw()) is Some {
            let i = first_top(t, and_kw()).unwrap();
            lemma_conj_split_joins(t.skip(i + 5));
            assert(parts.len() >= 2);
        }
        if parts.len() <= 1 {
            let st = strip_parens_spec(t);
            if st != t {
                assert(st.len() < s.len());
                named_class_has_no_top_level_keyword(st);
            }
        }
    }
}

} // verus!

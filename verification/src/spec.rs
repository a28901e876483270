//! The spec model (object properties and classes) and its validation.

use vstd::prelude::*;

verus! {

/// IRI base for the cogito ontology.
pub const COGITO_NS: &'static str = "https://wintermute.local/cogito#";

/// IRI of the cogito ontology itself.
pub const COGITO_ONT: &'static str = "https://wintermute.local/cogito";

/// The BFO 2020 ontology that the spec imports.
pub const BFO_IMPORT: &'static str = "http://purl.obolibrary.org/obo/bfo/2020/bfo.owl";

/// The whole declarative spec of the operational world.
#[derive(Debug, PartialEq, Eq)]
pub struct CogitoSpec {
    pub iri: Option<String>,
    pub version_iri: Option<String>,
    pub imports: Option<Vec<String>>,
    pub object_properties: Vec<ObjectPropertyDef>,
    pub classes: Vec<ClassDef>,
}

/// One object property of the spec.
#[derive(Debug, Clone, PartialEq, Eq)]
pub struct ObjectPropertyDef {
    pub iri: String,
    pub label: String,
    pub transitive: bool,
    pub inverse_of: Option<String>,
    pub domain: Option<String>,
    pub range: Option<String>,
}

/// One class of the spec.
#[derive(Debug, Clone, PartialEq, Eq)]
pub struct ClassDef {
    pub iri: String,
    pub label: String,
    pub parent: Option<String>,
    /// Alternative parent field for full-IRI parents not matching the "BFO:" prefix scheme
    pub parent_full: Option<String>,
    pub definition: Option<String>,
    pub equivalent_to: Option<String>,
    pub subclass_of: Vec<String>,
}

/// The view of an optional string.
pub open spec fn opt_view(o: Option<String>) -> Option<Seq<char>> {
    match o {
        Some(s) => Some(s@),
        None => None,
    }
}

impl ClassDef {
    /// The parent IRI that a class is placed under: `parent_full` where it
    /// is given, else `parent`.
    pub open spec fn spec_effective_parent(&self) -> Option<Seq<char>> {
        match self.parent_full {
            Some(p) => Some(p@),
            None => opt_view(self.parent),
        }
    }

    /// Return the effective parent IRI (prefer `parent_full` over `parent`)
    pub fn effective_parent(&self) -> (r: Option<&str>)
        ensures
            r is Some <==> self.spec_effective_parent() is Some,
            r matches Some(p) ==> p@ == self.spec_effective_parent().unwrap(),
    {
        match &self.parent_full {
            Some(p) => Some(p.as_str()),
            None => match &self.parent {
                Some(p) => Some(p.as_str()),
                None => None,
            },
        }
    }
}


/// Why a spec was refused by [`validate`].
#[derive(Debug, PartialEq, Eq)]
pub enum SpecError {
    /// An object property has an empty IRI.
    EmptyPropertyIri,
    /// The object property with this IRI has an empty label.
    EmptyPropertyLabel(String),
    /// This IRI names more than one object property or class.
    DuplicateIri(String),
    /// A class has an empty IRI.
    EmptyClassIri,
    /// The class with this IRI has an empty label.
    EmptyClassLabel(String),
}

/// [`SpecError`] with its strings taken by their views.
pub enum SpecErrorModel {
    EmptyPropertyIri,
    EmptyPropertyLabel(Seq<char>),
    DuplicateIri(Seq<char>),
    EmptyClassIri,
    EmptyClassLabel(Seq<char>),
}

impl SpecError {
    pub open spec fn model(&self) -> SpecErrorModel {
        match self {
            SpecError::EmptyPropertyIri => SpecErrorModel::EmptyPropertyIri,
            SpecError::EmptyPropertyLabel(i) => SpecErrorModel::EmptyPropertyLabel(i@),
            SpecError::DuplicateIri(i) => SpecErrorModel::DuplicateIri(i@),
            SpecError::EmptyClassIri => SpecErrorModel::EmptyClassIri,
            SpecError::EmptyClassLabel(i) => SpecErrorModel::EmptyClassLabel(i@),
        }
    }

    /// The message that reports this error.
    pub fn message(&self) -> (m: String)
        ensures
            m@ == self.spec_message(),
    {
        match self {
            SpecError::EmptyPropertyIri => String::from_str("object property has empty IRI"),
            SpecError::EmptyPropertyLabel(iri) => {
                let mut m = String::from_str("object property '");
                m.append(iri.as_str());
                m.append("' has empty label");
                m
            },
            SpecError::DuplicateIri(iri) => {
                let mut m = String::from_str("duplicate IRI in spec: ");
                m.append(iri.as_str());
                m
            },
            SpecError::EmptyClassIri => String::from_str("class has empty IRI"),
            SpecError::EmptyClassLabel(iri) => {
                let mut m = String::from_str("class '");
                m.append(iri.as_str());
                m.append("' has empty label");
                m
            },
        }
    }

    pub open spec fn spec_message(&self) -> Seq<char> {
        match self {
            SpecError::EmptyPropertyIri => "object property has empty IRI"@,
            SpecError::EmptyPropertyLabel(iri) => "object property '"@ + iri@ + "' has empty label"@,
            SpecError::DuplicateIri(iri) => "duplicate IRI in spec: "@ + iri@,
            SpecError::EmptyClassIri => "class has empty IRI"@,
            SpecError::EmptyClassLabel(iri) => "class '"@ + iri@ + "' has empty label"@,
        }
    }
}

/// One named entity of the spec, as validation sees it: whether it is a
/// class (else an object property), its IRI and its label.
pub type Entry = (bool, Seq<char>, Seq<char>);

pub open spec fn property_entry(op: ObjectPropertyDef) -> Entry {
    (false, op.iri@, op.label@)
}

pub open spec fn class_entry(c: ClassDef) -> Entry {
    (true, c.iri@, c.label@)
}

/// The entities of a spec in the order validation visits them: the object
/// properties, then the classes.
pub open spec fn spec_entries(spec: &CogitoSpec) -> Seq<Entry> {
    spec.object_properties@.map_values(|op: ObjectPropertyDef| property_entry(op))
        + spec.classes@.map_values(|c: ClassDef| class_entry(c))
}

/// The IRIs of a sequence of entries.
pub open spec fn entry_iris(es: Seq<Entry>) -> Seq<Seq<char>> {
    es.map_values(|e: Entry| e.1)
}

/// The fault of entry `e` given the IRIs of the entries before it, if any.
pub open spec fn entry_fault(earlier: Seq<Seq<char>>, e: Entry) -> Option<SpecErrorModel> {
    if e.1.len() == 0 {
        Some(if e.0 { SpecErrorModel::EmptyClassIri } else { SpecErrorModel::EmptyPropertyIri })
    } else if e.2.len() == 0 {
        Some(
            if e.0 {
                SpecErrorModel::EmptyClassLabel(e.1)
            } else {
                SpecErrorModel::EmptyPropertyLabel(e.1)
            },
        )
    } else if earlier.contains(e.1) {
        Some(SpecErrorModel::DuplicateIri(e.1))
    } else {
        None
    }
}

/// Validation of a sequence of entries: the fault of the first entry that has
/// one, else success.
pub open spec fn validate_entries(es: Seq<Entry>) -> Result<(), SpecErrorModel>
    decreases es.len(),
{
    if es.len() == 0 {
        Ok(())
    } else {
        match validate_entries(es.drop_last()) {
            Err(e) => Err(e),
            Ok(_) => match entry_fault(entry_iris(es.drop_last()), es.last()) {
                Some(e) => Err(e),
                None => Ok(()),
            },
        }
    }
}

/// What [`validate`] answers on a spec.
pub open spec fn spec_validate(spec: &CogitoSpec) -> Result<(), SpecErrorModel> {
    validate_entries(spec_entries(spec))
}

/// A spec is well formed when every IRI and label is non-empty and no IRI
/// names two entities.
pub open spec fn entries_well_formed(es: Seq<Entry>) -> bool {
    &&& forall|i: int| 0 <= i < es.len() ==> (#[trigger] es[i]).1.len() > 0 && es[i].2.len() > 0
    &&& forall|i: int, j: int| 0 <= i < j < es.len() ==> (#[trigger] es[i]).1 != (#[trigger] es[j]).1
}

proof fn lemma_validate_entries_ok(es: Seq<Entry>)
    ensures
        validate_entries(es) is Ok <==> entries_well_formed(es),
    decreases es.len(),
{
    if es.len() > 0 {
        let init = es.drop_last();
        lemma_validate_entries_ok(init);
        if entries_well_formed(es) {
            assert(entries_well_formed(init)) by {
                assert forall|i: int, j: int| 0 <= i < j < init.len() implies
                    (#[trigger] init[i]).1 != (#[trigger] init[j]).1 by {
                    assert(init[i] == es[i] && init[j] == es[j]);
                }
                assert forall|i: int| 0 <= i < init.len() implies (#[trigger] init[i]).1.len() > 0
                    && init[i].2.len() > 0 by {
                    assert(init[i] == es[i]);
                }
            }
            assert(es.last() == es[es.len() - 1]);
            if entry_iris(init).contains(es.last().1) {
                let k = choose|k: int| 0 <= k < entry_iris(init).len()
                    && #[trigger] entry_iris(init)[k] == es.last().1;
                assert(es[k] == init[k]);
            }
        }
        if validate_entries(es) is Ok {
            assert forall|i: int, j: int| 0 <= i < j < es.len() implies
                (#[trigger] es[i]).1 != (#[trigger] es[j]).1 by {
                if j == es.len() - 1 {
                    assert(entry_iris(init)[i] == es[i].1);
                } else {
                    assert(init[i] == es[i] && init[j] == es[j]);
                }
            }
            assert forall|i: int| 0 <= i < es.len() implies (#[trigger] es[i]).1.len() > 0
                && es[i].2.len() > 0 by {
                if i < es.len() - 1 {
                    assert(init[i] == es[i]);
                }
            }
        }
    }
}

/// Law: `validate` accepts a spec exactly when every object property and
/// class has a non-empty IRI and a non-empty label, and no IRI names two of
/// them (across properties and classes alike).
pub proof fn validate_accepts_exactly_well_formed(spec: &CogitoSpec)
    ensures
        spec_validate(spec) is Ok <==> entries_well_formed(spec_entries(spec)),
{
    lemma_validate_entries_ok(spec_entries(spec));
}

/// `h` maps each entry of `t` to an entry of `s` with the same IRI and label,
/// no two to the same one.
pub open spec fn entries_embed(t: Seq<Entry>, s: Seq<Entry>, h: Seq<int>) -> bool {
    &&& h.len() == t.len()
    &&& forall|i: int| 0 <= i < t.len() ==> 0 <= #[trigger] h[i] < s.len()
    &&& forall|i: int| 0 <= i < t.len() ==> (#[trigger] t[i]).1 == s[h[i]].1 && t[i].2 == s[h[i]].2
    &&& forall|i: int, j: int| 0 <= i < j < t.len() ==> #[trigger] h[i] != #[trigger] h[j]
}

/// Well-formedness carries over along an embedding of entries.
proof fn lemma_well_formed_embed(t: Seq<Entry>, s: Seq<Entry>, h: Seq<int>)
    requires
        entries_well_formed(s),
        entries_embed(t, s, h),
    ensures
        entries_well_formed(t),
{
    assert forall|i: int| 0 <= i < t.len() implies (#[trigger] t[i]).1.len() > 0 && t[i].2.len() > 0 by {
        assert(s[h[i]].1.len() > 0);
    }
    assert forall|i: int, j: int| 0 <= i < j < t.len() implies (#[trigger] t[i]).1 != (#[trigger] t[j]).1 by {
        assert(h[i] != h[j]);
        if h[i] < h[j] {
            assert(s[h[i]].1 != s[h[j]].1);
        } else {
            assert(s[h[j]].1 != s[h[i]].1);
        }
    }
}

/// `f` picks, in increasing order, the elements of `b` that make up `a`.
pub open spec fn subsequence_by<A>(a: Seq<A>, b: Seq<A>, f: Seq<int>) -> bool {
    &&& f.len() == a.len()
    &&& forall|i: int| 0 <= i < a.len() ==> 0 <= #[trigger] f[i] < b.len() && a[i] == b[f[i]]
    &&& forall|i: int, j: int| 0 <= i < j < a.len() ==> #[trigger] f[i] < #[trigger] f[j]
}

/// `a` is a subsequence of `b`: `b` with some elements removed.
pub open spec fn is_subsequence<A>(a: Seq<A>, b: Seq<A>) -> bool {
    exists|f: Seq<int>| subsequence_by(a, b, f)
}

/// `p` is a bijection of the indices `0..n`.
pub open spec fn is_index_permutation(p: Seq<int>, n: nat) -> bool {
    &&& p.len() == n
    &&& forall|i: int| 0 <= i < n ==> 0 <= #[trigger] p[i] < n
    &&& forall|i: int, j: int| 0 <= i < j < n ==> #[trigger] p[i] != #[trigger] p[j]
    &&& forall|k: int| 0 <= k < n ==> #[trigger] index_hit(p, k)
}

/// Some element of `p` is `k`.
pub open spec fn index_hit(p: Seq<int>, k: int) -> bool {
    exists|i: int| 0 <= i < p.len() && #[trigger] p[i] == k
}

/// `t` lists the same IRIs and labels as `s`, in the order `p`: element `i`
/// of `t` has the IRI and the label of element `p[i]` of `s`.
pub open spec fn same_names_permuted(t: Seq<Entry>, s: Seq<Entry>, p: Seq<int>) -> bool {
    &&& t.len() == s.len()
    &&& is_index_permutation(p, s.len())
    &&& forall|i: int| 0 <= i < t.len() ==> (#[trigger] t[i]).1 == s[p[i]].1 && t[i].2 == s[p[i]].2
}

/// The entries of a spec, split at the end of its object properties, embed
/// when the properties and the classes embed separately.
proof fn lemma_spec_embed(t: &CogitoSpec, s: &CogitoSpec, f: Seq<int>, g: Seq<int>) -> (h: Seq<int>)
    requires
        entries_embed(
            t.object_properties@.map_values(|op: ObjectPropertyDef| property_entry(op)),
            s.object_properties@.map_values(|op: ObjectPropertyDef| property_entry(op)),
            f,
        ),
        entries_embed(
            t.classes@.map_values(|c: ClassDef| class_entry(c)),
            s.classes@.map_values(|c: ClassDef| class_entry(c)),
            g,
        ),
    ensures
        entries_embed(spec_entries(t), spec_entries(s), h),
{
    let n = s.object_properties.len() as int;
    let m = t.object_properties.len() as int;
    let h = f + g.map_values(|k: int| k + n);
    let te = spec_entries(t);
    let se = spec_entries(s);
    assert forall|i: int| 0 <= i < te.len() implies 0 <= #[trigger] h[i] < se.len() && te[i].1
        == se[h[i]].1 && te[i].2 == se[h[i]].2 by {
        if i < m {
            assert(h[i] == f[i]);
        } else {
            assert(h[i] == g[i - m] + n);
        }
    }
    assert forall|i: int, j: int| 0 <= i < j < te.len() implies #[trigger] h[i] != #[trigger] h[j] by {
        if j < m {
            assert(h[i] == f[i] && h[j] == f[j]);
        } else if i < m {
            assert(h[i] == f[i] && h[j] == g[j - m] + n);
        } else {
            assert(h[i] == g[i - m] + n && h[j] == g[j - m] + n);
        }
    }
    h
}

/// Law: removing object properties or classes from a valid spec leaves a
/// valid spec.
pub proof fn removing_entries_keeps_valid(s: &CogitoSpec, t: &CogitoSpec)
    requires
        spec_validate(s) is Ok,
        is_subsequence(t.object_properties@, s.object_properties@),
        is_subsequence(t.classes@, s.classes@),
    ensures
        spec_validate(t) is Ok,
{
    let f = choose|f: Seq<int>| subsequence_by(t.object_properties@, s.object_properties@, f);
    let g = choose|g: Seq<int>| subsequence_by(t.classes@, s.classes@, g);
    let tp = t.object_properties@.map_values(|op: ObjectPropertyDef| property_entry(op));
    let sp = s.object_properties@.map_values(|op: ObjectPropertyDef| property_entry(op));
    let tc = t.classes@.map_values(|c: ClassDef| class_entry(c));
    let sc = s.classes@.map_values(|c: ClassDef| class_entry(c));
    assert forall|i: int| 0 <= i < tp.len() implies (#[trigger] tp[i]).1 == sp[f[i]].1 && tp[i].2
        == sp[f[i]].2 by {
        assert(t.object_properties@[i] == s.object_properties@[f[i]]);
    }
    assert forall|i: int, j: int| 0 <= i < j < tp.len() implies #[trigger] f[i] != #[trigger] f[j] by {
        assert(f[i] < f[j]);
    }
    assert forall|i: int| 0 <= i < tc.len() implies (#[trigger] tc[i]).1 == sc[g[i]].1 && tc[i].2
        == sc[g[i]].2 by {
        assert(t.classes@[i] == s.classes@[g[i]]);
    }
    assert forall|i: int, j: int| 0 <= i < j < tc.len() implies #[trigger] g[i] != #[trigger] g[j] by {
        assert(g[i] < g[j]);
    }
    let h = lemma_spec_embed(t, s, f, g);
    lemma_validate_entries_ok(spec_entries(s));
    lemma_well_formed_embed(spec_entries(t), spec_entries(s), h);
    lemma_validate_entries_ok(spec_entries(t));
}

/// The inverse of a bijection of `0..n`, as an embedding the other way.
proof fn lemma_permutation_inverse(t: Seq<Entry>, s: Seq<Entry>, p: Seq<int>) -> (q: Seq<int>)
    requires
        same_names_permuted(t, s, p),
    ensures
        entries_embed(s, t, q),
{
    let n = s.len();
    let q = Seq::new(n, |k: int| choose|i: int| 0 <= i < n && p[i] == k);
    assert forall|k: int| 0 <= k < n implies 0 <= #[trigger] q[k] < n && p[q[k]] == k by {
        assert(index_hit(p, k));
    }
    assert forall|k: int| 0 <= k < n implies (#[trigger] s[k]).1 == t[q[k]].1 && s[k].2 == t[q[k]].2 by {
        assert(p[q[k]] == k);
        assert(t[q[k]].1 == s[p[q[k]]].1);
    }
    assert forall|k: int, l: int| 0 <= k < l < n implies #[trigger] q[k] != #[trigger] q[l] by {
        assert(p[q[k]] == k && p[q[l]] == l);
    }
    q
}

/// Law: validity depends only on the IRIs and labels of the object
/// properties and the classes, not on their order nor on any other field:
/// a spec whose object properties and classes list the same IRIs and labels,
/// each list permuted, is valid exactly when the first one is.
pub proof fn validity_ignores_order_and_other_fields(
    s: &CogitoSpec,
    t: &CogitoSpec,
    p: Seq<int>,
    q: Seq<int>,
)
    requires
        same_names_permuted(
            t.object_properties@.map_values(|op: ObjectPropertyDef| property_entry(op)),
            s.object_properties@.map_values(|op: ObjectPropertyDef| property_entry(op)),
            p,
        ),
        same_names_permuted(
            t.classes@.map_values(|c: ClassDef| class_entry(c)),
            s.classes@.map_values(|c: ClassDef| class_entry(c)),
            q,
        ),
    ensures
        spec_validate(t) is Ok <==> spec_validate(s) is Ok,
{
    let tp = t.object_properties@.map_values(|op: ObjectPropertyDef| property_entry(op));
    let sp = s.object_properties@.map_values(|op: ObjectPropertyDef| property_entry(op));
    let tc = t.classes@.map_values(|c: ClassDef| class_entry(c));
    let sc = s.classes@.map_values(|c: ClassDef| class_entry(c));
    let pi = lemma_permutation_inverse(tp, sp, p);
    let qi = lemma_permutation_inverse(tc, sc, q);
    let forward = lemma_spec_embed(t, s, p, q);
    let backward = lemma_spec_embed(s, t, pi, qi);
    lemma_validate_entries_ok(spec_entries(s));
    lemma_validate_entries_ok(spec_entries(t));
    if entries_well_formed(spec_entries(s)) {
        lemma_well_formed_embed(spec_entries(t), spec_entries(s), forward);
    }
    if entries_well_formed(spec_entries(t)) {
        lemma_well_formed_embed(spec_entries(s), spec_entries(t), backward);
    }
}

fn contains_string(v: &Vec<String>, s: &String) -> (r: bool)
    ensures
        r == v@.map_values(|x: String| x@).contains(s@),
{
    let mut i: usize = 0;
    while i < v.len()
        invariant
            i <= v.len(),
            forall|j: int| 0 <= j < i ==> v@[j]@ != s@,
        decreases v.len() - i,
    {
        if v[i] == *s {
            assert(v@.map_values(|x: String| x@)[i as int] == s@);
            return true;
        }
        i += 1;
    }
    proof {
        if v@.map_values(|x: String| x@).contains(s@) {
            let mv = v@.map_values(|x: String| x@);
            let k = choose|k: int| 0 <= k < mv.len() && #[trigger] mv[k] == s@;
            assert(v@[k]@ == s@);
        }
    }
    false
}

/// Once a prefix of the entries fails, the whole sequence fails the same way.
proof fn lemma_validate_prefix(es: Seq<Entry>, n: int)
    requires
        0 <= n <= es.len(),
        validate_entries(es.take(n)) is Err,
    ensures
        validate_entries(es) == validate_entries(es.take(n)),
    decreases es.len() - n,
{
    if n < es.len() {
        assert(es.take(n + 1).drop_last() =~= es.take(n));
        lemma_validate_prefix(es, n + 1);
    } else {
        assert(es.take(n) =~= es);
    }
}

proof fn lemma_entries_push(es: Seq<Entry>, e: Entry)
    ensures
        es.push(e).drop_last() == es,
        es.push(e).last() == e,
        entry_iris(es.push(e)) == entry_iris(es).push(e.1),
{
    assert(es.push(e).drop_last() =~= es);
    assert(entry_iris(es.push(e)) =~= entry_iris(es).push(e.1));
}

/// Validate the spec — check for duplicate IRIs and required fields.
pub fn validate(spec: &CogitoSpec) -> (r: Result<(), SpecError>)
    ensures
        r is Ok <==> spec_validate(spec) is Ok,
        r matches Err(e) ==> spec_validate(spec) == Err::<(), SpecErrorModel>(e.model()),
{
    let mut iris: Vec<String> = Vec::new();
    let ghost ops = spec.object_properties@.map_values(|op: ObjectPropertyDef| property_entry(op));
    let ghost cls = spec.classes@.map_values(|c: ClassDef| class_entry(c));
    let mut i: usize = 0;
    assert(iris@.map_values(|x: String| x@) =~= entry_iris(ops.take(0)));
    while i < spec.object_properties.len()
        invariant
            i <= spec.object_properties.len(),
            ops == spec.object_properties@.map_values(|op: ObjectPropertyDef| property_entry(op)),
            cls == spec.classes@.map_values(|c: ClassDef| class_entry(c)),
            validate_entries(ops.take(i as int)) is Ok,
            iris@.map_values(|x: String| x@) == entry_iris(ops.take(i as int)),
        decreases spec.object_properties.len() - i,
    {
        let op = &spec.object_properties[i];
        proof {
            assert((ops + cls).take(i + 1) =~= ops.take(i + 1));
            if validate_entries(ops.take(i + 1)) is Err {
                lemma_validate_prefix(ops + cls, i + 1);
            }
            lemma_entries_push(ops.take(i as int), ops[i as int]);
            assert(ops.take(i as int).push(ops[i as int]) == ops.take(i + 1));
        }
        if op.iri.as_str().is_empty() {
            return Err(SpecError::EmptyPropertyIri);
        }
        if op.label.as_str().is_empty() {
            return Err(SpecError::EmptyPropertyLabel(op.iri.clone()));
        }
        if contains_string(&iris, &op.iri) {
            return Err(SpecError::DuplicateIri(op.iri.clone()));
        }
        iris.push(op.iri.clone());
        proof {
            assert(iris@.map_values(|x: String| x@) =~= entry_iris(ops.take(i as int)).push(op.iri@));
        }
        i += 1;
    }
    assert(ops.take(i as int) == ops);
    let mut k: usize = 0;
    while k < spec.classes.len()
        invariant
            k <= spec.classes.len(),
            ops == spec.object_properties@.map_values(|op: ObjectPropertyDef| property_entry(op)),
            cls == spec.classes@.map_values(|c: ClassDef| class_entry(c)),
            validate_entries(ops + cls.take(k as int)) is Ok,
            iris@.map_values(|x: String| x@) == entry_iris(ops + cls.take(k as int)),
        decreases spec.classes.len() - k,
    {
        let c = &spec.classes[k];
        proof {
            assert((ops + cls).take(ops.len() + k + 1) =~= ops + cls.take(k + 1));
            if validate_entries(ops + cls.take(k + 1)) is Err {
                lemma_validate_prefix(ops + cls, ops.len() + k + 1);
            }
            lemma_entries_push(ops + cls.take(k as int), cls[k as int]);
            assert((ops + cls.take(k as int)).push(cls[k as int]) == ops + cls.take(k + 1));
        }
        if c.iri.as_str().is_empty() {
            return Err(SpecError::EmptyClassIri);
        }
        if c.label.as_str().is_empty() {
            return Err(SpecError::EmptyClassLabel(c.iri.clone()));
        }
        if contains_string(&iris, &c.iri) {
            return Err(SpecError::DuplicateIri(c.iri.clone()));
        }
        iris.push(c.iri.clone());
        proof {
            assert(iris@.map_values(|x: String| x@) =~= entry_iris(ops + cls.take(k as int)).push(c.iri@));
        }
        k += 1;
    }
    assert(cls.take(k as int) == cls);
    assert(spec_entries(spec) == ops + cls);
    Ok(())
}

/// Why loading a spec failed.
#[derive(Debug, PartialEq, Eq)]
pub enum LoadError {
    /// The spec text did not parse; the parser's message.
    Parse(String),
    /// The spec parsed but [`validate`] refused it.
    Invalid(SpecError),
}

/// Load the spec from the result of parsing its text: a parse failure is
/// reported as such; a parsed spec is returned when [`validate`] accepts it.
pub fn load(parsed: Result<CogitoSpec, String>) -> (r: Result<CogitoSpec, LoadError>)
    ensures
        match parsed {
            Err(m) => r matches Err(LoadError::Parse(m2)) && m2 == m,
            Ok(s) => match spec_validate(&s) {
                Ok(_) => r == Ok::<CogitoSpec, LoadError>(s),
                Err(e) => r matches Err(LoadError::Invalid(ve)) && ve.model() == e,
            },
        },
{
    match parsed {
        Err(m) => Err(LoadError::Parse(m)),
        Ok(spec) => match validate(&spec) {
            Ok(()) => Ok(spec),
            Err(e) => Err(LoadError::Invalid(e)),
        },
    }
}

} // verus!

//! Provenance metadata: the three-field record attached to every value, its handle in a
//! store, and the plain-string form used at the library's boundary.
//!
//! Every value can carry metadata with three fields:
//! - **producers**: the data sources that contributed to the value (union on merge)
//! - **consumers**: the parties allowed to see the value (intersection on merge)
//! - **tags**: classification labels (union on merge)
use std::collections::BTreeSet;
use vstd::prelude::*;
use crate::label_set::{LabelSet, LabelKey, union_view, inter_view, view_below};
use crate::label_vec::fits_labels;
use crate::object::MontyObject;

verus! {

/// The view of a label set: `None` is the universal set.
pub type LabelView = Option<Set<u32>>;

/// The view of a [`Metadata`] record: producers, consumers, tags.
pub type MetaView = (LabelView, LabelView, LabelView);

/// The plain-value representation of a [`Metadata`] record; two records are `==` in Rust
/// exactly when their keys are equal.
pub type MetaKey = (LabelKey, LabelKey, LabelKey);

/// The view of the default metadata: no producers, universal consumers, no tags.
pub open spec fn default_view() -> MetaView {
    (Some(Set::empty()), None, Some(Set::empty()))
}

/// The propagation rule: producers and tags are united, consumers intersected.
pub open spec fn merge_view(a: MetaView, b: MetaView) -> MetaView {
    (union_view(a.0, b.0), inter_view(a.1, b.1), union_view(a.2, b.2))
}

/// Every label id in `m` is below `n`.
pub open spec fn meta_below(m: MetaView, n: int) -> bool {
    view_below(m.0, n) && view_below(m.1, n) && view_below(m.2, n)
}

/// The default metadata is an identity of [`merge_view`] on both sides.
pub proof fn lemma_merge_view_default(x: MetaView)
    ensures
        merge_view(default_view(), x) == x,
        merge_view(x, default_view()) == x,
{
    if let Some(p) = x.0 {
        assert(Set::<u32>::empty().union(p) =~= p);
        assert(p.union(Set::<u32>::empty()) =~= p);
    }
    if let Some(t) = x.2 {
        assert(Set::<u32>::empty().union(t) =~= t);
        assert(t.union(Set::<u32>::empty()) =~= t);
    }
}

/// Merging keeps a bound on the label ids.
pub proof fn lemma_merge_view_below(a: MetaView, b: MetaView, n: int)
    requires
        meta_below(a, n),
        meta_below(b, n),
    ensures
        meta_below(merge_view(a, b), n),
{
    lemma_union_below(a.0, b.0, n);
    lemma_inter_below(a.1, b.1, n);
    lemma_union_below(a.2, b.2, n);
}

proof fn lemma_union_below(a: LabelView, b: LabelView, n: int)
    requires
        view_below(a, n),
        view_below(b, n),
    ensures
        view_below(union_view(a, b), n),
{
    if let (Some(x), Some(y)) = (a, b) {
        assert(view_below(Some(x), n) && view_below(Some(y), n));
        let u = union_view(a, b)->0;
        assert(u == x.union(y));
        assert forall|v: u32| u.contains(v) implies v < n by {
            let xx = Some(x)->0;
            let yy = Some(y)->0;
            assert(xx == x && yy == y);
        }
    }
}

proof fn lemma_inter_below(a: LabelView, b: LabelView, n: int)
    requires
        view_below(a, n),
        view_below(b, n),
    ensures
        view_below(inter_view(a, b), n),
{
    if let (Some(x), Some(y)) = (a, b) {
        assert(view_below(Some(x), n));
        let u = inter_view(a, b)->0;
        assert(u == x.intersect(y));
        assert forall|v: u32| u.contains(v) implies v < n by {
            let xx = Some(x)->0;
            assert(xx == x);
        }
    }
}

/// Provenance metadata attached to a value.
///
/// Each field uses set algebra during propagation:
/// - `producers` accumulates via **union**
/// - `consumers` restricts via **intersection**
/// - `tags` accumulates via **union**
#[derive(Debug, PartialEq, Eq, Hash)]
pub struct Metadata {
    /// Data sources that contributed to this value.
    pub producers: LabelSet,
    /// Authorized consumers of this value. Universal by default (no restriction).
    pub consumers: LabelSet,
    /// Classification labels on this value.
    pub tags: LabelSet,
}

impl View for Metadata {
    type V = MetaView;

    open spec fn view(&self) -> MetaView {
        (self.producers@, self.consumers@, self.tags@)
    }
}

impl Metadata {
    /// All three label sets are well formed.
    pub open spec fn wf(&self) -> bool {
        self.producers.wf() && self.consumers.wf() && self.tags.wf()
    }

    /// The representation of this record as plain values.
    pub open spec fn key(&self) -> MetaKey {
        (self.producers.key(), self.consumers.key(), self.tags.key())
    }

    /// The label vectors of the two records are small enough to be merged.
    pub open spec fn merge_fits(&self, other: &Self) -> bool {
        &&& fits_labels(self.producers.ids().len() + other.producers.ids().len() as int)
        &&& fits_labels(self.consumers.ids().len() + other.consumers.ids().len() as int)
        &&& fits_labels(self.tags.ids().len() + other.tags.ids().len() as int)
    }

    /// Creates the default metadata: empty producers, universal consumers, empty tags.
    ///
    /// This represents a value with no provenance restrictions: it came from nowhere
    /// specific, anyone can see it, and it has no labels.
    pub fn default_metadata() -> (m: Self)
        ensures
            m.wf(),
            m@ == default_view(),
    {
        let m = Self {
            producers: LabelSet::empty(),
            consumers: LabelSet::universal(),
            tags: LabelSet::empty(),
        };
        assert(m.producers@ == Some(Set::<u32>::empty()));
        assert(m.tags@ == Some(Set::<u32>::empty()));
        m
    }

    /// Merges two metadata records according to the propagation rules:
    /// producers by union, consumers by intersection, tags by union.
    pub fn merge(&self, other: &Self) -> (m: Self)
        requires
            self.wf(),
            other.wf(),
            self.merge_fits(other),
        ensures
            m.wf(),
            m@ == merge_view(self@, other@),
    {
        Self {
            producers: self.producers.union(&other.producers),
            consumers: self.consumers.intersection(&other.consumers),
            tags: self.tags.union(&other.tags),
        }
    }

    /// A copy of this record.
    pub fn duplicate(&self) -> (m: Self)
        ensures
            m@ == self@,
            m.key() == self.key(),
            m.wf() == self.wf(),
    {
        Self {
            producers: self.producers.duplicate(),
            consumers: self.consumers.duplicate(),
            tags: self.tags.duplicate(),
        }
    }
}

/// A handle referencing interned [`Metadata`] in a
/// [`MetadataStore`](crate::store::MetadataStore).
///
/// `MetadataId(0)` always points to the default metadata.
#[derive(Debug, Clone, Copy, PartialEq, Eq, Hash)]
pub struct MetadataId(pub u32);

impl MetadataId {
    /// Returns `true` if this is the default metadata.
    pub fn is_default(self) -> (r: bool)
        ensures
            r == (self.0 == 0),
    {
        self.0 == 0
    }
}

impl Default for MetadataId {
    /// The default metadata id (index 0 in every store).
    fn default() -> (r: Self)
        ensures
            r.0 == 0,
    {
        MetadataId(0)
    }
}

/// The view of one [`ObjectMetadata`] field: `None` is the universal set.
pub type NameSetView = Option<Set<Seq<char>>>;

/// The view of an [`ObjectMetadata`]: producers, consumers, tags.
pub type ObjView = (NameSetView, NameSetView, NameSetView);

/// The strings held by an optional set, `None` standing for the universal set.
pub open spec fn name_set_view(f: Option<BTreeSet<String>>) -> NameSetView {
    match f {
        None => None,
        Some(s) => Some(s.deep_view()),
    }
}

/// The view of the default [`ObjectMetadata`]: no producers, universal consumers, no tags.
pub open spec fn default_obj_view() -> ObjView {
    (Some(Set::empty()), None, Some(Set::empty()))
}

/// Metadata representation used at the library's boundary, with plain strings in place of
/// interned label ids.
///
/// Each field uses `None` to represent the universal set.
#[derive(Debug, Clone, PartialEq, Eq)]
pub struct ObjectMetadata {
    /// Data sources that contributed to this value. `None` means every source.
    pub producers: Option<BTreeSet<String>>,
    /// Authorized consumers. `None` means universal (no restrictions).
    pub consumers: Option<BTreeSet<String>>,
    /// Classification labels. `None` means every label.
    pub tags: Option<BTreeSet<String>>,
}

impl View for ObjectMetadata {
    type V = ObjView;

    open spec fn view(&self) -> ObjView {
        (name_set_view(self.producers), name_set_view(self.consumers), name_set_view(self.tags))
    }
}

impl Default for ObjectMetadata {
    /// No producers, universal consumers, no tags.
    fn default() -> (r: Self)
        ensures
            r@ == default_obj_view(),
    {
        let p: BTreeSet<String> = BTreeSet::new();
        let t: BTreeSet<String> = BTreeSet::new();
        let r = ObjectMetadata { producers: Some(p), consumers: None, tags: Some(t) };
        assert(p.deep_view() =~= Set::<Seq<char>>::empty());
        assert(t.deep_view() =~= Set::<Seq<char>>::empty());
        r
    }
}

/// A [`MontyObject`] paired with optional metadata.
///
/// When metadata is `None`, the value has default provenance (no producers, universal
/// consumers, no tags).
#[derive(Debug, PartialEq)]
pub struct AnnotatedObject {
    /// The value.
    pub value: MontyObject,
    /// Optional provenance metadata. `None` means default (no restrictions).
    pub metadata: Option<ObjectMetadata>,
}

impl AnnotatedObject {
    /// Creates a new annotated object with the given metadata.
    pub fn new(value: MontyObject, metadata: Option<ObjectMetadata>) -> (r: Self)
        ensures
            r.value == value,
            r.metadata == metadata,
    {
        Self { value, metadata }
    }
}

impl From<MontyObject> for AnnotatedObject {
    /// An annotated object with no metadata.
    fn from(value: MontyObject) -> (r: Self)
        ensures
            r.value == value,
            r.metadata is None,
    {
        Self { value, metadata: None }
    }
}

impl vstd::std_specs::convert::FromSpecImpl<MontyObject> for AnnotatedObject {
    open spec fn obeys_from_spec() -> bool {
        true
    }

    open spec fn from_spec(value: MontyObject) -> Self {
        AnnotatedObject { value, metadata: None }
    }
}

} // verus!

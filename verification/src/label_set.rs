//! `LabelSet`: a compact set of label ids that can also be the universal set.
//!
//! The universal set (`is_universal = true`) has its own algebra:
//! - `union(universal, s) = universal`
//! - `intersection(universal, s) = s`
//!
//! When not universal, the ids are stored strictly increasing, so every set of ids has
//! exactly one representation.
use vstd::prelude::*;
use crate::label_vec::{
    LabelId, LabelVec, label_vec_items, fits_labels, label_vec_new, label_vec_with_capacity,
    label_vec_push, label_vec_extend_from, label_vec_from_slice, label_vec_as_slice, label_vec_clone,
};

verus! {

// ---------------------------------------------------------------------------
// Sequences of label ids
// ---------------------------------------------------------------------------

/// The ids of `s` increase strictly from left to right.
pub open spec fn strictly_sorted(s: Seq<LabelId>) -> bool {
    forall|i: int, j: int| 0 <= i < j < s.len() ==> s[i].0 < s[j].0
}

/// The id `x` occurs in `s`.
pub open spec fn has_id(s: Seq<LabelId>, x: u32) -> bool {
    exists|k: int| 0 <= k < s.len() && s[k].0 == x
}

/// The set of ids that occur in `s`.
pub open spec fn id_set(s: Seq<LabelId>) -> Set<u32> {
    Set::new(|x: u32| has_id(s, x))
}

/// Every id of `s` is below `n`.
pub open spec fn ids_below(s: Seq<LabelId>, n: int) -> bool {
    forall|k: int| 0 <= k < s.len() ==> s[k].0 < n
}

/// The sorted merge of two sorted sequences, keeping one copy of the ids they share.
pub open spec fn union_seq(a: Seq<LabelId>, b: Seq<LabelId>) -> Seq<LabelId>
    decreases a.len() + b.len(),
{
    if a.len() == 0 {
        b
    } else if b.len() == 0 {
        a
    } else if a[0].0 < b[0].0 {
        seq![a[0]] + union_seq(a.drop_first(), b)
    } else if b[0].0 < a[0].0 {
        seq![b[0]] + union_seq(a, b.drop_first())
    } else {
        seq![a[0]] + union_seq(a.drop_first(), b.drop_first())
    }
}

/// The ids that two sorted sequences share, in order.
pub open spec fn inter_seq(a: Seq<LabelId>, b: Seq<LabelId>) -> Seq<LabelId>
    decreases a.len() + b.len(),
{
    if a.len() == 0 || b.len() == 0 {
        Seq::empty()
    } else if a[0].0 < b[0].0 {
        inter_seq(a.drop_first(), b)
    } else if b[0].0 < a[0].0 {
        inter_seq(a, b.drop_first())
    } else {
        seq![a[0]] + inter_seq(a.drop_first(), b.drop_first())
    }
}

/// Union of two label sets where `None` stands for the universal set.
pub open spec fn union_view(a: Option<Set<u32>>, b: Option<Set<u32>>) -> Option<Set<u32>> {
    match (a, b) {
        (Some(x), Some(y)) => Some(x.union(y)),
        _ => None,
    }
}

/// Intersection of two label sets where `None` stands for the universal set.
pub open spec fn inter_view(a: Option<Set<u32>>, b: Option<Set<u32>>) -> Option<Set<u32>> {
    match (a, b) {
        (None, y) => y,
        (x, None) => x,
        (Some(x), Some(y)) => Some(x.intersect(y)),
    }
}

/// Every label of a set view is below `n`; the universal set counts as below any bound,
/// since it stores no ids.
pub open spec fn view_below(v: Option<Set<u32>>, n: int) -> bool {
    match v {
        None => true,
        Some(s) => forall|x: u32| s.contains(x) ==> x < n,
    }
}

/// The representation of a label set as plain values: the universal flag and the stored ids.
/// Two label sets are `==` in Rust exactly when their keys are equal.
pub type LabelKey = (bool, Seq<u32>);

proof fn lemma_drop_first(s: Seq<LabelId>)
    requires
        s.len() > 0,
    ensures
        forall|x: u32| has_id(s, x) <==> (s[0].0 == x || has_id(s.drop_first(), x)),
        strictly_sorted(s) ==> strictly_sorted(s.drop_first()),
        strictly_sorted(s) ==> forall|x: u32| has_id(s.drop_first(), x) ==> s[0].0 < x,
{
    let t = s.drop_first();
    assert forall|x: u32| has_id(s, x) implies (s[0].0 == x || has_id(t, x)) by {
        let k = choose|k: int| 0 <= k < s.len() && s[k].0 == x;
        if k > 0 {
            assert(t[k - 1].0 == x);
        }
    }
    assert forall|x: u32| (s[0].0 == x || has_id(t, x)) implies has_id(s, x) by {
        if s[0].0 == x {
            assert(s[0].0 == x);
        } else {
            let k = choose|k: int| 0 <= k < t.len() && t[k].0 == x;
            assert(s[k + 1].0 == x);
        }
    }
    if strictly_sorted(s) {
        assert forall|x: u32| has_id(t, x) implies s[0].0 < x by {
            let k = choose|k: int| 0 <= k < t.len() && t[k].0 == x;
            assert(s[k + 1].0 == x);
        }
    }
}

proof fn lemma_cons(h: LabelId, t: Seq<LabelId>)
    ensures
        forall|x: u32| has_id(seq![h] + t, x) <==> (h.0 == x || has_id(t, x)),
        (strictly_sorted(t) && forall|x: u32| has_id(t, x) ==> h.0 < x) ==> strictly_sorted(
            seq![h] + t,
        ),
        (seq![h] + t).len() == t.len() + 1,
        (seq![h] + t).drop_first() == t,
        (seq![h] + t)[0] == h,
{
    let s = seq![h] + t;
    assert(s.drop_first() =~= t);
    lemma_drop_first(s);
    if strictly_sorted(t) && forall|x: u32| has_id(t, x) ==> h.0 < x {
        assert forall|i: int, j: int| 0 <= i < j < s.len() implies s[i].0 < s[j].0 by {
            if i == 0 {
                assert(t[j - 1] == s[j]);
                assert(has_id(t, s[j].0));
            } else {
                assert(t[i - 1] == s[i] && t[j - 1] == s[j]);
            }
        }
    }
}

/// `union_seq` of sorted sequences is sorted, holds exactly the ids of both inputs, and is
/// no longer than the two together.
pub proof fn lemma_union_seq(a: Seq<LabelId>, b: Seq<LabelId>)
    requires
        strictly_sorted(a),
        strictly_sorted(b),
    ensures
        strictly_sorted(union_seq(a, b)),
        forall|x: u32| has_id(union_seq(a, b), x) <==> (has_id(a, x) || has_id(b, x)),
        union_seq(a, b).len() <= a.len() + b.len(),
    decreases a.len() + b.len(),
{
    if a.len() == 0 {
        assert forall|x: u32| !has_id(a, x) by {}
    } else if b.len() == 0 {
        assert forall|x: u32| !has_id(b, x) by {}
    } else {
        lemma_drop_first(a);
        lemma_drop_first(b);
        if a[0].0 < b[0].0 {
            let t = union_seq(a.drop_first(), b);
            lemma_union_seq(a.drop_first(), b);
            assert forall|x: u32| has_id(t, x) implies a[0].0 < x by {
                if has_id(b, x) && b[0].0 != x {
                    assert(has_id(b.drop_first(), x));
                }
            }
            lemma_cons(a[0], t);
        } else if b[0].0 < a[0].0 {
            let t = union_seq(a, b.drop_first());
            lemma_union_seq(a, b.drop_first());
            assert forall|x: u32| has_id(t, x) implies b[0].0 < x by {
                if has_id(a, x) && a[0].0 != x {
                    assert(has_id(a.drop_first(), x));
                }
            }
            lemma_cons(b[0], t);
        } else {
            let t = union_seq(a.drop_first(), b.drop_first());
            lemma_union_seq(a.drop_first(), b.drop_first());
            assert forall|x: u32| has_id(t, x) implies a[0].0 < x by {
                if !has_id(a.drop_first(), x) {
                    assert(has_id(b.drop_first(), x));
                }
            }
            lemma_cons(a[0], t);
        }
    }
}

/// `inter_seq` of sorted sequences is sorted, holds exactly the ids both inputs share, and
/// is no longer than either input.
pub proof fn lemma_inter_seq(a: Seq<LabelId>, b: Seq<LabelId>)
    requires
        strictly_sorted(a),
        strictly_sorted(b),
    ensures
        strictly_sorted(inter_seq(a, b)),
        forall|x: u32| has_id(inter_seq(a, b), x) <==> (has_id(a, x) && has_id(b, x)),
        inter_seq(a, b).len() <= a.len(),
        inter_seq(a, b).len() <= b.len(),
    decreases a.len() + b.len(),
{
    if a.len() == 0 || b.len() == 0 {
        assert(inter_seq(a, b) =~= Seq::<LabelId>::empty());
        assert forall|x: u32| !has_id(inter_seq(a, b), x) by {}
        if a.len() == 0 {
            assert forall|x: u32| !has_id(a, x) by {}
        } else {
            assert forall|x: u32| !has_id(b, x) by {}
        }
    } else {
        lemma_drop_first(a);
        lemma_drop_first(b);
        if a[0].0 < b[0].0 {
            lemma_inter_seq(a.drop_first(), b);
            assert forall|x: u32| has_id(a, x) && has_id(b, x) implies has_id(a.drop_first(), x) by {
                if a[0].0 == x {
                    if b[0].0 != x {
                        assert(has_id(b.drop_first(), x));
                    }
                }
            }
        } else if b[0].0 < a[0].0 {
            lemma_inter_seq(a, b.drop_first());
            assert forall|x: u32| has_id(a, x) && has_id(b, x) implies has_id(b.drop_first(), x) by {
                if b[0].0 == x {
                    if a[0].0 != x {
                        assert(has_id(a.drop_first(), x));
                    }
                }
            }
        } else {
            let t = inter_seq(a.drop_first(), b.drop_first());
            lemma_inter_seq(a.drop_first(), b.drop_first());
            assert forall|x: u32| has_id(t, x) implies a[0].0 < x by {
                assert(has_id(a.drop_first(), x));
            }
            lemma_cons(a[0], t);
        }
    }
}

/// Two sorted sequences with the same ids are the same sequence.
pub proof fn lemma_sorted_canonical(s1: Seq<LabelId>, s2: Seq<LabelId>)
    requires
        strictly_sorted(s1),
        strictly_sorted(s2),
        forall|x: u32| has_id(s1, x) == has_id(s2, x),
    ensures
        s1 == s2,
    decreases s1.len(),
{
    if s1.len() == 0 {
        if s2.len() > 0 {
            assert(has_id(s2, s2[0].0));
        }
        assert(s1 =~= s2);
    } else {
        if s2.len() == 0 {
            assert(has_id(s1, s1[0].0));
        }
        lemma_drop_first(s1);
        lemma_drop_first(s2);
        assert(has_id(s1, s1[0].0));
        assert(has_id(s2, s2[0].0));
        assert(s1[0].0 == s2[0].0);
        assert forall|x: u32| has_id(s1.drop_first(), x) == has_id(s2.drop_first(), x) by {
            if has_id(s1.drop_first(), x) {
                assert(has_id(s2, x));
            }
            if has_id(s2.drop_first(), x) {
                assert(has_id(s1, x));
            }
        }
        lemma_sorted_canonical(s1.drop_first(), s2.drop_first());
        assert(s1 =~= seq![s1[0]] + s1.drop_first());
        assert(s2 =~= seq![s2[0]] + s2.drop_first());
    }
}

/// A sorted sequence of ids all below `n` has at most `n` elements.
pub proof fn lemma_sorted_len_bound(s: Seq<LabelId>, n: int)
    requires
        strictly_sorted(s),
        ids_below(s, n),
        0 <= n,
    ensures
        s.len() <= n,
    decreases s.len(),
{
    if s.len() > 0 {
        let last = s[s.len() - 1].0;
        let t = s.drop_last();
        assert forall|k: int| 0 <= k < t.len() implies t[k].0 < last by {
            assert(t[k] == s[k]);
        }
        assert(s[s.len() - 1].0 < n);
        assert(ids_below(t, last as int));
        assert(t.len() + 1 == s.len());
        lemma_sorted_len_bound(t, last as int);
        assert(t.len() <= last);
    }
}

// ---------------------------------------------------------------------------
// Sorted merge and intersection
// ---------------------------------------------------------------------------

/// Sorted merge (union) of two sorted slices, producing a deduplicated sorted vector.
pub fn sorted_union(a: &[LabelId], b: &[LabelId]) -> (r: LabelVec)
    requires
        strictly_sorted(a@),
        strictly_sorted(b@),
        fits_labels(a@.len() + b@.len() as int),
    ensures
        label_vec_items(r) == union_seq(a@, b@),
{
    let mut result = label_vec_with_capacity(a.len() + b.len());
    let mut i: usize = 0;
    let mut j: usize = 0;
    assert(a@.skip(0) =~= a@);
    assert(b@.skip(0) =~= b@);
    while i < a.len() && j < b.len()
        invariant
            i <= a@.len(),
            j <= b@.len(),
            strictly_sorted(a@),
            strictly_sorted(b@),
            fits_labels(a@.len() + b@.len() as int),
            label_vec_items(result).len() <= i + j,
            union_seq(a@, b@) == label_vec_items(result) + union_seq(a@.skip(i as int), b@.skip(j as int)),
        decreases a@.len() + b@.len() - i - j,
    {
        let ghost sa = a@.skip(i as int);
        let ghost sb = b@.skip(j as int);
        assert(sa[0] == a@[i as int] && sb[0] == b@[j as int]);
        assert(sa.drop_first() =~= a@.skip(i + 1));
        assert(sb.drop_first() =~= b@.skip(j + 1));
        if a[i].0 < b[j].0 {
            label_vec_push(&mut result, a[i]);
            i = i + 1;
        } else if b[j].0 < a[i].0 {
            label_vec_push(&mut result, b[j]);
            j = j + 1;
        } else {
            label_vec_push(&mut result, a[i]);
            i = i + 1;
            j = j + 1;
        }
    }
    let ghost mid = label_vec_items(result);
    label_vec_extend_from(&mut result, a, i);
    label_vec_extend_from(&mut result, b, j);
    proof {
        if i == a@.len() {
            assert(a@.skip(i as int) =~= Seq::<LabelId>::empty());
            assert(a@.subrange(i as int, a@.len() as int) =~= Seq::<LabelId>::empty());
            assert(b@.subrange(j as int, b@.len() as int) =~= b@.skip(j as int));
        } else {
            assert(b@.skip(j as int) =~= Seq::<LabelId>::empty());
            assert(b@.subrange(j as int, b@.len() as int) =~= Seq::<LabelId>::empty());
            assert(a@.subrange(i as int, a@.len() as int) =~= a@.skip(i as int));
        }
        assert(label_vec_items(result) =~= union_seq(a@, b@));
    }
    result
}

/// Sorted intersection of two sorted slices.
pub fn sorted_intersection(a: &[LabelId], b: &[LabelId]) -> (r: LabelVec)
    requires
        strictly_sorted(a@),
        strictly_sorted(b@),
        fits_labels(a@.len() + b@.len() as int),
    ensures
        label_vec_items(r) == inter_seq(a@, b@),
{
    let mut result = label_vec_new();
    let mut i: usize = 0;
    let mut j: usize = 0;
    assert(a@.skip(0) =~= a@);
    assert(b@.skip(0) =~= b@);
    while i < a.len() && j < b.len()
        invariant
            i <= a@.len(),
            j <= b@.len(),
            strictly_sorted(a@),
            strictly_sorted(b@),
            fits_labels(a@.len() + b@.len() as int),
            label_vec_items(result).len() <= i,
            inter_seq(a@, b@) == label_vec_items(result) + inter_seq(a@.skip(i as int), b@.skip(j as int)),
        decreases a@.len() + b@.len() - i - j,
    {
        let ghost sa = a@.skip(i as int);
        let ghost sb = b@.skip(j as int);
        assert(sa[0] == a@[i as int] && sb[0] == b@[j as int]);
        assert(sa.drop_first() =~= a@.skip(i + 1));
        assert(sb.drop_first() =~= b@.skip(j + 1));
        if a[i].0 < b[j].0 {
            i = i + 1;
        } else if b[j].0 < a[i].0 {
            j = j + 1;
        } else {
            label_vec_push(&mut result, a[i]);
            i = i + 1;
            j = j + 1;
        }
    }
    proof {
        assert(inter_seq(a@.skip(i as int), b@.skip(j as int)) =~= Seq::<LabelId>::empty());
        assert(label_vec_items(result) =~= inter_seq(a@, b@));
    }
    result
}

/// Inserts `x` into a strictly increasing vector of ids, keeping it strictly increasing;
/// an id already present is not added again.
pub fn insert_sorted(v: &mut Vec<LabelId>, x: LabelId)
    requires
        strictly_sorted(old(v)@),
    ensures
        strictly_sorted(final(v)@),
        forall|y: u32| has_id(final(v)@, y) <==> (has_id(old(v)@, y) || y == x.0),
        final(v)@.len() <= old(v)@.len() + 1,
{
    let ghost v0 = v@;
    let mut p: usize = 0;
    while p < v.len() && v[p].0 < x.0
        invariant
            p <= v@.len(),
            v@ == v0,
            strictly_sorted(v0),
            forall|k: int| 0 <= k < p ==> v0[k].0 < x.0,
        decreases v@.len() - p,
    {
        p = p + 1;
    }
    if p < v.len() && v[p].0 == x.0 {
        proof {
            assert forall|y: u32| has_id(v@, y) <==> (has_id(v0, y) || y == x.0) by {
                if y == x.0 {
                    assert(v0[p as int].0 == y);
                }
            }
        }
        return;
    }
    v.insert(p, x);
    proof {
        let w = v@;
        assert(w.len() == v0.len() + 1);
        assert forall|k: int| p < k < w.len() implies w[k] == v0[k - 1] && x.0 < w[k].0 by {
            assert(v0[p as int].0 > x.0);
            if k - 1 > p {
                assert(v0[p as int].0 < v0[k - 1].0);
            }
        }
        assert forall|k: int| 0 <= k < p implies w[k] == v0[k] by {}
        assert forall|i: int, j: int| 0 <= i < j < w.len() implies w[i].0 < w[j].0 by {
            if j < p {
            } else if j == p {
            } else if i < p {
                assert(w[i].0 < x.0);
            } else if i == p {
            } else {
                assert(v0[i - 1].0 < v0[j - 1].0);
            }
        }
        assert forall|y: u32| has_id(w, y) <==> (has_id(v0, y) || y == x.0) by {
            if has_id(w, y) {
                let k = choose|k: int| 0 <= k < w.len() && w[k].0 == y;
                if k < p {
                    assert(v0[k].0 == y);
                } else if k > p {
                    assert(v0[k - 1].0 == y);
                }
            }
            if has_id(v0, y) {
                let k = choose|k: int| 0 <= k < v0.len() && v0[k].0 == y;
                if k < p {
                    assert(w[k].0 == y);
                } else {
                    assert(w[k + 1].0 == y);
                }
            }
            if y == x.0 {
                assert(w[p as int].0 == y);
            }
        }
    }
}

// ---------------------------------------------------------------------------
// LabelSet
// ---------------------------------------------------------------------------

/// A set of [`LabelId`]s that can also represent the universal set.
///
/// When not universal, labels are stored sorted and deduplicated in a `SmallVec` that
/// inlines up to 2 elements.
#[derive(Debug, PartialEq, Eq, Hash)]
pub struct LabelSet {
    /// When `true`, this set contains every possible label; `labels` is then empty.
    is_universal: bool,
    /// Sorted, deduplicated label ids. Empty when `is_universal` is true.
    labels: LabelVec,
}

impl View for LabelSet {
    /// `None` is the universal set; `Some(s)` is the finite set `s`.
    type V = Option<Set<u32>>;

    open spec fn view(&self) -> Option<Set<u32>> {
        if self.univ() {
            None
        } else {
            Some(id_set(self.ids()))
        }
    }
}

impl LabelSet {
    /// Whether this is the universal set.
    pub closed spec fn univ(&self) -> bool {
        self.is_universal
    }

    /// The stored label ids, in storage order.
    pub closed spec fn ids(&self) -> Seq<LabelId> {
        label_vec_items(self.labels)
    }

    /// The representation invariant: the universal set stores no ids, and ids are
    /// strictly increasing.
    pub open spec fn wf(&self) -> bool {
        &&& self.univ() ==> self.ids().len() == 0
        &&& strictly_sorted(self.ids())
    }

    /// Creates an empty label set (no labels, not universal).
    pub fn empty() -> (s: Self)
        ensures
            s.wf(),
            !s.univ(),
            s.ids() == Seq::<LabelId>::empty(),
    {
        Self { is_universal: false, labels: label_vec_new() }
    }

    /// Creates the universal set that contains every label.
    pub fn universal() -> (s: Self)
        ensures
            s.wf(),
            s.univ(),
            s.ids() == Seq::<LabelId>::empty(),
    {
        Self { is_universal: true, labels: label_vec_new() }
    }

    /// Creates a label set from ids given in strictly increasing order.
    pub fn from_sorted(ids: &[LabelId]) -> (s: Self)
        requires
            strictly_sorted(ids@),
            fits_labels(ids@.len() as int),
        ensures
            s.wf(),
            !s.univ(),
            s.ids() == ids@,
    {
        Self { is_universal: false, labels: label_vec_from_slice(ids) }
    }

    /// Wraps an already sorted vector of ids.
    pub(crate) fn from_label_vec(ids: LabelVec) -> (s: Self)
        requires
            strictly_sorted(label_vec_items(ids)),
        ensures
            s.wf(),
            !s.univ(),
            s.ids() == label_vec_items(ids),
    {
        Self { is_universal: false, labels: ids }
    }

    /// Returns `true` if this is the universal set.
    pub fn is_universal(&self) -> (r: bool)
        ensures
            r == self.univ(),
    {
        self.is_universal
    }

    /// Returns `true` if this set contains no labels and is not universal.
    pub fn is_empty(&self) -> (r: bool)
        ensures
            r == (!self.univ() && self.ids().len() == 0),
    {
        !self.is_universal && label_vec_as_slice(&self.labels).len() == 0
    }

    /// Returns the labels in this set, or `None` if this is the universal set.
    pub fn labels(&self) -> (r: Option<&[LabelId]>)
        ensures
            r is None <==> self.univ(),
            r matches Some(s) ==> s@ == self.ids(),
    {
        if self.is_universal {
            None
        } else {
            Some(label_vec_as_slice(&self.labels))
        }
    }

    /// A copy of this set.
    pub fn duplicate(&self) -> (r: Self)
        ensures
            r.univ() == self.univ(),
            r.ids() == self.ids(),
            r.key() == self.key(),
            r@ == self@,
    {
        Self { is_universal: self.is_universal, labels: label_vec_clone(&self.labels) }
    }

    /// Computes the union of two label sets.
    ///
    /// If either set is universal, the result is universal.
    /// Otherwise, the result is the sorted merge of both label vectors.
    pub fn union(&self, other: &Self) -> (r: Self)
        requires
            self.wf(),
            other.wf(),
            fits_labels(self.ids().len() + other.ids().len() as int),
        ensures
            r.wf(),
            r.univ() == (self.univ() || other.univ()),
            !r.univ() ==> r.ids() == union_seq(self.ids(), other.ids()),
            r@ == union_view(self@, other@),
    {
        if self.is_universal || other.is_universal {
            return Self::universal();
        }
        let a = label_vec_as_slice(&self.labels);
        let b = label_vec_as_slice(&other.labels);
        let merged = sorted_union(a, b);
        proof {
            lemma_union_seq(self.ids(), other.ids());
            assert(id_set(union_seq(self.ids(), other.ids())) =~= id_set(self.ids()).union(
                id_set(other.ids()),
            ));
        }
        Self::from_label_vec(merged)
    }

    /// Computes the intersection of two label sets.
    ///
    /// - Both universal -> universal
    /// - One universal -> the other set (copied)
    /// - Otherwise -> sorted intersection of both label vectors
    pub fn intersection(&self, other: &Self) -> (r: Self)
        requires
            self.wf(),
            other.wf(),
            fits_labels(self.ids().len() + other.ids().len() as int),
        ensures
            r.wf(),
            r.univ() == (self.univ() && other.univ()),
            r.ids() == (if self.univ() {
                other.ids()
            } else if other.univ() {
                self.ids()
            } else {
                inter_seq(self.ids(), other.ids())
            }),
            r@ == inter_view(self@, other@),
    {
        if self.is_universal && other.is_universal {
            return Self::universal();
        }
        if self.is_universal {
            return other.duplicate();
        }
        if other.is_universal {
            return self.duplicate();
        }
        let a = label_vec_as_slice(&self.labels);
        let b = label_vec_as_slice(&other.labels);
        let common = sorted_intersection(a, b);
        proof {
            lemma_inter_seq(self.ids(), other.ids());
            assert(id_set(inter_seq(self.ids(), other.ids())) =~= id_set(self.ids()).intersect(
                id_set(other.ids()),
            ));
        }
        Self::from_label_vec(common)
    }
}


impl LabelSet {
    /// The plain-value representation of this set (see [`LabelKey`]).
    pub closed spec fn key(&self) -> LabelKey {
        (self.is_universal, label_vec_items(self.labels).map_values(|l: LabelId| l.0))
    }
}

/// Well-formed label sets with the same view have the same representation.
pub proof fn lemma_label_set_canonical(a: LabelSet, b: LabelSet)
    requires
        a.wf(),
        b.wf(),
        a@ == b@,
    ensures
        a.key() == b.key(),
        a.ids() == b.ids(),
        a.univ() == b.univ(),
{
    if a.univ() {
        assert(a.ids() =~= b.ids());
    } else {
        assert forall|x: u32| has_id(a.ids(), x) == has_id(b.ids(), x) by {
            assert(id_set(a.ids()).contains(x) == has_id(a.ids(), x));
            assert(id_set(b.ids()).contains(x) == has_id(b.ids(), x));
        }
        lemma_sorted_canonical(a.ids(), b.ids());
    }
    assert(a.key().1 =~= b.key().1);
}

/// Label sets with the same representation have the same view.
pub proof fn lemma_label_set_key_view(a: LabelSet, b: LabelSet)
    requires
        a.key() == b.key(),
    ensures
        a@ == b@,
        a.univ() == b.univ(),
        a.ids() == b.ids(),
{
    let ka = a.key().1;
    let kb = b.key().1;
    assert(ka.len() == a.ids().len() && kb.len() == b.ids().len());
    assert forall|i: int| 0 <= i < a.ids().len() implies a.ids()[i] == b.ids()[i] by {
        assert(ka[i] == a.ids()[i].0);
        assert(kb[i] == b.ids()[i].0);
    }
    assert(a.ids() =~= b.ids());
}

/// A well-formed label set whose labels are all below `n` stores at most `n` ids.
pub proof fn lemma_label_set_len(s: LabelSet, n: int)
    requires
        s.wf(),
        view_below(s@, n),
        0 <= n,
    ensures
        s.ids().len() <= n,
        ids_below(s.ids(), n),
{
    if !s.univ() {
        let v = id_set(s.ids());
        lemma_view_below_some(v, n);
        assert forall|k: int| 0 <= k < s.ids().len() implies s.ids()[k].0 < n by {
            assert(has_id(s.ids(), s.ids()[k].0));
            assert(v.contains(s.ids()[k].0));
        }
        lemma_sorted_len_bound(s.ids(), n);
    }
}

proof fn lemma_view_below_some(v: Set<u32>, n: int)
    requires
        view_below(Some(v), n),
    ensures
        forall|x: u32| v.contains(x) ==> x < n,
{
    let w = Some(v)->0;
    assert(w == v);
}

} // verus!

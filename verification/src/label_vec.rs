//! Inline storage for the sorted label ids of a [`LabelSet`](crate::label_set::LabelSet).
//!
//! The ids live in a `smallvec::SmallVec<[LabelId; 2]>`, which keeps the common case of
//! zero to two labels per field off the heap. The vector is held in a private field of an
//! opaque struct; its contents are named by [`label_vec_items`], and every operation the
//! library performs on it goes through one of the small functions below, whose contracts
//! restate what `smallvec` does.
use vstd::prelude::*;

verus! {

/// An interned identifier for a metadata label string.
///
/// `LabelId(0)` is reserved for the `"*"` wildcard label.
#[derive(Debug, Clone, Copy, PartialEq, Eq, Hash, PartialOrd, Ord)]
pub struct LabelId(pub u32);

impl LabelId {
    /// The wildcard label, always interned at index 0 of a store.
    pub fn wildcard() -> (id: LabelId)
        ensures
            id.0 == 0,
    {
        LabelId(0)
    }
}

/// Holds a `smallvec::SmallVec<[LabelId; 2]>`.
#[verifier::external_body]
#[derive(Debug, PartialEq, Eq, Hash)]
pub struct LabelVec {
    inner: smallvec::SmallVec<[LabelId; 2]>,
}

/// The ids held by a [`LabelVec`], in storage order.
pub uninterp spec fn label_vec_items(v: LabelVec) -> Seq<LabelId>;

/// A length `n` of label storage that can be allocated without the capacity
/// computation of `SmallVec` overflowing: `SmallVec` grows to the next power of two,
/// and `LabelId` takes four bytes, so eight bytes per id is enough head room.
pub open spec fn fits_labels(n: int) -> bool {
    n * 8 <= isize::MAX
}

/// `SmallVec::new`: an empty vector.
#[verifier::external_body]
pub(crate) fn label_vec_new() -> (v: LabelVec)
    ensures
        label_vec_items(v).len() == 0,
{
    LabelVec { inner: smallvec::SmallVec::new() }
}

/// `SmallVec::with_capacity`: an empty vector; it panics only when `n` ids would not fit
/// in memory (capacity overflow), which the precondition rules out.
#[verifier::external_body]
pub(crate) fn label_vec_with_capacity(n: usize) -> (v: LabelVec)
    requires
        fits_labels(n as int),
    ensures
        label_vec_items(v).len() == 0,
{
    LabelVec { inner: smallvec::SmallVec::with_capacity(n) }
}

/// `SmallVec::push`: appends `x` at the end.
#[verifier::external_body]
pub(crate) fn label_vec_push(v: &mut LabelVec, x: LabelId)
    requires
        fits_labels(label_vec_items(*old(v)).len() + 1int),
    ensures
        label_vec_items(*final(v)) == label_vec_items(*old(v)).push(x),
{
    v.inner.push(x)
}

/// `SmallVec::extend_from_slice`, applied to the tail of `s` that starts at `start`:
/// appends `s[start..]` in order.
#[verifier::external_body]
pub(crate) fn label_vec_extend_from(v: &mut LabelVec, s: &[LabelId], start: usize)
    requires
        start <= s@.len(),
        fits_labels(label_vec_items(*old(v)).len() + s@.len() - start),
    ensures
        label_vec_items(*final(v)) == label_vec_items(*old(v)) + s@.subrange(start as int, s@.len() as int),
{
    v.inner.extend_from_slice(&s[start..])
}

/// `SmallVec::from_slice`: a vector holding a copy of `s`.
#[verifier::external_body]
pub(crate) fn label_vec_from_slice(s: &[LabelId]) -> (v: LabelVec)
    requires
        fits_labels(s@.len() as int),
    ensures
        label_vec_items(v) == s@,
{
    LabelVec { inner: smallvec::SmallVec::from_slice(s) }
}

/// `SmallVec::as_slice`: the stored ids as a slice.
#[verifier::external_body]
pub(crate) fn label_vec_as_slice(v: &LabelVec) -> (s: &[LabelId])
    ensures
        s@ == label_vec_items(*v),
{
    v.inner.as_slice()
}

/// `<SmallVec as Clone>::clone`: a vector with the same ids.
#[verifier::external_body]
pub(crate) fn label_vec_clone(v: &LabelVec) -> (c: LabelVec)
    ensures
        label_vec_items(c) == label_vec_items(*v),
{
    LabelVec { inner: v.inner.clone() }
}

} // verus!

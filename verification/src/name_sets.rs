//! Sets of label strings, `std::collections::BTreeSet<String>`, as used by
//! [`ObjectMetadata`](crate::metadata::ObjectMetadata).
//!
//! vstd's contracts for `BTreeSet` hold only for key types that it knows to be ordered
//! consistently, which `String` is not registered as; the two operations the library needs
//! go through the functions below, whose contracts speak of the strings' text.
use std::collections::BTreeSet;
use vstd::prelude::*;

verus! {

/// `BTreeSet::insert` at `String`: adds the text of `v` to the set.
#[verifier::external_body]
pub(crate) fn name_set_insert(s: &mut BTreeSet<String>, v: String)
    ensures
        final(s).deep_view() == old(s).deep_view().insert(v@),
{
    s.insert(v);
}

/// `BTreeSet::pop_first` at `String`: removes and returns one string of the set (the
/// smallest), or returns `None` when the set is empty. A `BTreeSet` is always finite.
#[verifier::external_body]
pub(crate) fn name_set_pop_first(s: &mut BTreeSet<String>) -> (r: Option<String>)
    ensures
        old(s).deep_view().finite(),
        (match r {
            None => old(s).deep_view().is_empty() && final(s).deep_view() == old(s).deep_view(),
            Some(x) => old(s).deep_view().contains(x@) && final(s).deep_view() == old(
                s,
            ).deep_view().remove(x@),
        }),
{
    s.pop_first()
}

} // verus!

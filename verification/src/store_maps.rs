//! The two hash maps of a [`MetadataStore`](crate::store::MetadataStore), both
//! `ahash::AHashMap`s: label text to label id, and metadata record to metadata id.
//!
//! What each map holds is named by a spec function ([`label_map_entries`],
//! [`dedup_map_entries`]), and each map operation the store performs goes through one of
//! the small functions below, whose contracts restate what the map does.
use vstd::prelude::*;
use ahash::{AHashMap, RandomState};
use crate::label_vec::LabelId;
use crate::metadata::{Metadata, MetadataId, MetaKey};

verus! {

#[verifier::external_type_specification]
#[verifier::external_body]
#[verifier::reject_recursive_types(K)]
#[verifier::reject_recursive_types(V)]
#[verifier::reject_recursive_types(S)]
pub struct ExAHashMap<K, V, S>(AHashMap<K, V, S>);

#[verifier::external_type_specification]
#[verifier::external_body]
pub struct ExRandomState(RandomState);

/// Label text to label id.
pub type LabelMap = AHashMap<String, LabelId>;

/// Metadata record to the id it is stored under.
pub type DedupMap = AHashMap<Metadata, MetadataId>;

/// The contents of a [`LabelMap`]: label text to the id's number.
pub type LabelEntries = Map<Seq<char>, u32>;

/// The contents of a [`DedupMap`]: record representation to the id's number.
pub type DedupEntries = Map<MetaKey, u32>;

/// What a [`LabelMap`] holds.
pub uninterp spec fn label_map_entries(m: LabelMap) -> LabelEntries;

/// What a [`DedupMap`] holds, each record taken by its representation
/// ([`Metadata::key`]), which decides the derived `==` and `Hash` of `Metadata`.
pub uninterp spec fn dedup_map_entries(m: DedupMap) -> DedupEntries;

/// A map with `n` entries is small enough that the table's capacity computation cannot
/// overflow: no bucket of either map takes more than 256 bytes once the table's spare
/// capacity is counted.
pub open spec fn map_room(n: int) -> bool {
    n * 256 <= isize::MAX
}

/// `AHashMap::new` at `String -> LabelId`: an empty map.
#[verifier::external_body]
pub(crate) fn label_map_new() -> (m: LabelMap)
    ensures
        label_map_entries(m) == LabelEntries::empty(),
{
    AHashMap::new()
}

/// `AHashMap::get` at `String -> LabelId`, looked up by `&str`: the id stored for the text
/// of `name`, if any.
#[verifier::external_body]
pub(crate) fn label_map_get(m: &LabelMap, name: &str) -> (r: Option<LabelId>)
    ensures
        r.is_some() == label_map_entries(*m).contains_key(name@),
        r matches Some(id) ==> label_map_entries(*m)[name@] == id.0,
{
    m.get(name).copied()
}

/// `AHashMap::insert` at `String -> LabelId`: maps the text of `k` to `v`, replacing any
/// earlier id for it.
#[verifier::external_body]
pub(crate) fn label_map_insert(m: &mut LabelMap, k: String, v: LabelId)
    requires
        label_map_entries(*old(m)).dom().finite(),
        map_room(label_map_entries(*old(m)).len() + 1int),
    ensures
        label_map_entries(*final(m)) == label_map_entries(*old(m)).insert(k@, v.0),
{
    m.insert(k, v);
}

/// `AHashMap::new` at `Metadata -> MetadataId`: an empty map.
#[verifier::external_body]
pub(crate) fn dedup_map_new() -> (m: DedupMap)
    ensures
        dedup_map_entries(m) == DedupEntries::empty(),
{
    AHashMap::new()
}

/// `AHashMap::get` at `Metadata -> MetadataId`: the id stored for a record equal to `k`,
/// if any.
#[verifier::external_body]
pub(crate) fn dedup_map_get(m: &DedupMap, k: &Metadata) -> (r: Option<MetadataId>)
    ensures
        r.is_some() == dedup_map_entries(*m).contains_key(k.key()),
        r matches Some(id) ==> dedup_map_entries(*m)[k.key()] == id.0,
{
    m.get(k).copied()
}

/// `AHashMap::insert` at `Metadata -> MetadataId`: maps `k` to `v`, replacing any earlier
/// id for an equal record.
#[verifier::external_body]
pub(crate) fn dedup_map_insert(m: &mut DedupMap, k: Metadata, v: MetadataId)
    requires
        dedup_map_entries(*old(m)).dom().finite(),
        map_room(dedup_map_entries(*old(m)).len() + 1int),
    ensures
        dedup_map_entries(*final(m)) == dedup_map_entries(*old(m)).insert(k.key(), v.0),
{
    m.insert(k, v);
}

} // verus!

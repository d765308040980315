//! Tests of label sets, metadata records and the metadata store.

use std::collections::BTreeSet;

use monty::label_set::LabelSet;
use monty::label_vec::LabelId;
use monty::metadata::{Metadata, MetadataId, ObjectMetadata};
use monty::store::MetadataStore;

// === LabelSet algebra ===

#[test]
fn label_set_empty_is_empty() {
    let s = LabelSet::empty();
    assert!(s.is_empty());
    assert!(!s.is_universal());
    assert_eq!(s.labels(), Some(&[] as &[LabelId]));
}

#[test]
fn label_set_universal_is_universal() {
    let s = LabelSet::universal();
    assert!(s.is_universal());
    assert!(!s.is_empty());
    assert_eq!(s.labels(), None);
}

#[test]
fn label_set_union_both_empty() {
    let result = LabelSet::empty().union(&LabelSet::empty());
    assert!(result.is_empty());
}

#[test]
fn label_set_union_with_universal() {
    let a = LabelSet::from_sorted(&[LabelId(1), LabelId(2)]);
    assert!(a.union(&LabelSet::universal()).is_universal());
    assert!(LabelSet::universal().union(&a).is_universal());
}

#[test]
fn label_set_union_disjoint() {
    let a = LabelSet::from_sorted(&[LabelId(1), LabelId(3)]);
    let b = LabelSet::from_sorted(&[LabelId(2), LabelId(4)]);
    let result = a.union(&b);
    assert_eq!(
        result.labels().unwrap(),
        &[LabelId(1), LabelId(2), LabelId(3), LabelId(4)]
    );
}

#[test]
fn label_set_union_overlapping() {
    let a = LabelSet::from_sorted(&[LabelId(1), LabelId(2), LabelId(3)]);
    let b = LabelSet::from_sorted(&[LabelId(2), LabelId(3), LabelId(4)]);
    let result = a.union(&b);
    assert_eq!(
        result.labels().unwrap(),
        &[LabelId(1), LabelId(2), LabelId(3), LabelId(4)]
    );
}

#[test]
fn label_set_intersection_both_universal() {
    let result = LabelSet::universal().intersection(&LabelSet::universal());
    assert!(result.is_universal());
}

#[test]
fn label_set_intersection_one_universal() {
    let a = LabelSet::from_sorted(&[LabelId(1), LabelId(2)]);
    let result = a.intersection(&LabelSet::universal());
    assert_eq!(result.labels().unwrap(), &[LabelId(1), LabelId(2)]);

    let result2 = LabelSet::universal().intersection(&a);
    assert_eq!(result2.labels().unwrap(), &[LabelId(1), LabelId(2)]);
}

#[test]
fn label_set_intersection_disjoint() {
    let a = LabelSet::from_sorted(&[LabelId(1), LabelId(3)]);
    let b = LabelSet::from_sorted(&[LabelId(2), LabelId(4)]);
    let result = a.intersection(&b);
    assert!(result.is_empty());
}

#[test]
fn label_set_intersection_overlapping() {
    let a = LabelSet::from_sorted(&[LabelId(1), LabelId(2), LabelId(3)]);
    let b = LabelSet::from_sorted(&[LabelId(2), LabelId(3), LabelId(4)]);
    let result = a.intersection(&b);
    assert_eq!(result.labels().unwrap(), &[LabelId(2), LabelId(3)]);
}

#[test]
fn label_set_intersection_with_empty() {
    let a = LabelSet::from_sorted(&[LabelId(1), LabelId(2)]);
    let result = a.intersection(&LabelSet::empty());
    assert!(result.is_empty());
}

// === MetadataStore interning ===

#[test]
fn store_new_has_default_at_index_0() {
    let store = MetadataStore::new();
    let meta = store.get(MetadataId::default());
    assert!(meta.producers.is_empty());
    assert!(meta.consumers.is_universal());
    assert!(meta.tags.is_empty());
}

#[test]
fn store_default_is_a_new_store() {
    let mut store = MetadataStore::default();
    assert_eq!(store.label_name(LabelId::wildcard()), "*");
    assert!(store.get(MetadataId::default()).producers.is_empty());
    let id = store.intern_label("x");
    assert_ne!(id, LabelId::wildcard());
}

#[test]
fn store_wildcard_label_at_index_0() {
    let store = MetadataStore::new();
    assert_eq!(store.label_name(LabelId::wildcard()), "*");
}

#[test]
fn store_intern_label_returns_same_id() {
    let mut store = MetadataStore::new();
    let id1 = store.intern_label("foo");
    let id2 = store.intern_label("foo");
    assert_eq!(id1, id2);
}

#[test]
fn store_intern_label_different_strings() {
    let mut store = MetadataStore::new();
    let id1 = store.intern_label("foo");
    let id2 = store.intern_label("bar");
    assert_ne!(id1, id2);
    assert_eq!(store.label_name(id1), "foo");
    assert_eq!(store.label_name(id2), "bar");
}

#[test]
fn store_intern_metadata_dedup() {
    let mut store = MetadataStore::new();
    let p = store.intern_label("p1");
    let meta1 = Metadata {
        producers: LabelSet::from_sorted(&[p]),
        consumers: LabelSet::universal(),
        tags: LabelSet::empty(),
    };
    let meta2 = meta1.duplicate();
    let id1 = store.intern(meta1);
    let id2 = store.intern(meta2);
    assert_eq!(id1, id2);
}

#[test]
fn store_intern_default_returns_default_id() {
    let mut store = MetadataStore::new();
    let id = store.intern(Metadata::default_metadata());
    assert_eq!(id, MetadataId::default());
}

// === MetadataStore merge ===

#[test]
fn store_merge_default_default() {
    let mut store = MetadataStore::new();
    let result = store.merge(MetadataId::default(), MetadataId::default());
    assert_eq!(result, MetadataId::default());
}

#[test]
fn store_merge_a_default_returns_a() {
    let mut store = MetadataStore::new();
    let p = store.intern_label("p1");
    let meta = Metadata {
        producers: LabelSet::from_sorted(&[p]),
        consumers: LabelSet::universal(),
        tags: LabelSet::empty(),
    };
    let a = store.intern(meta);
    let result = store.merge(a, MetadataId::default());
    assert_eq!(result, a);
}

#[test]
fn store_merge_default_b_returns_b() {
    let mut store = MetadataStore::new();
    let t = store.intern_label("tag1");
    let meta = Metadata {
        producers: LabelSet::empty(),
        consumers: LabelSet::universal(),
        tags: LabelSet::from_sorted(&[t]),
    };
    let b = store.intern(meta);
    let result = store.merge(MetadataId::default(), b);
    assert_eq!(result, b);
}

#[test]
fn store_merge_two_non_default() {
    let mut store = MetadataStore::new();
    let p1 = store.intern_label("p1");
    let p2 = store.intern_label("p2");
    let c1 = store.intern_label("c1");
    let c2 = store.intern_label("c2");
    let t1 = store.intern_label("t1");
    let t2 = store.intern_label("t2");

    let meta_a = Metadata {
        producers: LabelSet::from_sorted(&[p1]),
        consumers: LabelSet::from_sorted(&[c1, c2]),
        tags: LabelSet::from_sorted(&[t1]),
    };
    let meta_b = Metadata {
        producers: LabelSet::from_sorted(&[p2]),
        consumers: LabelSet::from_sorted(&[c2]),
        tags: LabelSet::from_sorted(&[t2]),
    };

    let a = store.intern(meta_a);
    let b = store.intern(meta_b);
    let result_id = store.merge(a, b);
    let result = store.get(result_id);

    // producers: union of {p1} and {p2} = {p1, p2}
    assert_eq!(result.producers.labels().unwrap(), &[p1, p2]);
    // consumers: intersection of {c1, c2} and {c2} = {c2}
    assert_eq!(result.consumers.labels().unwrap(), &[c2]);
    // tags: union of {t1} and {t2} = {t1, t2}
    assert_eq!(result.tags.labels().unwrap(), &[t1, t2]);
}

#[test]
fn store_merge_is_commutative() {
    let mut store = MetadataStore::new();
    let p1 = store.intern_label("p1");
    let p2 = store.intern_label("p2");

    let meta_a = Metadata {
        producers: LabelSet::from_sorted(&[p1]),
        consumers: LabelSet::universal(),
        tags: LabelSet::empty(),
    };
    let meta_b = Metadata {
        producers: LabelSet::from_sorted(&[p2]),
        consumers: LabelSet::universal(),
        tags: LabelSet::empty(),
    };

    let a = store.intern(meta_a);
    let b = store.intern(meta_b);
    let ab = store.merge(a, b);
    let ba = store.merge(b, a);
    assert_eq!(ab, ba);
}

#[test]
fn store_merge_is_associative() {
    let mut store = MetadataStore::new();
    let p1 = store.intern_label("p1");
    let p2 = store.intern_label("p2");
    let p3 = store.intern_label("p3");

    let meta_a = Metadata {
        producers: LabelSet::from_sorted(&[p1]),
        consumers: LabelSet::universal(),
        tags: LabelSet::empty(),
    };
    let meta_b = Metadata {
        producers: LabelSet::from_sorted(&[p2]),
        consumers: LabelSet::universal(),
        tags: LabelSet::empty(),
    };
    let meta_c = Metadata {
        producers: LabelSet::from_sorted(&[p3]),
        consumers: LabelSet::universal(),
        tags: LabelSet::empty(),
    };

    let a = store.intern(meta_a);
    let b = store.intern(meta_b);
    let c = store.intern(meta_c);

    let ab_c = {
        let ab = store.merge(a, b);
        store.merge(ab, c)
    };
    let a_bc = {
        let bc = store.merge(b, c);
        store.merge(a, bc)
    };
    assert_eq!(ab_c, a_bc);
}

#[test]
fn store_merge_consumers_intersection_restricts() {
    let mut store = MetadataStore::new();
    let c1 = store.intern_label("c1");
    let c2 = store.intern_label("c2");

    // a: consumers = universal (anyone can see)
    let meta_a = Metadata {
        producers: LabelSet::empty(),
        consumers: LabelSet::universal(),
        tags: LabelSet::empty(),
    };
    // b: consumers = {c1, c2} (restricted)
    let meta_b = Metadata {
        producers: LabelSet::empty(),
        consumers: LabelSet::from_sorted(&[c1, c2]),
        tags: LabelSet::empty(),
    };

    let a = store.intern(meta_a);
    let b = store.intern(meta_b);
    let result = store.merge(a, b);
    let result_meta = store.get(result);

    // intersection of universal and {c1, c2} = {c1, c2}
    assert_eq!(result_meta.consumers.labels().unwrap(), &[c1, c2]);
}

// === ObjectMetadata round-trip through MetadataStore ===

#[test]
fn store_object_metadata_roundtrip() {
    let mut store = MetadataStore::new();
    let obj = ObjectMetadata {
        producers: Some(BTreeSet::from(["source_a".to_string(), "source_b".to_string()])),
        consumers: Some(BTreeSet::from(["consumer_x".to_string()])),
        tags: Some(BTreeSet::from(["pii".to_string()])),
    };
    let id = store.intern_object_metadata(&obj);
    let roundtripped = store.to_object_metadata(id).unwrap();
    assert_eq!(obj, roundtripped);
}

#[test]
fn store_object_metadata_universal_consumers_roundtrip() {
    let mut store = MetadataStore::new();
    let obj = ObjectMetadata {
        producers: Some(BTreeSet::from(["src".to_string()])),
        consumers: None, // universal
        tags: Some(BTreeSet::new()),
    };
    let id = store.intern_object_metadata(&obj);
    let roundtripped = store.to_object_metadata(id).unwrap();
    assert_eq!(obj, roundtripped);
}

#[test]
fn store_default_metadata_returns_none() {
    let store = MetadataStore::new();
    assert_eq!(store.to_object_metadata(MetadataId::default()), None);
}

// === Metadata merge algebra ===

#[test]
fn metadata_merge_default_is_identity() {
    let p1 = LabelId(1);
    let c1 = LabelId(2);
    let t1 = LabelId(3);
    let meta = Metadata {
        producers: LabelSet::from_sorted(&[p1]),
        consumers: LabelSet::from_sorted(&[c1]),
        tags: LabelSet::from_sorted(&[t1]),
    };
    let default = Metadata::default_metadata();

    let result = meta.merge(&default);
    // producers: union with empty = same
    assert_eq!(result.producers.labels().unwrap(), &[p1]);
    // consumers: intersection with universal = same
    assert_eq!(result.consumers.labels().unwrap(), &[c1]);
    // tags: union with empty = same
    assert_eq!(result.tags.labels().unwrap(), &[t1]);
}

//! `MetadataStore`: interning of label strings and deduplication of metadata records.
//!
//! The store guarantees that:
//! - each label string is stored once and referenced by a [`LabelId`];
//! - each metadata record is stored once and referenced by a [`MetadataId`];
//! - index 0 holds the default metadata and the `"*"` wildcard label.
//!
//! The store grows monotonically: entries are never removed.
use std::collections::BTreeSet;
use vstd::prelude::*;
use crate::label_set::{
    LabelSet, lemma_label_set_canonical, lemma_label_set_key_view, lemma_label_set_len,
    insert_sorted, strictly_sorted, has_id, id_set, lemma_sorted_len_bound, ids_below,
};
use crate::name_sets::{name_set_insert, name_set_pop_first};
use crate::label_vec::LabelId;
use crate::metadata::{
    Metadata, MetadataId, MetaView, MetaKey, LabelView, NameSetView, ObjView, ObjectMetadata,
    default_view, merge_view, meta_below, lemma_merge_view_default, lemma_merge_view_below,
};
use crate::label_set::{union_view, inter_view, view_below};
use crate::store_maps::{
    LabelMap, DedupMap, label_map_entries, dedup_map_entries, map_room, label_map_new,
    label_map_get, label_map_insert, dedup_map_new, dedup_map_get, dedup_map_insert,
};

verus! {

/// The text of the wildcard label, interned at index 0.
pub open spec fn wildcard_name() -> Seq<char> {
    seq!['*']
}

/// A store may hold `n` labels, or `n` metadata records: ids are `u32`, and both maps stay
/// within their capacity limits.
pub open spec fn room_for(n: int) -> bool {
    n <= 0x1_0000_0000 && map_room(n)
}

/// Central store for interning label strings and deduplicating metadata records.
pub struct MetadataStore {
    /// `LabelId(i)` -> label string. Index 0 is always `"*"`.
    label_strings: Vec<String>,
    /// Reverse map: label string -> `LabelId`.
    label_map: LabelMap,
    /// `MetadataId(i)` -> interned metadata. Index 0 is always the default.
    entries: Vec<Metadata>,
    /// Reverse map: metadata -> `MetadataId`, for dedup.
    dedup_map: DedupMap,
}

impl Default for MetadataStore {
    /// A new store, as [`MetadataStore::new`] makes it.
    fn default() -> (s: Self)
        ensures
            s.wf(),
            s.labels() == seq![wildcard_name()],
            s.metas() == seq![default_view()],
    {
        Self::new()
    }
}

impl MetadataStore {
    /// The interned label strings; label id `i` names `labels()[i]`.
    pub closed spec fn labels(&self) -> Seq<Seq<char>> {
        self.label_strings@.map_values(|s: String| s@)
    }

    /// The interned metadata records; metadata id `i` names `metas()[i]`.
    pub closed spec fn metas(&self) -> Seq<MetaView> {
        self.entries@.map_values(|m: Metadata| m@)
    }

    /// The boundary form of the record named by `id`: `None` for the default id, otherwise
    /// the record with every label id replaced by its text.
    pub open spec fn exported(&self, id: MetadataId) -> Option<ObjView> {
        if id.0 == 0 {
            None
        } else {
            Some(meta_to_obj(self.labels(), self.metas()[id.0 as int]))
        }
    }

    /// The store's invariant: the two vectors and the two maps agree, index 0 holds the
    /// wildcard label and the default metadata, and every label id used by a record is
    /// interned.
    pub closed spec fn wf(&self) -> bool {
        let labels = self.labels();
        let lm = label_map_entries(self.label_map);
        let es = self.entries@;
        let dm = dedup_map_entries(self.dedup_map);
        &&& labels.len() >= 1
        &&& labels[0] == wildcard_name()
        &&& room_for(labels.len() as int)
        &&& lm.dom().finite()
        &&& lm.len() == labels.len()
        &&& forall|t: Seq<char>| #[trigger]
            lm.contains_key(t) ==> lm[t] < labels.len() && labels[lm[t] as int] == t
        &&& forall|i: int|
            0 <= i < labels.len() ==> #[trigger] lm.contains_key(labels[i]) && lm[labels[i]] == i
        &&& es.len() >= 1
        &&& room_for(es.len() as int)
        &&& es[0]@ == default_view()
        &&& forall|i: int|
            0 <= i < es.len() ==> #[trigger] es[i].wf() && meta_below(es[i]@, labels.len() as int)
        &&& dm.dom().finite()
        &&& dm.len() == es.len()
        &&& forall|k: MetaKey| #[trigger]
            dm.contains_key(k) ==> dm[k] < es.len() && es[dm[k] as int].key() == k
        &&& forall|i: int|
            0 <= i < es.len() ==> #[trigger] dm.contains_key(es[i].key()) && dm[es[i].key()] == i
    }

    /// What a well-formed store guarantees to its users.
    pub proof fn lemma_wf(&self)
        requires
            self.wf(),
        ensures
            self.labels().len() >= 1,
            self.labels()[0] == wildcard_name(),
            room_for(self.labels().len() as int),
            self.metas().len() >= 1,
            self.metas()[0] == default_view(),
            room_for(self.metas().len() as int),
            forall|i: int|
                0 <= i < self.metas().len() ==> meta_below(
                    #[trigger] self.metas()[i],
                    self.labels().len() as int,
                ),
            forall|i: int, j: int|
                0 <= i < self.labels().len() && 0 <= j < self.labels().len() && #[trigger] self.labels()[i]
                    == #[trigger] self.labels()[j] ==> i == j,
            forall|i: int, j: int|
                0 <= i < self.metas().len() && 0 <= j < self.metas().len() && #[trigger] self.metas()[i]
                    == #[trigger] self.metas()[j] ==> i == j,
    {
        let es = self.entries@;
        let dm = dedup_map_entries(self.dedup_map);
        assert forall|i: int|
            0 <= i < self.metas().len() implies meta_below(
            #[trigger] self.metas()[i],
            self.labels().len() as int,
        ) by {
            assert(es[i].wf());
        }
        assert forall|i: int, j: int|
            0 <= i < self.metas().len() && 0 <= j < self.metas().len() && #[trigger] self.metas()[i]
                == #[trigger] self.metas()[j] implies i == j by {
            assert(es[i].wf() && es[j].wf());
            lemma_label_set_canonical(es[i].producers, es[j].producers);
            lemma_label_set_canonical(es[i].consumers, es[j].consumers);
            lemma_label_set_canonical(es[i].tags, es[j].tags);
            assert(es[i].key() == es[j].key());
            assert(dm.contains_key(es[i].key()));
            assert(dm.contains_key(es[j].key()));
        }
        assert forall|i: int, j: int|
            0 <= i < self.labels().len() && 0 <= j < self.labels().len() && #[trigger] self.labels()[i]
                == #[trigger] self.labels()[j] implies i == j by {
            let lm = label_map_entries(self.label_map);
            assert(lm.contains_key(self.labels()[i]));
            assert(lm.contains_key(self.labels()[j]));
        }
    }

    /// Creates a new store with the default metadata and the wildcard label pre-registered.
    pub fn new() -> (s: Self)
        ensures
            s.wf(),
            s.labels() == seq![wildcard_name()],
            s.metas() == seq![default_view()],
    {
        let wildcard = String::from_str("*");
        proof {
            reveal_strlit("*");
            assert(wildcard@ =~= wildcard_name());
        }
        let default_meta = Metadata::default_metadata();
        let mut label_map = label_map_new();
        label_map_insert(&mut label_map, wildcard.clone(), LabelId::wildcard());
        let mut dedup_map = dedup_map_new();
        dedup_map_insert(&mut dedup_map, default_meta.duplicate(), MetadataId(0));
        let label_strings = vec![wildcard];
        let entries = vec![default_meta];
        let s = Self { label_strings, label_map, entries, dedup_map };
        proof {
            assert(s.labels() =~= seq![wildcard_name()]);
            assert(s.metas() =~= seq![default_view()]);
            let lm = label_map_entries(s.label_map);
            let dm = dedup_map_entries(s.dedup_map);
            assert(lm.dom() =~= set![wildcard_name()]);
            assert(dm.dom() =~= set![s.entries@[0].key()]);
            assert(meta_below(s.entries@[0]@, 1)) by {
                assert(s.entries@[0]@ == default_view());
            }
        }
        s
    }

    /// Interns a label string, returning its [`LabelId`].
    ///
    /// If the string was already interned, returns the existing id; otherwise the string
    /// gets the next free id.
    pub fn intern_label(&mut self, name: &str) -> (id: LabelId)
        requires
            old(self).wf(),
            old(self).labels().contains(name@) || room_for(old(self).labels().len() + 1int),
        ensures
            interned_label(*old(self), name@, *final(self), id),
    {
        let ghost labels0 = self.labels();
        let ghost lm0 = label_map_entries(self.label_map);
        let ghost es0 = self.entries@;
        if let Some(id) = label_map_get(&self.label_map, name) {
            proof {
                assert(labels0[id.0 as int] == name@);
            }
            return id;
        }
        proof {
            if labels0.contains(name@) {
                let i = choose|i: int| 0 <= i < labels0.len() && labels0[i] == name@;
                assert(lm0.contains_key(labels0[i]));
            }
        }
        let id = LabelId(self.label_strings.len() as u32);
        self.label_strings.push(String::from_str(name));
        label_map_insert(&mut self.label_map, String::from_str(name), id);
        proof {
            let labels = self.labels();
            let lm = label_map_entries(self.label_map);
            let n = labels0.len();
            assert(labels =~= labels0.push(name@));
            assert(lm.dom() =~= lm0.dom().insert(name@));
            assert forall|t: Seq<char>| #[trigger]
                lm.contains_key(t) implies lm[t] < labels.len() && labels[lm[t] as int] == t by {
                if t != name@ {
                    assert(lm0.contains_key(t));
                }
            }
            assert forall|i: int|
                0 <= i < labels.len() implies #[trigger] lm.contains_key(labels[i]) && lm[labels[i]]
                == i by {
                if i < n {
                    assert(labels[i] == labels0[i]);
                    assert(lm0.contains_key(labels0[i]));
                    assert(labels0[i] != name@);
                }
            }
            assert forall|i: int|
                0 <= i < self.entries@.len() implies #[trigger] self.entries@[i].wf() && meta_below(
                self.entries@[i]@,
                labels.len() as int,
            ) by {
                assert(es0[i].wf());
                lemma_meta_below_mono(self.entries@[i]@, n as int, labels.len() as int);
            }
        }
        id
    }

    /// Returns the string for a [`LabelId`].
    pub fn label_name(&self, id: LabelId) -> (name: &str)
        requires
            self.wf(),
            (id.0 as int) < self.labels().len(),
        ensures
            name@ == self.labels()[id.0 as int],
    {
        self.label_strings[id.0 as usize].as_str()
    }

    /// Interns a [`Metadata`] record, returning its [`MetadataId`].
    ///
    /// If an identical record was already interned, returns the existing id (dedup);
    /// otherwise the record gets the next free id.
    pub fn intern(&mut self, metadata: Metadata) -> (id: MetadataId)
        requires
            old(self).wf(),
            metadata.wf(),
            meta_below(metadata@, old(self).labels().len() as int),
            old(self).metas().contains(metadata@) || room_for(old(self).metas().len() + 1int),
        ensures
            interned_meta(*old(self), metadata@, *final(self), id),
    {
        let ghost es0 = self.entries@;
        let ghost metas0 = self.metas();
        let ghost dm0 = dedup_map_entries(self.dedup_map);
        if let Some(id) = dedup_map_get(&self.dedup_map, &metadata) {
            proof {
                lemma_label_set_key_view(es0[id.0 as int].producers, metadata.producers);
                lemma_label_set_key_view(es0[id.0 as int].consumers, metadata.consumers);
                lemma_label_set_key_view(es0[id.0 as int].tags, metadata.tags);
                assert(metas0[id.0 as int] == metadata@);
            }
            return id;
        }
        proof {
            if metas0.contains(metadata@) {
                let i = choose|i: int| 0 <= i < metas0.len() && metas0[i] == metadata@;
                assert(es0[i].wf());
                lemma_label_set_canonical(es0[i].producers, metadata.producers);
                lemma_label_set_canonical(es0[i].consumers, metadata.consumers);
                lemma_label_set_canonical(es0[i].tags, metadata.tags);
                assert(dm0.contains_key(es0[i].key()));
            }
        }
        let id = MetadataId(self.entries.len() as u32);
        dedup_map_insert(&mut self.dedup_map, metadata.duplicate(), id);
        let ghost k = metadata.key();
        let ghost added = metadata;
        self.entries.push(metadata);
        proof {
            let es = self.entries@;
            let dm = dedup_map_entries(self.dedup_map);
            let n = es0.len();
            assert(self.metas() =~= metas0.push(es[n as int]@));
            assert(dm.dom() =~= dm0.dom().insert(k));
            assert forall|q: MetaKey| #[trigger]
                dm.contains_key(q) implies dm[q] < es.len() && es[dm[q] as int].key() == q by {
                if q != k {
                    assert(dm0.contains_key(q));
                }
            }
            assert forall|i: int|
                0 <= i < es.len() implies #[trigger] dm.contains_key(es[i].key()) && dm[es[i].key()]
                == i by {
                if i < n {
                    assert(es[i] == es0[i]);
                    assert(dm0.contains_key(es0[i].key()));
                }
            }
            assert forall|i: int|
                0 <= i < es.len() implies #[trigger] es[i].wf() && meta_below(
                es[i]@,
                self.labels().len() as int,
            ) by {
                if i < n {
                    assert(es[i] == es0[i]);
                } else {
                    assert(es[i] == added);
                }
            }
        }
        id
    }

    /// Merges two metadata records and returns the interned result.
    ///
    /// Short-circuits for common cases:
    /// - `merge(DEFAULT, DEFAULT) -> DEFAULT`
    /// - `merge(a, DEFAULT) -> a`, since the default has empty producers and tags and
    ///   universal consumers
    /// - `merge(DEFAULT, b) -> b`
    pub fn merge(&mut self, a: MetadataId, b: MetadataId) -> (r: MetadataId)
        requires
            old(self).wf(),
            (a.0 as int) < old(self).metas().len(),
            (b.0 as int) < old(self).metas().len(),
            a.0 != 0 && b.0 != 0 ==> room_for(old(self).metas().len() + 1int),
        ensures
            merged_into(*old(self), a, b, *final(self), r),
            a.0 == 0 ==> r == b && *final(self) == *old(self),
            a.0 != 0 && b.0 == 0 ==> r == a && *final(self) == *old(self),
    {
        let ghost metas0 = self.metas();
        proof {
            self.lemma_wf();
            lemma_merge_view_default(metas0[a.0 as int]);
            lemma_merge_view_default(metas0[b.0 as int]);
        }
        if a.is_default() {
            return b;
        }
        if b.is_default() {
            return a;
        }
        let ghost n = self.labels().len() as int;
        let ma = &self.entries[a.0 as usize];
        let mb = &self.entries[b.0 as usize];
        proof {
            assert(self.entries@[a.0 as int].wf());
            assert(self.entries@[b.0 as int].wf());
            lemma_label_set_len(ma.producers, n);
            lemma_label_set_len(mb.producers, n);
            lemma_label_set_len(ma.consumers, n);
            lemma_label_set_len(mb.consumers, n);
            lemma_label_set_len(ma.tags, n);
            lemma_label_set_len(mb.tags, n);
            lemma_merge_view_below(ma@, mb@, n);
        }
        let merged = ma.merge(mb);
        let r = self.intern(merged);
        proof {
            assert(metas0.is_prefix_of(self.metas()));
        }
        r
    }

    /// Interns a set of string labels into a [`LabelSet`]; with `universal` set, the result
    /// is the universal set and the strings are not looked at.
    fn intern_label_set_from_strings(&mut self, strings: &BTreeSet<String>, universal: bool) -> (r:
        LabelSet)
        requires
            old(self).wf(),
            universal || room_for((old(self).labels().len() + strings.deep_view().len()) as int),
        ensures
            final(self).wf(),
            final(self).metas() == old(self).metas(),
            old(self).labels().is_prefix_of(final(self).labels()),
            r.wf(),
            universal ==> r@ is None && final(self).labels() == old(self).labels(),
            !universal ==> r@ == Some(ids_named(final(self).labels(), strings.deep_view())),
            !universal ==> final(self).labels().len() <= old(self).labels().len()
                + strings.deep_view().len(),
            !universal ==> names_interned(Some(strings.deep_view()), final(self).labels()),
            forall|i: int|
                old(self).labels().len() <= i < final(self).labels().len() ==> strings.deep_view().contains(
                    #[trigger] final(self).labels()[i],
                ),
    {
        if universal {
            return LabelSet::universal();
        }
        let ghost total = strings.deep_view();
        let ghost labels0 = self.labels();
        let ghost metas0 = self.metas();
        let mut rest = strings.clone();
        let mut ids: Vec<LabelId> = Vec::new();
        let ghost mut k: int = 0;
        loop
            invariant
                self.wf(),
                self.metas() == metas0,
                labels0.is_prefix_of(self.labels()),
                room_for((labels0.len() + total.len()) as int),
                rest.deep_view().subset_of(total),
                k + rest.deep_view().len() == total.len(),
                0 <= k,
                self.labels().len() <= labels0.len() + k,
                strictly_sorted(ids@),
                forall|i: u32|
                    #![trigger has_id(ids@, i)]
                    #![trigger self.labels()[i as int]]
                    has_id(ids@, i) <==> ((i as int) < self.labels().len() && total.contains(
                        self.labels()[i as int],
                    ) && !rest.deep_view().contains(self.labels()[i as int])),
                forall|t: Seq<char>|
                    total.contains(t) && !rest.deep_view().contains(t) ==> #[trigger] self.labels().contains(t),
                forall|i: int|
                    labels0.len() <= i < self.labels().len() ==> total.contains(#[trigger] self.labels()[i])
                        && !rest.deep_view().contains(self.labels()[i]),
            ensures
                rest.deep_view().is_empty(),
            decreases rest.deep_view().len(),
        {
            let ghost rest0 = rest.deep_view();
            let ghost labels1 = self.labels();
            match name_set_pop_first(&mut rest) {
                None => {
                    break;
                },
                Some(name) => {
                    proof {
                        assert(rest0.remove(name@).len() == rest0.len() - 1);
                        assert(k + 1 <= total.len());
                        lemma_room_mono((labels0.len() + total.len()) as int, labels1.len() + 1int);
                    }
                    let id = self.intern_label(name.as_str());
                    let ghost ids0 = ids@;
                    insert_sorted(&mut ids, id);
                    proof {
                        let labels = self.labels();
                        let x = name@;
                        k = k + 1;
                        self.lemma_wf();
                        assert(labels1.is_prefix_of(labels));
                        assert forall|i: u32|
                            #![trigger has_id(ids@, i)]
                            #![trigger labels[i as int]]
                            has_id(ids@, i) <==> ((i as int) < labels.len() && total.contains(
                                labels[i as int],
                            ) && !rest.deep_view().contains(labels[i as int])) by {
                            if has_id(ids@, i) {
                                if i != id.0 {
                                    assert(has_id(ids0, i));
                                    assert(labels[i as int] == labels1[i as int]);
                                }
                            }
                            if (i as int) < labels.len() && total.contains(labels[i as int])
                                && !rest.deep_view().contains(labels[i as int]) {
                                if labels[i as int] == x {
                                    assert(labels[id.0 as int] == x);
                                } else {
                                    if (i as int) >= labels1.len() {
                                        assert(labels[i as int] == x);
                                    } else {
                                        assert(labels[i as int] == labels1[i as int]);
                                        assert(has_id(ids0, i));
                                    }
                                }
                            }
                        }
                        assert forall|t: Seq<char>|
                            total.contains(t) && !rest.deep_view().contains(
                                t,
                            ) implies #[trigger] labels.contains(t) by {
                            if t == x {
                                assert(labels[id.0 as int] == x);
                            } else {
                                assert(labels1.contains(t));
                                let j = choose|j: int| 0 <= j < labels1.len() && labels1[j] == t;
                                assert(labels[j] == t);
                            }
                        }
                        assert forall|i: int|
                            labels0.len() <= i < labels.len() implies total.contains(
                                #[trigger] labels[i],
                            ) && !rest.deep_view().contains(labels[i]) by {
                            if i < labels1.len() {
                                assert(labels[i] == labels1[i]);
                            } else {
                                assert(labels[i] == x);
                            }
                        }
                    }
                },
            }
        }
        proof {
            let labels = self.labels();
            assert forall|j: int| 0 <= j < ids@.len() implies ids@[j].0 < labels.len() by {
                assert(has_id(ids@, ids@[j].0));
            }
            assert(ids_below(ids@, labels.len() as int));
            lemma_sorted_len_bound(ids@, labels.len() as int);
            lemma_room_mono((labels0.len() + total.len()) as int, labels.len() as int);
        }
        let r = LabelSet::from_sorted(ids.as_slice());
        proof {
            let labels = self.labels();
            assert(id_set(ids@) =~= ids_named(labels, total));
        }
        r
    }

    /// Resolves a [`LabelSet`] to a set of strings; the universal set resolves to the
    /// wildcard `{"*"}`.
    fn label_set_to_strings(&self, set: &LabelSet) -> (out: BTreeSet<String>)
        requires
            self.wf(),
            set.wf(),
            view_below(set@, self.labels().len() as int),
        ensures
            set@ matches Some(ids) ==> out.deep_view() == names_of(self.labels(), ids),
            set@ is None ==> out.deep_view() == set![wildcard_name()],
    {
        let ghost labels = self.labels();
        match set.labels() {
            Some(ids) => {
                proof {
                    lemma_label_set_len(*set, labels.len() as int);
                }
                let mut out: BTreeSet<String> = BTreeSet::new();
                proof {
                    assert(out.deep_view() =~= Set::<Seq<char>>::empty());
                }
                let mut k: usize = 0;
                while k < ids.len()
                    invariant
                        self.wf(),
                        labels == self.labels(),
                        k <= ids@.len(),
                        ids@ == set.ids(),
                        ids_below(ids@, labels.len() as int),
                        forall|t: Seq<char>|
                            out.deep_view().contains(t) <==> exists|j: int|
                                0 <= j < k && #[trigger] labels[ids@[j].0 as int] == t,
                    decreases ids@.len() - k,
                {
                    let name = String::from_str(self.label_name(ids[k]));
                    let ghost out0 = out.deep_view();
                    name_set_insert(&mut out, name);
                    proof {
                        assert forall|t: Seq<char>|
                            out.deep_view().contains(t) <==> exists|j: int|
                                0 <= j < k + 1 && #[trigger] labels[ids@[j].0 as int] == t by {
                            if out0.contains(t) {
                                let j = choose|j: int| 0 <= j < k && #[trigger] labels[ids@[j].0 as int] == t;
                                assert(0 <= j < k + 1);
                            }
                            if t == labels[ids@[k as int].0 as int] {
                                assert(labels[ids@[k as int].0 as int] == t);
                            }
                            if exists|j: int| 0 <= j < k + 1 && #[trigger] labels[ids@[j].0 as int] == t {
                                let j = choose|j: int| 0 <= j < k + 1 && #[trigger] labels[ids@[j].0 as int] == t;
                                if j < k {
                                    assert(out0.contains(t));
                                }
                            }
                        }
                    }
                    k = k + 1;
                }
                proof {
                    let v = id_set(set.ids());
                    assert(set@ == Some(v));
                    assert forall|t: Seq<char>|
                        out.deep_view().contains(t) == names_of(labels, v).contains(t) by {
                        if out.deep_view().contains(t) {
                            let j = choose|j: int| 0 <= j < ids@.len() && #[trigger] labels[ids@[j].0 as int] == t;
                            assert(has_id(ids@, ids@[j].0));
                            assert(v.contains(ids@[j].0));
                        }
                        if names_of(labels, v).contains(t) {
                            let i = choose|i: u32| v.contains(i) && labels[i as int] == t;
                            assert(has_id(ids@, i));
                            let j = choose|j: int| 0 <= j < ids@.len() && ids@[j].0 == i;
                            assert(labels[ids@[j].0 as int] == t);
                        }
                    }
                    assert(out.deep_view() =~= names_of(labels, v));
                }
                out
            },
            None => {
                let mut out: BTreeSet<String> = BTreeSet::new();
                name_set_insert(&mut out, String::from_str("*"));
                proof {
                    reveal_strlit("*");
                    assert("*"@ =~= wildcard_name());
                    assert(out.deep_view() =~= set![wildcard_name()]);
                }
                out
            },
        }
    }

    /// Converts a [`MetadataId`] back to an [`ObjectMetadata`] by resolving all label ids
    /// to their strings; a universal field becomes `None`.
    ///
    /// Returns `None` for the default metadata (no provenance information).
    pub fn to_object_metadata(&self, id: MetadataId) -> (r: Option<ObjectMetadata>)
        requires
            self.wf(),
            (id.0 as int) < self.metas().len(),
        ensures
            r is None <==> self.exported(id) is None,
            r matches Some(o) ==> self.exported(id) == Some(o@),
    {
        if id.is_default() {
            return None;
        }
        let meta = self.get(id);
        let ghost n = self.labels().len() as int;
        let producers = if meta.producers.is_universal() {
            None
        } else {
            Some(self.label_set_to_strings(&meta.producers))
        };
        let consumers = if meta.consumers.is_universal() {
            None
        } else {
            Some(self.label_set_to_strings(&meta.consumers))
        };
        let tags = if meta.tags.is_universal() {
            None
        } else {
            Some(self.label_set_to_strings(&meta.tags))
        };
        Some(ObjectMetadata { producers, consumers, tags })
    }

    /// Converts an [`ObjectMetadata`] into a [`MetadataId`] by interning all label strings
    /// and the resulting metadata record; a `None` field becomes the universal set.
    pub fn intern_object_metadata(&mut self, obj_meta: &ObjectMetadata) -> (id: MetadataId)
        requires
            old(self).wf(),
            room_for(old(self).labels().len() + name_count(obj_meta@)),
            room_for(old(self).metas().len() + 1int),
        ensures
            interned_object(*old(self), obj_meta@, *final(self), id),
    {
        let ghost labels0 = self.labels();
        let ghost metas0 = self.metas();
        let ghost o = obj_meta@;
        let producers = match &obj_meta.producers {
            None => LabelSet::universal(),
            Some(set) => self.intern_label_set_from_strings(set, false),
        };
        let ghost labels1 = self.labels();
        proof {
            lemma_room_mono(labels0.len() + name_count(o), labels1.len() + field_count(o.1) + field_count(o.2));
        }
        let consumers = match &obj_meta.consumers {
            None => LabelSet::universal(),
            Some(set) => self.intern_label_set_from_strings(set, false),
        };
        let ghost labels2 = self.labels();
        proof {
            lemma_room_mono(labels0.len() + name_count(o), labels2.len() + field_count(o.2));
        }
        let tags = match &obj_meta.tags {
            None => LabelSet::universal(),
            Some(set) => self.intern_label_set_from_strings(set, false),
        };
        let ghost labels3 = self.labels();
        proof {
            self.lemma_wf();
            lemma_names_stable(labels1, labels3, o.0);
            lemma_names_stable(labels2, labels3, o.1);
            assert(labels1.is_prefix_of(labels3));
            assert(labels2.is_prefix_of(labels3));
            lemma_names_interned_grow(o.0, labels1, labels3);
            lemma_names_interned_grow(o.1, labels2, labels3);
            lemma_ids_named_below(labels3, o);
        }
        let meta = Metadata { producers, consumers, tags };
        let id = self.intern(meta);
        id
    }

    /// Returns the [`Metadata`] for a [`MetadataId`].
    pub fn get(&self, id: MetadataId) -> (m: &Metadata)
        requires
            self.wf(),
            (id.0 as int) < self.metas().len(),
        ensures
            m@ == self.metas()[id.0 as int],
            m.wf(),
            meta_below(m@, self.labels().len() as int),
    {
        proof {
            assert(self.entries@[id.0 as int].wf());
        }
        &self.entries[id.0 as usize]
    }
}


/// A store may hold `m` items when it may hold `n >= m`.
pub proof fn lemma_room_mono(n: int, m: int)
    requires
        room_for(n),
        0 <= m <= n,
    ensures
        room_for(m),
{
}

/// The ids of the labels whose text is in `names`.
pub open spec fn ids_named(labels: Seq<Seq<char>>, names: Set<Seq<char>>) -> Set<u32> {
    Set::new(|i: u32| (i as int) < labels.len() && names.contains(labels[i as int]))
}

/// The texts of the labels in `ids`.
pub open spec fn names_of(labels: Seq<Seq<char>>, ids: Set<u32>) -> Set<Seq<char>> {
    Set::new(|t: Seq<char>| exists|i: u32| ids.contains(i) && labels[i as int] == t)
}

/// A field of names, as label ids.
pub open spec fn field_ids(labels: Seq<Seq<char>>, f: NameSetView) -> LabelView {
    match f {
        None => None,
        Some(names) => Some(ids_named(labels, names)),
    }
}

/// A field of label ids, as names.
pub open spec fn field_names(labels: Seq<Seq<char>>, v: LabelView) -> NameSetView {
    match v {
        None => None,
        Some(ids) => Some(names_of(labels, ids)),
    }
}

/// Boundary metadata as a record of label ids.
pub open spec fn obj_to_meta(labels: Seq<Seq<char>>, o: ObjView) -> MetaView {
    (field_ids(labels, o.0), field_ids(labels, o.1), field_ids(labels, o.2))
}

/// A record of label ids as boundary metadata.
pub open spec fn meta_to_obj(labels: Seq<Seq<char>>, m: MetaView) -> ObjView {
    (field_names(labels, m.0), field_names(labels, m.1), field_names(labels, m.2))
}

/// How many names a field holds; the universal set holds none explicitly.
pub open spec fn field_count(f: NameSetView) -> int {
    match f {
        None => 0,
        Some(names) => names.len() as int,
    }
}

/// How many names the three fields of boundary metadata hold together.
pub open spec fn name_count(o: ObjView) -> int {
    field_count(o.0) + field_count(o.1) + field_count(o.2)
}

/// Every name of the field is an interned label.
pub open spec fn names_interned(f: NameSetView, labels: Seq<Seq<char>>) -> bool {
    match f {
        None => true,
        Some(names) => forall|t: Seq<char>| names.contains(t) ==> labels.contains(t),
    }
}

/// What [`MetadataStore::intern_object_metadata`] guarantees: `new` is `old` with the names
/// of `o` interned and at most one record added, and `id` names the record of `o`.
pub open spec fn interned_object(old: MetadataStore, o: ObjView, new: MetadataStore, id: MetadataId) -> bool {
    &&& new.wf()
    &&& old.labels().is_prefix_of(new.labels())
    &&& new.labels().len() <= old.labels().len() + name_count(o)
    &&& names_interned(o.0, new.labels())
    &&& names_interned(o.1, new.labels())
    &&& names_interned(o.2, new.labels())
    &&& old.metas().is_prefix_of(new.metas())
    &&& new.metas().len() <= old.metas().len() + 1
    &&& (id.0 as int) < new.metas().len()
    &&& new.metas()[id.0 as int] == obj_to_meta(new.labels(), o)
}

/// Extending the labels with names not in `f` leaves the ids of `f` unchanged, once all
/// names of `f` are interned.
proof fn lemma_names_stable(l1: Seq<Seq<char>>, l3: Seq<Seq<char>>, f: NameSetView)
    requires
        l1.is_prefix_of(l3),
        names_interned(f, l1),
        forall|i: int, j: int|
            0 <= i < l3.len() && 0 <= j < l3.len() && #[trigger] l3[i] == #[trigger] l3[j] ==> i == j,
    ensures
        field_ids(l1, f) == field_ids(l3, f),
{
    if let Some(names) = f {
        assert(names_interned(Some(names), l1));
        assert forall|i: u32|
            ids_named(l1, names).contains(i) == ids_named(l3, names).contains(i) by {
            if (i as int) < l3.len() && names.contains(l3[i as int]) && (i as int) >= l1.len() {
                let w = Some(names)->0;
                assert(w == names);
                assert(l1.contains(l3[i as int]));
                let j = choose|j: int| 0 <= j < l1.len() && l1[j] == l3[i as int];
                assert(l3[j] == l1[j]);
            }
            if (i as int) < l1.len() {
                assert(l3[i as int] == l1[i as int]);
            }
        }
        assert(ids_named(l1, names) =~= ids_named(l3, names));
    }
}

/// Interned names stay interned when labels are added.
proof fn lemma_names_interned_grow(f: NameSetView, l1: Seq<Seq<char>>, l2: Seq<Seq<char>>)
    requires
        names_interned(f, l1),
        l1.is_prefix_of(l2),
    ensures
        names_interned(f, l2),
{
    if let Some(names) = f {
        assert(names_interned(Some(names), l1));
        assert forall|t: Seq<char>| names.contains(t) implies l2.contains(t) by {
            let w = Some(names)->0;
            assert(w == names);
            assert(l1.contains(t));
            let j = choose|j: int| 0 <= j < l1.len() && l1[j] == t;
            assert(l2[j] == t);
        }
    }
}

/// Ids of interned names are below the label count.
proof fn lemma_ids_named_below(labels: Seq<Seq<char>>, o: ObjView)
    ensures
        meta_below(obj_to_meta(labels, o), labels.len() as int),
{
    if let Some(p) = o.0 {
        let v = ids_named(labels, p);
        assert forall|x: u32| v.contains(x) implies x < labels.len() by {}
    }
    if let Some(c) = o.1 {
        let v = ids_named(labels, c);
        assert forall|x: u32| v.contains(x) implies x < labels.len() by {}
    }
    if let Some(t) = o.2 {
        let v = ids_named(labels, t);
        assert forall|x: u32| v.contains(x) implies x < labels.len() by {}
    }
}

/// What [`MetadataStore::intern_label`] guarantees: `id` names `name` in `new`, which is
/// `old` with `name` appended when it was not interned yet.
pub open spec fn interned_label(old: MetadataStore, name: Seq<char>, new: MetadataStore, id: LabelId) -> bool {
    &&& new.wf()
    &&& new.metas() == old.metas()
    &&& (id.0 as int) < new.labels().len()
    &&& new.labels()[id.0 as int] == name
    &&& old.labels().contains(name) ==> new.labels() == old.labels()
    &&& !old.labels().contains(name) ==> new.labels() == old.labels().push(name) && id.0
        == old.labels().len()
}

/// What [`MetadataStore::intern`] guarantees: `id` names the record `m` in `new`, which is
/// `old` with `m` appended when no equal record was interned yet.
pub open spec fn interned_meta(old: MetadataStore, m: MetaView, new: MetadataStore, id: MetadataId) -> bool {
    &&& new.wf()
    &&& new.labels() == old.labels()
    &&& (id.0 as int) < new.metas().len()
    &&& new.metas()[id.0 as int] == m
    &&& old.metas().contains(m) ==> new.metas() == old.metas()
    &&& !old.metas().contains(m) ==> new.metas() == old.metas().push(m) && id.0 == old.metas().len()
}

/// What [`MetadataStore::merge`] guarantees: `new` is `old` with at most one record
/// added, and `r` names the merge of the records named by `a` and `b`.
pub open spec fn merged_into(
    old: MetadataStore,
    a: MetadataId,
    b: MetadataId,
    new: MetadataStore,
    r: MetadataId,
) -> bool {
    &&& new.wf()
    &&& new.labels() == old.labels()
    &&& old.metas().is_prefix_of(new.metas())
    &&& new.metas().len() <= old.metas().len() + 1
    &&& (r.0 as int) < new.metas().len()
    &&& new.metas()[r.0 as int] == merge_view(old.metas()[a.0 as int], old.metas()[b.0 as int])
}

/// A label bound that holds for `n1` holds for any larger `n2`.
pub proof fn lemma_meta_below_mono(m: MetaView, n1: int, n2: int)
    requires
        meta_below(m, n1),
        n1 <= n2,
    ensures
        meta_below(m, n2),
{
    lemma_view_below_mono(m.0, n1, n2);
    lemma_view_below_mono(m.1, n1, n2);
    lemma_view_below_mono(m.2, n1, n2);
}

proof fn lemma_view_below_mono(v: Option<Set<u32>>, n1: int, n2: int)
    requires
        view_below(v, n1),
        n1 <= n2,
    ensures
        view_below(v, n2),
{
    if let Some(s) = v {
        assert(view_below(Some(s), n1));
        assert forall|x: u32| s.contains(x) implies x < n2 by {
            let w = Some(s)->0;
            assert(w == s);
        }
    }
}

} // verus!

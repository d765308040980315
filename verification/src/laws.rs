//! The algebra of metadata propagation, the guarantees of the store, and how the virtual
//! machine keeps each element's metadata, stated over the views and effects that the
//! operations' contracts use.
use vstd::prelude::*;
use crate::label_set::{LabelSet, union_view, inter_view, lemma_label_set_canonical};
use crate::label_vec::LabelId;
use crate::metadata::{
    LabelView, MetaView, MetadataId, ObjView, default_view, default_obj_view, merge_view,
    lemma_merge_view_default,
};
use crate::store::{
    MetadataStore, interned_label, interned_meta, merged_into, interned_object, names_interned,
    ids_named, names_of, field_ids, field_names, obj_to_meta, meta_to_obj,
};
use crate::vm::{VM, find_entry, lemma_find_entry, dict_set_spec, find_value, lemma_find_value};
use crate::collections::{set_added, set_built, set_add_done, first_unhashable};
use crate::heap::DictEntry;
use crate::exceptions::{RunError, ExcType, ErrorKind};
use crate::collections::{dict_merged, kwargs_merge};
use crate::value::{Value, HeapId};
use crate::collections::{list_built, tuple_built, sequence_unpacked, rev, unpack_source, ItemSource};
use crate::exceptions::RunResult;
use crate::io::{PrintWriter, PrintWriterCallback};
use crate::collections::{iter_source, source_items, source_len};
use crate::iter::{
    iter_made, iter_of, iter_step, IterStep, iter_rest, iter_moved, iter_slot_moved, lemma_iter_source_moved,
};
use crate::builtins::{
    next_taken, stop_iteration, BuiltinResult, all_answered, all_of_iterator_effect, all_taken, item_truthy, truthy, lemma_all_taken_false,
};
use crate::heap::{value_ok, data_ok, HeapData, PyIter};
use crate::display::{repr_text, str_text, pairs_text, items_text};
use crate::object::{MontyObject, AnnotatedDictPairs};
use crate::metadata::AnnotatedObject;

verus! {

// ---------------------------------------------------------------------------
// Label set algebra
// ---------------------------------------------------------------------------

/// Union of label sets is commutative.
pub proof fn law_union_commutative(a: LabelView, b: LabelView)
    ensures
        union_view(a, b) == union_view(b, a),
{
    if let (Some(x), Some(y)) = (a, b) {
        assert(x.union(y) =~= y.union(x));
    }
}

/// Union of label sets is associative.
pub proof fn law_union_associative(a: LabelView, b: LabelView, c: LabelView)
    ensures
        union_view(union_view(a, b), c) == union_view(a, union_view(b, c)),
{
    if let (Some(x), Some(y), Some(z)) = (a, b, c) {
        assert(x.union(y).union(z) =~= x.union(y.union(z)));
    }
}

/// The universal set absorbs every set under union.
pub proof fn law_union_universal(a: LabelView)
    ensures
        union_view(None, a) is None,
        union_view(a, None) is None,
{
}

/// The empty set is the identity of union.
pub proof fn law_union_empty(a: LabelView)
    ensures
        union_view(Some(Set::empty()), a) == a,
        union_view(a, Some(Set::empty())) == a,
{
    if let Some(x) = a {
        assert(Set::<u32>::empty().union(x) =~= x);
        assert(x.union(Set::<u32>::empty()) =~= x);
    }
}

/// Union of a set with itself is the set.
pub proof fn law_union_idempotent(a: LabelView)
    ensures
        union_view(a, a) == a,
{
    if let Some(x) = a {
        assert(x.union(x) =~= x);
    }
}

/// Intersection of label sets is commutative.
pub proof fn law_intersection_commutative(a: LabelView, b: LabelView)
    ensures
        inter_view(a, b) == inter_view(b, a),
{
    if let (Some(x), Some(y)) = (a, b) {
        assert(x.intersect(y) =~= y.intersect(x));
    }
}

/// Intersection of label sets is associative.
pub proof fn law_intersection_associative(a: LabelView, b: LabelView, c: LabelView)
    ensures
        inter_view(inter_view(a, b), c) == inter_view(a, inter_view(b, c)),
{
    if let (Some(x), Some(y), Some(z)) = (a, b, c) {
        assert(x.intersect(y).intersect(z) =~= x.intersect(y.intersect(z)));
    }
}

/// The universal set is the identity of intersection.
pub proof fn law_intersection_universal(a: LabelView)
    ensures
        inter_view(None, a) == a,
        inter_view(a, None) == a,
{
}

/// The empty set absorbs every set under intersection.
pub proof fn law_intersection_empty(a: LabelView)
    ensures
        inter_view(Some(Set::empty()), a) == Some(Set::<u32>::empty()),
        inter_view(a, Some(Set::empty())) == Some(Set::<u32>::empty()),
{
    if let Some(x) = a {
        assert(Set::<u32>::empty().intersect(x) =~= Set::<u32>::empty());
        assert(x.intersect(Set::<u32>::empty()) =~= Set::<u32>::empty());
    }
}

/// Intersection of a set with itself is the set.
pub proof fn law_intersection_idempotent(a: LabelView)
    ensures
        inter_view(a, a) == a,
{
    if let Some(x) = a {
        assert(x.intersect(x) =~= x);
    }
}

/// Every set of labels has exactly one representation: two well-formed label sets with the
/// same contents store the same ids, so they are `==`.
pub proof fn law_label_set_canonical(a: LabelSet, b: LabelSet)
    requires
        a.wf(),
        b.wf(),
        a@ == b@,
    ensures
        a.key() == b.key(),
{
    lemma_label_set_canonical(a, b);
}

// ---------------------------------------------------------------------------
// Metadata merge algebra
// ---------------------------------------------------------------------------

/// Merging metadata is commutative.
pub proof fn law_merge_commutative(a: MetaView, b: MetaView)
    ensures
        merge_view(a, b) == merge_view(b, a),
{
    law_union_commutative(a.0, b.0);
    law_intersection_commutative(a.1, b.1);
    law_union_commutative(a.2, b.2);
}

/// Merging metadata is associative.
pub proof fn law_merge_associative(a: MetaView, b: MetaView, c: MetaView)
    ensures
        merge_view(merge_view(a, b), c) == merge_view(a, merge_view(b, c)),
{
    law_union_associative(a.0, b.0, c.0);
    law_intersection_associative(a.1, b.1, c.1);
    law_union_associative(a.2, b.2, c.2);
}

/// The default metadata is the identity of merging, on either side.
pub proof fn law_merge_default_identity(a: MetaView)
    ensures
        merge_view(default_view(), a) == a,
        merge_view(a, default_view()) == a,
{
    lemma_merge_view_default(a);
}

/// Merging metadata with itself gives it back.
pub proof fn law_merge_idempotent(a: MetaView)
    ensures
        merge_view(a, a) == a,
{
    law_union_idempotent(a.0);
    law_intersection_idempotent(a.1);
    law_union_idempotent(a.2);
}

// ---------------------------------------------------------------------------
// The store
// ---------------------------------------------------------------------------

/// Interning a label twice gives the same id, the second time without changing the store,
/// and the id resolves back to the label.
pub proof fn law_intern_label_idempotent(
    s0: MetadataStore,
    name: Seq<char>,
    s1: MetadataStore,
    id1: LabelId,
    s2: MetadataStore,
    id2: LabelId,
)
    requires
        s0.wf(),
        interned_label(s0, name, s1, id1),
        interned_label(s1, name, s2, id2),
    ensures
        id1 == id2,
        s2.labels() == s1.labels(),
        s2.metas() == s1.metas(),
        s1.labels()[id1.0 as int] == name,
{
    assert(s1.labels().contains(name)) by {
        assert(s1.labels()[id1.0 as int] == name);
    }
    s2.lemma_wf();
    assert(id1.0 == id2.0);
}

/// Two labels interned one after the other get the same id exactly when they are the same
/// string.
pub proof fn law_intern_label_distinct(
    s0: MetadataStore,
    n1: Seq<char>,
    s1: MetadataStore,
    id1: LabelId,
    n2: Seq<char>,
    s2: MetadataStore,
    id2: LabelId,
)
    requires
        s0.wf(),
        interned_label(s0, n1, s1, id1),
        interned_label(s1, n2, s2, id2),
    ensures
        (id1 == id2) <==> (n1 == n2),
{
    s2.lemma_wf();
    assert(s1.labels().is_prefix_of(s2.labels()) || s2.labels() == s1.labels());
    assert(s2.labels()[id1.0 as int] == n1);
    if n1 == n2 {
        assert(id1.0 == id2.0);
    }
}

/// Interning a record gives an id that resolves back to it, and interning an equal record
/// again gives the same id without changing the store.
pub proof fn law_intern_dedup(
    s0: MetadataStore,
    m: MetaView,
    s1: MetadataStore,
    id1: MetadataId,
    s2: MetadataStore,
    id2: MetadataId,
)
    requires
        s0.wf(),
        interned_meta(s0, m, s1, id1),
        interned_meta(s1, m, s2, id2),
    ensures
        s1.metas()[id1.0 as int] == m,
        id1 == id2,
        s2.metas() == s1.metas(),
        s2.labels() == s1.labels(),
{
    assert(s1.metas().contains(m)) by {
        assert(s1.metas()[id1.0 as int] == m);
    }
    s2.lemma_wf();
    assert(id1.0 == id2.0);
}

/// Interning the default metadata gives the default id and changes nothing.
pub proof fn law_intern_default(s0: MetadataStore, s1: MetadataStore, id: MetadataId)
    requires
        s0.wf(),
        interned_meta(s0, default_view(), s1, id),
    ensures
        id.0 == 0,
        s1.metas() == s0.metas(),
{
    s0.lemma_wf();
    assert(s0.metas().contains(default_view())) by {
        assert(s0.metas()[0] == default_view());
    }
    s1.lemma_wf();
}

/// Merging with the default id returns the other id and leaves the store as it was.
pub proof fn law_merge_default_ids(
    s0: MetadataStore,
    a: MetadataId,
    b: MetadataId,
    s1: MetadataStore,
    r: MetadataId,
)
    requires
        s0.wf(),
        (a.0 as int) < s0.metas().len(),
        (b.0 as int) < s0.metas().len(),
        merged_into(s0, a, b, s1, r),
    ensures
        a.0 == 0 ==> s1.metas()[r.0 as int] == s0.metas()[b.0 as int],
        b.0 == 0 ==> s1.metas()[r.0 as int] == s0.metas()[a.0 as int],
{
    s0.lemma_wf();
    lemma_merge_view_default(s0.metas()[a.0 as int]);
    lemma_merge_view_default(s0.metas()[b.0 as int]);
}

/// Merging two ids in either order gives the same id.
pub proof fn law_merge_ids_commutative(
    s0: MetadataStore,
    a: MetadataId,
    b: MetadataId,
    s1: MetadataStore,
    ab: MetadataId,
    s2: MetadataStore,
    ba: MetadataId,
)
    requires
        s0.wf(),
        (a.0 as int) < s0.metas().len(),
        (b.0 as int) < s0.metas().len(),
        merged_into(s0, a, b, s1, ab),
        merged_into(s1, b, a, s2, ba),
    ensures
        ab == ba,
{
    let m0 = s0.metas();
    assert(s1.metas()[a.0 as int] == m0[a.0 as int]);
    assert(s1.metas()[b.0 as int] == m0[b.0 as int]);
    assert(s2.metas()[ab.0 as int] == s1.metas()[ab.0 as int]);
    law_merge_commutative(m0[a.0 as int], m0[b.0 as int]);
    s2.lemma_wf();
    assert(s2.metas()[ab.0 as int] == s2.metas()[ba.0 as int]);
    assert(ab.0 == ba.0);
}

/// Merging three ids gives the same id whichever pair is merged first.
pub proof fn law_merge_ids_associative(
    s0: MetadataStore,
    a: MetadataId,
    b: MetadataId,
    c: MetadataId,
    s1: MetadataStore,
    ab: MetadataId,
    s2: MetadataStore,
    ab_c: MetadataId,
    s3: MetadataStore,
    bc: MetadataId,
    s4: MetadataStore,
    a_bc: MetadataId,
)
    requires
        s0.wf(),
        (a.0 as int) < s0.metas().len(),
        (b.0 as int) < s0.metas().len(),
        (c.0 as int) < s0.metas().len(),
        merged_into(s0, a, b, s1, ab),
        merged_into(s1, ab, c, s2, ab_c),
        merged_into(s2, b, c, s3, bc),
        merged_into(s3, a, bc, s4, a_bc),
    ensures
        ab_c == a_bc,
{
    let m0 = s0.metas();
    let (va, vb, vc) = (m0[a.0 as int], m0[b.0 as int], m0[c.0 as int]);
    assert(s1.metas()[a.0 as int] == va && s1.metas()[b.0 as int] == vb && s1.metas()[c.0 as int] == vc);
    assert(s2.metas()[a.0 as int] == va && s2.metas()[b.0 as int] == vb && s2.metas()[c.0 as int] == vc);
    assert(s3.metas()[a.0 as int] == va);
    assert(s2.metas()[ab_c.0 as int] == merge_view(merge_view(va, vb), vc));
    assert(s3.metas()[bc.0 as int] == merge_view(vb, vc));
    assert(s4.metas()[a_bc.0 as int] == merge_view(va, merge_view(vb, vc)));
    law_merge_associative(va, vb, vc);
    assert(s3.metas()[ab_c.0 as int] == s2.metas()[ab_c.0 as int]);
    assert(s4.metas()[ab_c.0 as int] == s3.metas()[ab_c.0 as int]);
    s4.lemma_wf();
    assert(ab_c.0 == a_bc.0);
}

/// Boundary metadata survives a round trip through the store: interning it and reading the
/// id back gives it again, except that the default metadata reads back as `None`.
pub proof fn law_object_metadata_roundtrip(
    s0: MetadataStore,
    o: ObjView,
    s1: MetadataStore,
    id: MetadataId,
)
    requires
        s0.wf(),
        interned_object(s0, o, s1, id),
    ensures
        s1.exported(id) == (if o == default_obj_view() {
            None
        } else {
            Some(o)
        }),
{
    let labels = s1.labels();
    s1.lemma_wf();
    lemma_field_roundtrip(labels, o.0);
    lemma_field_roundtrip(labels, o.1);
    lemma_field_roundtrip(labels, o.2);
    assert(meta_to_obj(labels, obj_to_meta(labels, o)) == o);
    if o == default_obj_view() {
        assert(ids_named(labels, Set::empty()) =~= Set::<u32>::empty());
        assert(obj_to_meta(labels, o) == default_view());
        assert(s1.metas()[0] == s1.metas()[id.0 as int]);
    } else {
        if id.0 == 0 {
            assert(obj_to_meta(labels, o) == default_view());
            lemma_field_empty(labels, o.0);
            lemma_field_empty(labels, o.2);
            assert(o == default_obj_view());
        }
    }
}

/// Interned names, turned into ids and back, are the names again.
proof fn lemma_field_roundtrip(labels: Seq<Seq<char>>, f: Option<Set<Seq<char>>>)
    requires
        names_interned(f, labels),
        labels.len() <= 0x1_0000_0000,
    ensures
        field_names(labels, field_ids(labels, f)) == f,
{
    if let Some(n) = f {
        assert(names_interned(Some(n), labels));
        let ids = ids_named(labels, n);
        assert forall|t: Seq<char>| names_of(labels, ids).contains(t) == n.contains(t) by {
            let w = Some(n)->0;
            assert(w == n);
            if n.contains(t) {
                assert(labels.contains(t));
                let j = choose|j: int| 0 <= j < labels.len() && labels[j] == t;
                let i = j as u32;
                assert(ids.contains(i));
            }
        }
        assert(names_of(labels, ids) =~= n);
    }
}

/// Interned names that map to no ids are no names.
proof fn lemma_field_empty(labels: Seq<Seq<char>>, f: Option<Set<Seq<char>>>)
    requires
        names_interned(f, labels),
        labels.len() <= 0x1_0000_0000,
        field_ids(labels, f) == Some(Set::<u32>::empty()),
    ensures
        f == Some(Set::<Seq<char>>::empty()),
{
    lemma_field_roundtrip(labels, f);
    assert(names_of(labels, Set::<u32>::empty()) =~= Set::<Seq<char>>::empty());
}

// ---------------------------------------------------------------------------
// Element-level metadata in the virtual machine
// ---------------------------------------------------------------------------

/// Building a list (or a tuple) from the top `n` values and unpacking it into `n` targets,
/// as `a, b = [x, y]` does, succeeds and leaves those values on the stack in reverse order,
/// the first on top, each with the metadata it had: no element takes another's metadata,
/// and the container's own default metadata is gone with it.
pub proof fn law_build_unpack_roundtrip(a: VM, b: VM, c: VM, n: usize, r: RunResult, tuple: bool)
    requires
        a.wf(),
        n <= a.stack@.len(),
        if tuple {
            tuple_built(a, b, n as int)
        } else {
            list_built(a, b, n as int)
        },
        sequence_unpacked(b, c, n, r),
    ensures
        r is Ok,
        ({
            let len = a.stack@.len() as int;
            &&& c.stack@ == a.stack@.subrange(0, len - n) + rev(a.stack@.subrange(len - n, len))
            &&& c.meta_stack@ == a.meta_stack@.subrange(0, len - n) + rev(a.meta_stack@.subrange(len - n, len))
            &&& c.heap.entries@ == b.heap.entries@
        }),
{
    let len = a.stack@.len() as int;
    let h = a.hlen();
    assert(a.heap.entries@.len() == a.heap.entries.len());
    let slot = b.heap.entries@[h];
    assert(slot == b.heap.entries@.last());
    let top = b.stack@.last();
    assert(top == Value::Ref(HeapId(h as usize)));
    let items = a.stack@.subrange(len - n, len);
    let metas = a.meta_stack@.subrange(len - n, len);
    assert(unpack_source(b, top) == ItemSource::Items(items, metas));
    assert(b.stack@.drop_last() =~= a.stack@.subrange(0, len - n));
    assert(b.meta_stack@.drop_last() =~= a.meta_stack@.subrange(0, len - n));
    assert(c.heap.entries@ =~= b.heap.entries@);
}

/// Taking the next item of a new iterator over a non-empty list, tuple or set, as
/// `next(iter(xs))` does, gives the first element with that element's own metadata, not
/// the container's.
pub proof fn law_next_of_new_iterator(
    a: VM,
    b: VM,
    c: VM,
    made: RunResult,
    args: Seq<Value>,
    r: BuiltinResult,
)
    requires
        a.wf(),
        a.stack@.len() >= 1,
        iter_of(a, a.stack@.last()) is None,
        iter_source(a, a.stack@.last()) matches ItemSource::Items(vs, _) && vs.len() > 0,
        iter_made(a, b, made),
        args.len() == 1 || args.len() == 2,
        args[0] == b.stack@.last(),
        next_taken(b, c, args, r),
    ensures
        made is Ok,
        iter_source(a, a.stack@.last()) matches ItemSource::Items(vs, ms) && r == BuiltinResult::Ok(vs[0])
            && c.pending_result_metadata == ms[0],
{
    let v = a.stack@.last();
    assert(value_ok(v, a.hlen(), a.ilen()));
    let id = v->Ref_0.0 as int;
    assert(b.heap.entries@[id] == a.heap.entries@[id]);
    assert(iter_source(b, v) == iter_source(a, v));
    assert(a.heap.entries@.len() == a.heap.entries.len());
    let it = PyIter { source: v, source_meta: a.meta_stack@.last(), index: 0 };
    assert(b.heap.entries@[a.hlen()] == HeapData::Iter(it));
    assert(iter_of(b, args[0]) == Some(it));
    if let ItemSource::Items(vs, ms) = iter_source(a, v) {
        assert(iter_step(b, it) == IterStep::Item(vs[0], ms[0]));
    }
}

/// `all()` on an iterator over a list, tuple or set whose first false item, from the
/// iterator's position `k`, is the `j`-th one answers `False` and leaves the iterator just
/// past that item: a following `next()` gives the item after it, with its own metadata, or
/// the default or `StopIteration` when it was the last.
pub proof fn law_all_then_next(
    a: VM,
    b: VM,
    c: VM,
    v: Value,
    it: PyIter,
    answer: BuiltinResult,
    j: int,
    args: Seq<Value>,
    r: BuiltinResult,
)
    requires
        a.wf(),
        value_ok(v, a.hlen(), a.ilen()),
        iter_of(a, v) == Some(it),
        iter_source(a, it.source) matches ItemSource::Items(vs, _) && it.index + j < vs.len(),
        0 <= j,
        iter_source(a, it.source) matches ItemSource::Items(vs, _) && (forall|i: int|
            0 <= i < j ==> #[trigger] truthy(a, vs[it.index + i])) && !truthy(a, vs[it.index + j]),
        all_of_iterator_effect(a, b, v, it, answer),
        b.interns == a.interns,
        args.len() == 1 || args.len() == 2,
        args[0] == v,
        next_taken(b, c, args, r),
    ensures
        answer == BuiltinResult::Ok(Value::Bool(false)),
        iter_source(a, it.source) matches ItemSource::Items(vs, ms) && (it.index + j + 1 < vs.len() ==> r
            == BuiltinResult::Ok(vs[it.index + j + 1]) && c.pending_result_metadata == ms[it.index + j + 1]),
{
    let id = v->Ref_0.0 as int;
    let k = it.index as int;
    assert(data_ok(a.heap.entries@[id], a.hlen(), a.ilen()));
    if let ItemSource::Items(vs, ms) = iter_source(a, it.source) {
        let src = iter_rest(a, it);
        assert(src == ItemSource::Items(vs.skip(k), ms.skip(k)));
        assert forall|i: int| 0 <= i < j implies #[trigger] item_truthy(a, src, i) by {
            assert(vs.skip(k)[i] == vs[k + i]);
            assert(truthy(a, vs[k + i]));
        }
        assert(vs.skip(k)[j] == vs[k + j]);
        assert(!item_truthy(a, src, j));
        lemma_all_taken_false(a, src, 0, j);
        assert(iter_slot_moved(a, b, id));
        lemma_iter_source_moved(a, b, id, it.source);
        let it2 = PyIter { source: it.source, source_meta: it.source_meta, index: (k + j + 1) as usize };
        assert(b.heap.entries@[id] == HeapData::Iter(it2));
        assert(iter_of(b, v) == Some(it2));
        if k + j + 1 < vs.len() {
            let sid = it.source->Ref_0.0 as int;
            match a.heap.entries@[sid] {
                HeapData::List(l) => assert(l.items@.len() == l.items.len()),
                HeapData::Tuple(t) => assert(t.items@.len() == t.items.len()),
                HeapData::PySet(st) => assert(st.items@.len() == st.items.len()),
                _ => {},
            }
            assert(it2.index as int == k + j + 1);
            assert(iter_step(b, it2) == IterStep::Item(vs[k + j + 1], ms[k + j + 1]));
        }
    }
}

/// Text written through a reborrow of a collecting writer lands in the original writer's
/// string: after `reborrow()` (the writer `w` becoming `after`, the reborrow `r`),
/// `stdout_write(text)` on `r` (which becomes `r2`), and the end of the reborrow, the
/// original's string is its old one followed by `text`.
pub proof fn law_reborrow_then_write<'a, 'b, C: PrintWriterCallback>(
    w: PrintWriter<'a, C>,
    after: PrintWriter<'a, C>,
    r: PrintWriter<'b, C>,
    r2: PrintWriter<'b, C>,
    text: Seq<char>,
)
    requires
        w matches PrintWriter::Collect(b) ==> (r matches PrintWriter::Collect(rb) && *rb == *b && (
        after matches PrintWriter::Collect(b2) && *b2 == mut_ref_future(rb) && mut_ref_future(b2)
            == mut_ref_future(b))),
        r matches PrintWriter::Collect(rb) ==> (r2 matches PrintWriter::Collect(rb2) && rb2@ == rb@ + text
            && mut_ref_future(rb2) == mut_ref_future(rb)),
        r2 matches PrintWriter::Collect(rb2) ==> *rb2 == mut_ref_future(rb2),
    ensures
        w matches PrintWriter::Collect(b) ==> (after matches PrintWriter::Collect(b2) && b2@ == b@ + text),
{
}

// ---------------------------------------------------------------------------
// Keyword arguments from `**mapping`
// ---------------------------------------------------------------------------

/// Merging keyword entries that all have string keys, none of them a key of `es0`, from
/// index `k` on, into entries that keep the keys of `es0` in front.
proof fn lemma_kwargs_merge_ok(vm: VM, es0: Seq<DictEntry>, es: Seq<DictEntry>, src: Seq<DictEntry>, k: int)
    requires
        0 <= k <= src.len(),
        es0.len() <= es.len(),
        forall|i: int| 0 <= i < es0.len() ==> #[trigger] es[i].key == es0[i].key,
        kwargs_merge(vm, es, src, k).1 is None,
    ensures
        forall|m: int| k <= m < src.len() ==> vm.text_view(#[trigger] src[m].key) is Some,
        forall|m: int, i: int|
            k <= m < src.len() && 0 <= i < es0.len() ==> vm.key_view(#[trigger] es0[i].key) != vm.key_view(
                #[trigger] src[m].key,
            ),
    decreases src.len() - k,
{
    if k < src.len() {
        let key = src[k].key;
        lemma_find_entry(vm, es, key, 0);
        assert(find_entry(vm, es, key, 0) is None);
        let es2 = dict_set_spec(vm, es, key, src[k].key_meta, src[k].value, src[k].value_meta);
        assert(es2 == es.push(DictEntry { key, key_meta: src[k].key_meta, value: src[k].value, value_meta: src[k].value_meta }));
        assert forall|i: int| 0 <= i < es0.len() implies #[trigger] es2[i].key == es0[i].key by {
            assert(es2[i] == es[i]);
        }
        lemma_kwargs_merge_ok(vm, es0, es2, src, k + 1);
        assert forall|i: int| 0 <= i < es0.len() implies vm.key_view(#[trigger] es0[i].key) != vm.key_view(key) by {
            assert(es[i].key == es0[i].key);
        }
    }
}

/// `f(**mapping)` succeeds only when every key of the mapping is a string and none of them
/// is already a keyword of the call, at any position of the keyword dict.
pub proof fn law_dict_merge_ok_keys_new(a: VM, b: VM, func_name_id: u16, r: RunResult)
    requires
        a.wf(),
        a.stack@.len() >= 2,
        a.stack@[a.stack@.len() - 1] is Ref,
        a.heap.entries@[a.stack@[a.stack@.len() - 1]->Ref_0.0 as int] is Dict,
        a.stack@[a.stack@.len() - 2] is Ref,
        dict_merged(a, b, func_name_id, r),
        r is Ok,
    ensures
        ({
            let es0 = a.heap.entries@[a.stack@[a.stack@.len() - 2]->Ref_0.0 as int]->Dict_0.entries@;
            let src = a.heap.entries@[a.stack@[a.stack@.len() - 1]->Ref_0.0 as int]->Dict_0.entries@;
            &&& forall|m: int| 0 <= m < src.len() ==> a.text_view(#[trigger] src[m].key) is Some
            &&& forall|m: int, i: int|
                0 <= m < src.len() && 0 <= i < es0.len() ==> a.key_view(#[trigger] es0[i].key) != a.key_view(
                    #[trigger] src[m].key,
                )
        }),
{
    let es0 = a.heap.entries@[a.stack@[a.stack@.len() - 2]->Ref_0.0 as int]->Dict_0.entries@;
    let src = a.heap.entries@[a.stack@[a.stack@.len() - 1]->Ref_0.0 as int]->Dict_0.entries@;
    assert(kwargs_merge(a, es0, src, 0).1 is None);
    lemma_kwargs_merge_ok(a, es0, es0, src, 0);
}

/// `f(a=1, **{'a': 3})`: when the first key of the mapping is a string that the keyword
/// dict already holds, at any position, the call raises `TypeError: f() got multiple values
/// for keyword argument` naming that key.
pub proof fn law_dict_merge_repeated_keyword(a: VM, b: VM, func_name_id: u16, r: RunResult, i: int)
    requires
        a.wf(),
        a.stack@.len() >= 2,
        a.stack@[a.stack@.len() - 1] is Ref,
        a.heap.entries@[a.stack@[a.stack@.len() - 1]->Ref_0.0 as int] is Dict,
        a.stack@[a.stack@.len() - 2] is Ref,
        ({
            let es0 = a.heap.entries@[a.stack@[a.stack@.len() - 2]->Ref_0.0 as int]->Dict_0.entries@;
            let src = a.heap.entries@[a.stack@[a.stack@.len() - 1]->Ref_0.0 as int]->Dict_0.entries@;
            &&& src.len() > 0
            &&& a.text_view(src[0].key) is Some
            &&& 0 <= i < es0.len()
            &&& a.key_view(es0[i].key) == a.key_view(src[0].key)
        }),
        dict_merged(a, b, func_name_id, r),
    ensures
        ({
            let src = a.heap.entries@[a.stack@[a.stack@.len() - 1]->Ref_0.0 as int]->Dict_0.entries@;
            r matches Err(RunError::Exception(exc)) && exc.exc_type == ExcType::TypeError
                && exc.kind is MultipleValues && exc.kind->key@ == a.text_view(src[0].key)->0
        }),
{
    let es0 = a.heap.entries@[a.stack@[a.stack@.len() - 2]->Ref_0.0 as int]->Dict_0.entries@;
    let src = a.heap.entries@[a.stack@[a.stack@.len() - 1]->Ref_0.0 as int]->Dict_0.entries@;
    lemma_find_entry(a, es0, src[0].key, 0);
    assert(find_entry(a, es0, src[0].key, 0) is Some);
    assert(kwargs_merge(a, es0, src, 0).1 == Some(0int));
}

// ---------------------------------------------------------------------------
// Iterators at any position
// ---------------------------------------------------------------------------

/// `next()` on an iterator at position `k` over a list, tuple or set gives the item at `k`
/// with that item's own metadata, and over a dict the key at `k` with the metadata the
/// iterator took from the dict; either way it moves the iterator to `k + 1` and allocates
/// nothing. Past the last item it gives the default, or raises `StopIteration` when there is
/// none, and changes nothing on the heap.
pub proof fn law_next_at_position(b: VM, c: VM, v: Value, it: PyIter, args: Seq<Value>, r: BuiltinResult)
    requires
        b.wf(),
        value_ok(v, b.hlen(), b.ilen()),
        iter_of(b, v) == Some(it),
        args.len() == 1 || args.len() == 2,
        args[0] == v,
        next_taken(b, c, args, r),
    ensures
        iter_source(b, it.source) matches ItemSource::Items(vs, ms) ==> (it.index < vs.len() ==> {
            &&& r == BuiltinResult::Ok(vs[it.index as int])
            &&& c.pending_result_metadata == ms[it.index as int]
            &&& c.heap.entries@.len() == b.hlen()
            &&& iter_of(c, v) == Some(PyIter { source: it.source, source_meta: it.source_meta, index: (it.index + 1) as usize })
        }),
        iter_source(b, it.source) matches ItemSource::Keys(ks) ==> (it.index < ks.len() ==> {
            &&& r == BuiltinResult::Ok(ks[it.index as int])
            &&& c.pending_result_metadata == it.source_meta
            &&& c.heap.entries@.len() == b.hlen()
            &&& iter_of(c, v) == Some(PyIter { source: it.source, source_meta: it.source_meta, index: (it.index + 1) as usize })
        }),
        source_len(iter_source(b, it.source)) <= it.index ==> {
            &&& c.heap == b.heap
            &&& args.len() == 2 ==> r == BuiltinResult::Ok(args[1])
            &&& args.len() == 1 ==> r == BuiltinResult::Err(stop_iteration())
        },
{
    let id = v->Ref_0.0 as int;
    assert(data_ok(b.heap.entries@[id], b.hlen(), b.ilen()));
    assert(value_ok(it.source, b.hlen(), b.ilen()));
    let k = it.index as int;
    match iter_source(b, it.source) {
        ItemSource::Items(vs, ms) => {
            if k < vs.len() {
                assert(iter_step(b, it) == IterStep::Item(vs[k], ms[k]));
            }
        },
        ItemSource::Keys(ks) => {
            if k < ks.len() {
                assert(iter_step(b, it) == IterStep::Item(ks[k], it.source_meta));
            }
        },
        ItemSource::Chars(cs) => {},
        ItemSource::NotIterable(_) => {},
    }
}

/// `next()` on an iterator over a string `s` at position `k < len(s)` gives a new string
/// holding just `s[k]`, with the metadata the iterator took from the string, and moves the
/// iterator to `k + 1` over the same, unchanged string: a following `next()` gives `s[k + 1]`.
pub proof fn law_next_on_string(
    b: VM,
    c: VM,
    v: Value,
    it: PyIter,
    s: Seq<char>,
    args: Seq<Value>,
    r: BuiltinResult,
)
    requires
        b.wf(),
        value_ok(v, b.hlen(), b.ilen()),
        iter_of(b, v) == Some(it),
        b.text_view(it.source) == Some(s),
        it.index < s.len(),
        args.len() == 1 || args.len() == 2,
        args[0] == v,
        next_taken(b, c, args, r),
    ensures
        r == BuiltinResult::Ok(Value::Ref(HeapId(b.hlen() as usize))),
        c.heap.entries@.len() == b.hlen() + 1,
        c.heap.entries@.last() is Str,
        c.heap.entries@.last()->Str_0@ == seq![s[it.index as int]],
        c.pending_result_metadata == it.source_meta,
        iter_of(c, v) == Some(PyIter { source: it.source, source_meta: it.source_meta, index: (it.index + 1) as usize }),
        c.interns == b.interns ==> c.text_view(it.source) == Some(s),
{
    let id = v->Ref_0.0 as int;
    assert(data_ok(b.heap.entries@[id], b.hlen(), b.ilen()));
    assert(value_ok(it.source, b.hlen(), b.ilen()));
    assert(iter_source(b, it.source) == ItemSource::Chars(s));
    assert(iter_step(b, it) == IterStep::Char(s[it.index as int]));
    let h0 = b.heap.entries@;
    let h = c.heap.entries@;
    assert(h0.len() == b.heap.entries.len());
    assert(h[id] == h.subrange(0, h0.len() as int)[id]);
    if let Value::Ref(sid) = it.source {
        assert(sid.0 as int != id);
        assert(h[sid.0 as int] == h.subrange(0, h0.len() as int)[sid.0 as int]);
    }
}

/// `all()` over a list, tuple or set of `None`s, booleans and integers answers `True`
/// exactly when no item is `None`, `False` or `0`: every non-zero integer is true, negative
/// ones included. For integers alone, that is when every item is non-zero.
pub proof fn law_all_of_scalars(a: VM, b: VM, v: Value, args: Seq<Value>, r: BuiltinResult)
    requires
        a.wf(),
        args.len() == 1,
        args[0] == v,
        iter_source(a, v) matches ItemSource::Items(vs, _) && forall|k: int|
            0 <= k < vs.len() ==> (#[trigger] vs[k] is NoneValue || vs[k] is Bool || vs[k] is Int),
        all_answered(a, b, args, r),
    ensures
        iter_source(a, v) matches ItemSource::Items(vs, _) && r == BuiltinResult::Ok(
            Value::Bool(
                forall|k: int|
                    0 <= k < vs.len() ==> #[trigger] vs[k] != Value::Int(0) && vs[k] != Value::Bool(false) && vs[k]
                        != Value::NoneValue,
            ),
        ),
        iter_source(a, v) matches ItemSource::Items(vs, _) ==> ((forall|k: int| 0 <= k < vs.len() ==> #[trigger] vs[k] is Int)
            ==> r == BuiltinResult::Ok(Value::Bool(forall|k: int| 0 <= k < vs.len() ==> #[trigger] vs[k]->Int_0 != 0))),
{
    if let Value::Ref(id) = v {
        match a.heap.entries@[id.0 as int] {
            HeapData::Iter(_) => assert(iter_source(a, v) is NotIterable),
            _ => {},
        }
    }
    assert(iter_of(a, v) is None);
    if let ItemSource::Items(vs, ms) = iter_source(a, v) {
        assert(source_items(ItemSource::Items(vs, ms), a.hlen()) == vs);
        assert forall|k: int| 0 <= k < vs.len() implies truthy(b, #[trigger] vs[k]) == (vs[k] != Value::Int(0)
            && vs[k] != Value::Bool(false) && vs[k] != Value::NoneValue) by {
            assert(vs[k] is NoneValue || vs[k] is Bool || vs[k] is Int);
        }
        assert((forall|k: int| 0 <= k < vs.len() ==> truthy(b, #[trigger] vs[k])) == (forall|k: int|
            0 <= k < vs.len() ==> #[trigger] vs[k] != Value::Int(0) && vs[k] != Value::Bool(false) && vs[k]
                != Value::NoneValue));
        if forall|k: int| 0 <= k < vs.len() ==> #[trigger] vs[k] is Int {
            assert forall|k: int| 0 <= k < vs.len() implies (#[trigger] vs[k] != Value::Int(0) && vs[k] != Value::Bool(
                false,
            ) && vs[k] != Value::NoneValue) == (vs[k]->Int_0 != 0) by {
                assert(vs[k] is Int);
            }
            assert((forall|k: int|
                0 <= k < vs.len() ==> #[trigger] vs[k] != Value::Int(0) && vs[k] != Value::Bool(false) && vs[k]
                    != Value::NoneValue) == (forall|k: int| 0 <= k < vs.len() ==> #[trigger] vs[k]->Int_0 != 0));
        }
    }
}

// ---------------------------------------------------------------------------
// Sets keep one copy of equal elements
// ---------------------------------------------------------------------------

/// No two of `vs` are equal as keys.
pub open spec fn keys_unique(vm: VM, vs: Seq<Value>) -> bool {
    forall|i: int, j: int| 0 <= i < j < vs.len() ==> vm.key_view(#[trigger] vs[i]) != vm.key_view(#[trigger] vs[j])
}

/// Looking a value up among the elements of a set finds the first element equal to it as a
/// key, and finds nothing exactly when no element is equal to it.
pub proof fn law_find_value_first(vm: VM, vs: Seq<Value>, key: Value)
    ensures
        find_value(vm, vs, key, 0) matches Some(j) ==> 0 <= j < vs.len() && vm.key_view(vs[j]) == vm.key_view(key)
            && forall|i: int| 0 <= i < j ==> vm.key_view(#[trigger] vs[i]) != vm.key_view(key),
        find_value(vm, vs, key, 0) is None <==> forall|i: int|
            0 <= i < vs.len() ==> vm.key_view(#[trigger] vs[i]) != vm.key_view(key),
{
    lemma_find_value(vm, vs, key, 0);
    if let Some(j) = find_value(vm, vs, key, 0) {
        assert(vm.key_view(vs[j]) == vm.key_view(key));
    }
}

/// Adding values one at a time to a set whose elements are all different keeps them all
/// different: the elements already there stay first, in order, every value added is then
/// equal to an element, and every new element is one of the values added.
#[verifier::spinoff_prover]
pub proof fn law_set_added_distinct(
    vm: VM,
    items: Seq<Value>,
    metas: Seq<MetadataId>,
    vs: Seq<Value>,
    ms: Seq<MetadataId>,
)
    requires
        keys_unique(vm, items),
    ensures
        ({
            let r = set_added(vm, items, metas, vs, ms).0;
            &&& keys_unique(vm, r)
            &&& items.len() <= r.len()
            &&& r.subrange(0, items.len() as int) == items
            &&& forall|k: int| 0 <= k < vs.len() ==> exists|i: int|
                0 <= i < r.len() && vm.key_view(r[i]) == vm.key_view(#[trigger] vs[k])
            &&& forall|i: int| items.len() <= i < r.len() ==> vs.contains(#[trigger] r[i])
        }),
        items.len() == metas.len() && vs.len() == ms.len() ==> set_added(vm, items, metas, vs, ms).0.len()
            == set_added(vm, items, metas, vs, ms).1.len(),
    decreases vs.len(),
{
    if vs.len() > 0 {
        let vs0 = vs.drop_last();
        let ms0 = ms.drop_last();
        law_set_added_distinct(vm, items, metas, vs0, ms0);
        let p = set_added(vm, items, metas, vs0, ms0);
        let v = vs.last();
        lemma_find_value(vm, p.0, v, 0);
        let r = set_added(vm, items, metas, vs, ms).0;
        assert forall|k: int| 0 <= k < vs.len() implies exists|i: int|
            0 <= i < r.len() && vm.key_view(r[i]) == vm.key_view(#[trigger] vs[k]) by {
            if k < vs.len() - 1 {
                assert(vs[k] == vs0[k]);
                let i = choose|i: int| 0 <= i < p.0.len() && vm.key_view(p.0[i]) == vm.key_view(#[trigger] vs0[k]);
                assert(r[i] == p.0[i]);
            } else if let Some(j) = find_value(vm, p.0, v, 0) {
                assert(r[j] == p.0[j]);
            } else {
                assert(r[p.0.len() as int] == v);
            }
        }
        assert forall|i: int| items.len() <= i < r.len() implies vs.contains(#[trigger] r[i]) by {
            if i < p.0.len() {
                assert(r[i] == p.0[i]);
                assert(vs0.contains(p.0[i]));
                let k = choose|k: int| 0 <= k < vs0.len() && vs0[k] == p.0[i];
                assert(vs[k] == vs0[k]);
            } else {
                assert(r[i] == vs[vs.len() - 1]);
            }
        }
        if find_value(vm, p.0, v, 0) is None {
            assert forall|i: int, j: int| 0 <= i < j < r.len() implies vm.key_view(#[trigger] r[i]) != vm.key_view(
                #[trigger] r[j],
            ) by {
                if j < p.0.len() {
                    assert(r[i] == p.0[i] && r[j] == p.0[j]);
                } else {
                    assert(r[i] == p.0[i] && r[j] == v);
                }
            }
            assert(r.subrange(0, items.len() as int) =~= p.0.subrange(0, items.len() as int));
        }
    } else {
        assert(items.subrange(0, items.len() as int) =~= items);
    }
}

/// The value `vs[k]` is the first of its key: no element of `items` and no earlier value of
/// `vs` is equal to it as a key.
pub open spec fn first_of_key(vm: VM, items: Seq<Value>, vs: Seq<Value>, k: int) -> bool {
    &&& forall|j: int| 0 <= j < items.len() ==> vm.key_view(#[trigger] items[j]) != vm.key_view(vs[k])
    &&& forall|j: int| 0 <= j < k ==> vm.key_view(#[trigger] vs[j]) != vm.key_view(vs[k])
}

/// A value first of its key among some values stays so when more values follow.
proof fn lemma_first_of_key_extend(vm: VM, items: Seq<Value>, vs: Seq<Value>, k: int)
    requires
        vs.len() > 0,
        0 <= k < vs.len() - 1,
        first_of_key(vm, items, vs.drop_last(), k),
    ensures
        first_of_key(vm, items, vs, k),
{
    assert forall|j: int| 0 <= j < k implies vm.key_view(#[trigger] vs[j]) != vm.key_view(vs[k]) by {
        assert(vs[j] == vs.drop_last()[j]);
    }
}

/// The last value is the first of its key when no element of a set that starts with `items`
/// and holds a value equal to each earlier value is equal to it.
proof fn lemma_first_of_key_last(vm: VM, items: Seq<Value>, p: Seq<Value>, vs: Seq<Value>)
    requires
        vs.len() > 0,
        items.len() <= p.len(),
        p.subrange(0, items.len() as int) == items,
        forall|i: int| 0 <= i < p.len() ==> vm.key_view(#[trigger] p[i]) != vm.key_view(vs.last()),
        forall|k: int| 0 <= k < vs.len() - 1 ==> exists|i: int|
            0 <= i < p.len() && vm.key_view(p[i]) == vm.key_view(#[trigger] vs.drop_last()[k]),
    ensures
        first_of_key(vm, items, vs, vs.len() - 1),
{
    let n = vs.len() - 1;
    assert forall|j: int| 0 <= j < items.len() implies vm.key_view(#[trigger] items[j]) != vm.key_view(vs[n]) by {
        assert(p.subrange(0, items.len() as int)[j] == p[j]);
    }
    assert forall|j: int| 0 <= j < n implies vm.key_view(#[trigger] vs[j]) != vm.key_view(vs[n]) by {
        assert(vs[j] == vs.drop_last()[j]);
        let i2 = choose|i2: int| 0 <= i2 < p.len() && vm.key_view(p[i2]) == vm.key_view(#[trigger] vs.drop_last()[j]);
        assert(vm.key_view(p[i2]) != vm.key_view(vs.last()));
    }
}

/// Adding values one at a time to a set keeps the metadata of the elements already there,
/// and each new element is the first value of its key, with that value's own metadata: a
/// later equal value changes neither the element nor its metadata.
#[verifier::spinoff_prover]
pub proof fn law_set_added_first(
    vm: VM,
    items: Seq<Value>,
    metas: Seq<MetadataId>,
    vs: Seq<Value>,
    ms: Seq<MetadataId>,
)
    requires
        keys_unique(vm, items),
        items.len() == metas.len(),
        vs.len() == ms.len(),
    ensures
        ({
            let (r, rm) = set_added(vm, items, metas, vs, ms);
            &&& rm.subrange(0, metas.len() as int) == metas
            &&& forall|i: int| #![trigger r[i]] items.len() <= i < r.len() ==> exists|k: int|
                #![trigger vs[k]] 0 <= k < vs.len() && vs[k] == r[i] && rm[i] == ms[k] && first_of_key(vm, items, vs, k)
        }),
    decreases vs.len(),
{
    if vs.len() > 0 {
        let vs0 = vs.drop_last();
        let ms0 = ms.drop_last();
        let p = set_added(vm, items, metas, vs0, ms0);
        let v = vs.last();
        let n = vs.len() - 1;
        assert(p.1.len() == p.0.len() && items.len() <= p.0.len() && p.0.subrange(0, items.len() as int) == items)
            by {
            law_set_added_distinct(vm, items, metas, vs0, ms0);
        }
        lemma_find_value(vm, p.0, v, 0);
        if find_value(vm, p.0, v, 0) is None {
            assert(first_of_key(vm, items, vs, n)) by {
                law_set_added_distinct(vm, items, metas, vs0, ms0);
                lemma_first_of_key_last(vm, items, p.0, vs);
            }
        }
        law_set_added_first(vm, items, metas, vs0, ms0);
        let (r, rm) = set_added(vm, items, metas, vs, ms);
        assert forall|i: int| #![trigger r[i]] items.len() <= i < r.len() implies exists|k: int|
            #![trigger vs[k]] 0 <= k < vs.len() && vs[k] == r[i] && rm[i] == ms[k] && first_of_key(vm, items, vs, k) by {
            if i < p.0.len() {
                assert(r[i] == p.0[i] && rm[i] == p.1[i]);
                let k = choose|k: int|
                    #![trigger vs0[k]] 0 <= k < vs0.len() && vs0[k] == p.0[i] && p.1[i] == ms0[k] && first_of_key(
                        vm,
                        items,
                        vs0,
                        k,
                    );
                assert(vs[k] == vs0[k] && ms[k] == ms0[k]);
                lemma_first_of_key_extend(vm, items, vs, k);
            } else {
                assert(r[i] == v && rm[i] == ms[n]);
            }
        }
        if find_value(vm, p.0, v, 0) is None {
            assert(rm.subrange(0, metas.len() as int) =~= p.1.subrange(0, metas.len() as int));
        }
    } else {
        assert(metas.subrange(0, metas.len() as int) =~= metas);
    }
}

/// `BUILD_SET` makes a set whose elements are all different as keys: each of the values it
/// took is equal to exactly one element, and each element is one of those values.
pub proof fn law_build_set_distinct(a: VM, b: VM, count: usize, r: RunResult, k: int)
    requires
        a.wf(),
        count <= a.stack@.len(),
        set_built(a, b, count, r),
        r is Ok,
        0 <= k < count,
    ensures
        ({
            let len = a.stack@.len() as int;
            let vs = a.stack@.subrange(len - count, len);
            let items = b.heap.entries@.last()->PySet_0.items@;
            &&& keys_unique(a, items)
            &&& exists|i: int| 0 <= i < items.len() && a.key_view(items[i]) == a.key_view(vs[k])
            &&& forall|i: int, j: int|
                0 <= i < items.len() && 0 <= j < items.len() && a.key_view(items[i]) == a.key_view(vs[k])
                    && a.key_view(items[j]) == a.key_view(vs[k]) ==> i == j
            &&& forall|i: int| 0 <= i < items.len() ==> vs.contains(#[trigger] items[i])
        }),
{
    let len = a.stack@.len() as int;
    let vs = a.stack@.subrange(len - count, len);
    let ms = a.meta_stack@.subrange(len - count, len);
    if first_unhashable(a, vs, 0) is None {
        law_set_added_distinct(a, Seq::empty(), Seq::empty(), vs, ms);
        assert(vs[k] == vs[k]);
    }
}

/// Each element of the set that `BUILD_SET` makes is the first of the values it took with
/// that key, and carries that value's metadata.
pub proof fn law_build_set_first_meta(a: VM, b: VM, count: usize, r: RunResult)
    requires
        count <= a.stack@.len(),
        a.stack@.len() == a.meta_stack@.len(),
        set_built(a, b, count, r),
        r is Ok,
    ensures
        ({
            let len = a.stack@.len() as int;
            let vs = a.stack@.subrange(len - count, len);
            let ms = a.meta_stack@.subrange(len - count, len);
            let set = b.heap.entries@.last()->PySet_0;
            forall|i: int| #![trigger set.items@[i]] 0 <= i < set.items@.len() ==> exists|k: int|
                #![trigger vs[k]] 0 <= k < vs.len() && vs[k] == set.items@[i] && set.meta@[i] == ms[k]
                    && first_of_key(a, Seq::empty(), vs, k)
        }),
{
    let len = a.stack@.len() as int;
    let vs = a.stack@.subrange(len - count, len);
    let ms = a.meta_stack@.subrange(len - count, len);
    if first_unhashable(a, vs, 0) is None {
        law_set_added_first(a, Seq::empty(), Seq::empty(), vs, ms);
    }
}

/// `SET_ADD` adds the value, with its metadata, exactly when no element is equal to it as a
/// key, and otherwise leaves the set, metadata included, as it was. On a set whose elements
/// are all different it keeps them all different, and afterwards the value added is equal
/// to exactly one element.
pub proof fn law_set_add_distinct(a: VM, b: VM, depth: usize, r: RunResult)
    requires
        a.wf(),
        a.stack@.len() >= depth + 2,
        set_add_done(a, b, depth, r),
        r is Ok,
        keys_unique(a, a.heap.entries@[a.stack@[a.stack@.len() - 2 - depth]->Ref_0.0 as int]->PySet_0.items@),
    ensures
        ({
            let v = a.stack@.last();
            let m = a.meta_stack@.last();
            let s0 = a.heap.entries@[a.stack@[a.stack@.len() - 2 - depth]->Ref_0.0 as int]->PySet_0;
            let s1 = b.heap.entries@[a.stack@[a.stack@.len() - 2 - depth]->Ref_0.0 as int]->PySet_0;
            let items = s1.items@;
            &&& if exists|i: int| 0 <= i < s0.items@.len() && a.key_view(#[trigger] s0.items@[i]) == a.key_view(v) {
                s1.items@ == s0.items@ && s1.meta@ == s0.meta@
            } else {
                s1.items@ == s0.items@.push(v) && s1.meta@ == s0.meta@.push(m)
            }
            &&& keys_unique(a, items)
            &&& exists|i: int| 0 <= i < items.len() && a.key_view(items[i]) == a.key_view(v)
            &&& forall|i: int, j: int|
                0 <= i < items.len() && 0 <= j < items.len() && a.key_view(items[i]) == a.key_view(v)
                    && a.key_view(items[j]) == a.key_view(v) ==> i == j
        }),
{
    let len = a.stack@.len() as int;
    let v = a.stack@[len - 1];
    let id = a.stack@[len - 2 - depth]->Ref_0.0 as int;
    let s0 = a.heap.entries@[id]->PySet_0.items@;
    let s1 = b.heap.entries@[id]->PySet_0.items@;
    lemma_find_value(a, s0, v, 0);
    if let Some(j) = find_value(a, s0, v, 0) {
        assert(a.key_view(s1[j]) == a.key_view(v));
        assert(a.key_view(s0[j]) == a.key_view(v));
    } else {
        assert(s1[s0.len() as int] == v);
        assert forall|i: int, j: int| 0 <= i < j < s1.len() implies a.key_view(#[trigger] s1[i]) != a.key_view(
            #[trigger] s1[j],
        ) by {
            assert(s1[i] == s0[i]);
            if j < s0.len() {
                assert(s1[j] == s0[j]);
            }
        }
    }
}

// ---------------------------------------------------------------------------
// How objects print
// ---------------------------------------------------------------------------

/// `parts` joined with `sep` between each two of them.
pub open spec fn joined(parts: Seq<Seq<char>>, sep: Seq<char>) -> Seq<char>
    decreases parts.len(),
{
    if parts.len() == 0 {
        Seq::empty()
    } else if parts.len() == 1 {
        parts[0]
    } else {
        parts[0] + sep + joined(parts.drop_first(), sep)
    }
}

/// Joining one more part appends the separator and that part.
proof fn lemma_joined_push(parts: Seq<Seq<char>>, sep: Seq<char>, x: Seq<char>)
    requires
        parts.len() > 0,
    ensures
        joined(parts.push(x), sep) == joined(parts, sep) + sep + x,
    decreases parts.len(),
{
    if parts.len() == 1 {
        assert(parts.push(x).drop_first() =~= seq![x]);
        assert(joined(seq![x], sep) == x);
    } else {
        lemma_joined_push(parts.drop_first(), sep, x);
        assert(parts.push(x).drop_first() =~= parts.drop_first().push(x));
        assert(parts[0] + sep + (joined(parts.drop_first(), sep) + sep + x) =~= parts[0] + sep + joined(
            parts.drop_first(),
            sep,
        ) + sep + x);
    }
}

/// The `key: value` text of each dict entry, in order.
pub open spec fn entry_texts(s: Seq<(AnnotatedObject, AnnotatedObject)>) -> Seq<Seq<char>> {
    Seq::new(s.len(), |i: int| repr_text(s[i].0.value) + ": "@ + repr_text(s[i].1.value))
}

/// The `repr()` of each element, in order.
pub open spec fn element_texts(s: Seq<AnnotatedObject>) -> Seq<Seq<char>> {
    Seq::new(s.len(), |i: int| repr_text(s[i].value))
}

/// The entries of a dict print as `repr(key): repr(value)` each, key first, in the dict's
/// order, separated by `", "`.
pub proof fn law_pairs_text_joined(s: Seq<(AnnotatedObject, AnnotatedObject)>)
    ensures
        pairs_text(s) == joined(entry_texts(s), ", "@),
    decreases s.len(),
{
    if s.len() == 1 {
        assert(entry_texts(s) =~= seq![repr_text(s[0].0.value) + ": "@ + repr_text(s[0].1.value)]);
    } else if s.len() > 1 {
        law_pairs_text_joined(s.drop_last());
        assert(entry_texts(s) =~= entry_texts(s.drop_last()).push(
            repr_text(s.last().0.value) + ": "@ + repr_text(s.last().1.value),
        ));
        lemma_joined_push(
            entry_texts(s.drop_last()),
            ", "@,
            repr_text(s.last().0.value) + ": "@ + repr_text(s.last().1.value),
        );
        assert(pairs_text(s.drop_last()) + ", "@ + repr_text(s.last().0.value) + ": "@ + repr_text(
            s.last().1.value,
        ) =~= pairs_text(s.drop_last()) + ", "@ + (repr_text(s.last().0.value) + ": "@ + repr_text(
            s.last().1.value,
        )));
    } else {
        assert(entry_texts(s) =~= Seq::<Seq<char>>::empty());
    }
}

/// The elements of a list or tuple print as their `repr()`s, in order, separated by `", "`.
pub proof fn law_items_text_joined(s: Seq<AnnotatedObject>)
    ensures
        items_text(s) == joined(element_texts(s), ", "@),
    decreases s.len(),
{
    if s.len() == 1 {
        assert(element_texts(s) =~= seq![repr_text(s[0].value)]);
    } else if s.len() > 1 {
        law_items_text_joined(s.drop_last());
        assert(element_texts(s) =~= element_texts(s.drop_last()).push(repr_text(s.last().value)));
        lemma_joined_push(element_texts(s.drop_last()), ", "@, repr_text(s.last().value));
    } else {
        assert(element_texts(s) =~= Seq::<Seq<char>>::empty());
    }
}

/// The `repr()` and the `str()` of a dict are `{`, its entries as `repr(key): repr(value)`
/// joined by `", "`, and `}`.
pub proof fn law_dict_repr(v: Vec<(AnnotatedObject, AnnotatedObject)>)
    ensures
        repr_text(MontyObject::Dict(AnnotatedDictPairs(v))) == "{"@ + joined(entry_texts(v@), ", "@) + "}"@,
        str_text(MontyObject::Dict(AnnotatedDictPairs(v))) == "{"@ + joined(entry_texts(v@), ", "@) + "}"@,
{
    law_pairs_text_joined(v@);
}

/// The `repr()` of a list is `[`, its elements' `repr()`s joined by `", "`, and `]`.
pub proof fn law_list_repr(v: Vec<AnnotatedObject>)
    ensures
        repr_text(MontyObject::List(v)) == "["@ + joined(element_texts(v@), ", "@) + "]"@,
{
    law_items_text_joined(v@);
}

/// The `repr()` of a tuple is `(`, its elements' `repr()`s joined by `", "`, a trailing
/// `,` when it has exactly one element, and `)`.
pub proof fn law_tuple_repr(v: Vec<AnnotatedObject>)
    ensures
        repr_text(MontyObject::Tuple(v)) == "("@ + joined(element_texts(v@), ", "@) + (if v@.len() == 1 {
            ","@
        } else {
            ""@
        }) + ")"@,
{
    law_items_text_joined(v@);
}

} // verus!

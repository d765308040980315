//! Collection building and unpacking handlers of the virtual machine.
//!
//! Every element keeps its own metadata: a list, tuple or set carries one metadata id per
//! element, and a dict one per key and one per value. The characters of a string, and the
//! keys of a dict when it is iterated, carry the metadata of the string or dict itself.
use vstd::prelude::*;
use vstd::slice::slice_to_vec;
use crate::metadata::MetadataId;
use crate::value::{Value, Type, HeapId, StringId};
use crate::heap::{HeapData, DictEntry, PyIter, value_ok, values_ok, data_ok, data_type};
use crate::iter::{iterate_source, iterate_meta, iterated_heap};
use crate::vm::{
    VM, keys_distinct, chars_allocated, string_chars, slot_updated, find_value, find_entry, dict_set_spec,
    keys_framed, lemma_keys_framed, lemma_keys_framed_trans, lemma_find_value_framed,
    lemma_find_entry_framed, lemma_keys_framed_symm,
};
use crate::exceptions::{
    RunError, RunResult, ErrorKind, ExcType, InternalError, type_error, value_error, new_type_error, unpack_size_error,
    unpack_ex_too_few_error, unpack_type_error,
};

verus! {

/// Where the items of an unpacking or an iteration come from.
pub enum ItemSource {
    /// Existing elements, each with its own metadata.
    Items(Seq<Value>, Seq<MetadataId>),
    /// The characters of a string: each becomes a new single-character string carrying the
    /// string's metadata.
    Chars(Seq<char>),
    /// The keys of a dict: existing values that carry the dict's own metadata.
    Keys(Seq<Value>),
    /// A value of a type that cannot be unpacked or iterated.
    NotIterable(Type),
}

/// What unpacking reads from `v`: the elements of a list or tuple, the characters of a
/// string.
pub open spec fn unpack_source(vm: VM, v: Value) -> ItemSource {
    match v {
        Value::InternString(s) => ItemSource::Chars(vm.interns.strings@[s.0 as int]@),
        Value::Ref(id) => match vm.heap.entries@[id.0 as int] {
            HeapData::List(l) => ItemSource::Items(l.items@, l.meta@),
            HeapData::Tuple(t) => ItemSource::Items(t.items@, t.meta@),
            HeapData::Str(s) => ItemSource::Chars(s@),
            d => ItemSource::NotIterable(data_type(d)),
        },
        _ => ItemSource::NotIterable(vm.type_of(v)),
    }
}

/// The keys of dict entries.
pub open spec fn entry_keys(es: Seq<DictEntry>) -> Seq<Value> {
    es.map_values(|e: DictEntry| e.key)
}

/// What iteration reads from `v`: as for unpacking, and also the elements of a set and the
/// keys of a dict (which carry the dict's own metadata).
pub open spec fn iter_source(vm: VM, v: Value) -> ItemSource {
    match v {
        Value::Ref(id) => match vm.heap.entries@[id.0 as int] {
            HeapData::PySet(s) => ItemSource::Items(s.items@, s.meta@),
            HeapData::Dict(d) => ItemSource::Keys(entry_keys(d.entries@)),
            _ => unpack_source(vm, v),
        },
        _ => unpack_source(vm, v),
    }
}

/// How many items a source yields.
pub open spec fn source_len(src: ItemSource) -> int {
    match src {
        ItemSource::Items(vs, _) => vs.len() as int,
        ItemSource::Chars(cs) => cs.len() as int,
        ItemSource::Keys(vs) => vs.len() as int,
        ItemSource::NotIterable(_) => 0,
    }
}

/// The items a source yields when the heap has `hlen` slots: the elements themselves, or
/// references to new single-character strings allocated from slot `hlen` on.
pub open spec fn source_items(src: ItemSource, hlen: int) -> Seq<Value> {
    match src {
        ItemSource::Items(vs, _) => vs,
        ItemSource::Chars(cs) => Seq::new(cs.len(), |k: int| Value::Ref(HeapId((hlen + k) as usize))),
        ItemSource::Keys(vs) => vs,
        ItemSource::NotIterable(_) => Seq::empty(),
    }
}

/// The metadata of the items a source yields; characters and dict keys carry `m`, the
/// string's or the dict's.
pub open spec fn source_metas(src: ItemSource, m: MetadataId) -> Seq<MetadataId> {
    match src {
        ItemSource::Items(_, ms) => ms,
        ItemSource::Chars(cs) => Seq::new(cs.len(), |k: int| m),
        ItemSource::Keys(vs) => Seq::new(vs.len(), |k: int| m),
        ItemSource::NotIterable(_) => Seq::empty(),
    }
}

/// `new` is `old` with the single-character strings of `src` appended, every old slot but
/// `except` kept.
pub open spec fn heap_grown(old: Seq<HeapData>, new: Seq<HeapData>, src: ItemSource, except: int) -> bool {
    &&& new.len() == old.len() + (if src is Chars { source_len(src) } else { 0 })
    &&& forall|i: int| 0 <= i < old.len() && i != except ==> #[trigger] new[i] == old[i]
    &&& src matches ItemSource::Chars(cs) ==> forall|k: int|
        0 <= k < cs.len() ==> #[trigger] new[old.len() + k] is Str && new[old.len() + k]->Str_0@
            == seq![cs[k]]
}

/// `s` backwards.
pub open spec fn rev<A>(s: Seq<A>) -> Seq<A> {
    Seq::new(s.len(), |k: int| s[s.len() - 1 - k])
}

/// The state after a starred unpacking of `src` (with string metadata `m`) from a heap
/// `h0` and stacks `base`/`mbase`: the single-character strings are allocated, then a new
/// list of the middle items; the stack holds the last `after` items, the list, and the
/// first `before` items, the first item on top.
pub open spec fn unpacked_ex(
    h0: Seq<HeapData>,
    base: Seq<Value>,
    mbase: Seq<MetadataId>,
    src: ItemSource,
    m: MetadataId,
    before: int,
    after: int,
    vm: VM,
) -> bool {
    let items = source_items(src, h0.len() as int);
    let metas = source_metas(src, m);
    let n = items.len() as int;
    let h = vm.heap.entries@;
    let list_slot = h.len() - 1;
    &&& h.len() >= 1
    &&& heap_grown(h0, h.subrange(0, list_slot), src, -1)
    &&& h[list_slot] is List
    &&& h[list_slot]->List_0.items@ == items.subrange(before, n - after)
    &&& h[list_slot]->List_0.meta@ == metas.subrange(before, n - after)
    &&& vm.stack@ == base + rev(items.subrange(n - after, n)) + seq![Value::Ref(HeapId(list_slot as usize))]
        + rev(items.subrange(0, before))
    &&& vm.meta_stack@ == mbase + rev(metas.subrange(n - after, n)) + seq![MetadataId(0)] + rev(
        metas.subrange(0, before),
    )
}

/// The index of the first value of `vs`, from `start` on, that cannot be hashed.
pub open spec fn first_unhashable(vm: VM, vs: Seq<Value>, start: int) -> Option<int>
    decreases vs.len() - start,
{
    if start < 0 || start >= vs.len() {
        None
    } else if vm.key_view(vs[start]) is Unhashable {
        Some(start)
    } else {
        first_unhashable(vm, vs, start + 1)
    }
}

/// The elements and metadata of a set holding `items`/`metas` after adding the values of
/// `vs` (with metadata `ms`) one at a time; a value equal to one present is not added.
pub open spec fn set_added(
    vm: VM,
    items: Seq<Value>,
    metas: Seq<MetadataId>,
    vs: Seq<Value>,
    ms: Seq<MetadataId>,
) -> (Seq<Value>, Seq<MetadataId>)
    decreases vs.len(),
{
    if vs.len() == 0 {
        (items, metas)
    } else {
        let p = set_added(vm, items, metas, vs.drop_last(), ms.drop_last());
        if find_value(vm, p.0, vs.last(), 0) is Some {
            p
        } else {
            (p.0.push(vs.last()), p.1.push(ms.last()))
        }
    }
}

/// The effect of `BUILD_SET` over the top `count` values, with result `r`: an unhashable
/// value raises, the values popped and the heap kept; otherwise a new set holds the values
/// added one at a time (see `set_added`), each with its metadata, and replaces them.
pub open spec fn set_built(old: VM, new: VM, count: usize, r: RunResult) -> bool {
    let len = old.stack@.len() as int;
    let vs = old.stack@.subrange(len - count, len);
    let ms = old.meta_stack@.subrange(len - count, len);
    let base = old.stack@.subrange(0, len - count);
    let mbase = old.meta_stack@.subrange(0, len - count);
    match first_unhashable(old, vs, 0) {
        Some(j) => {
            &&& r == RunResult::Err(type_error(ErrorKind::Unhashable(old.type_of(vs[j]))))
            &&& new.stack@ == base && new.meta_stack@ == mbase
            &&& new.heap == old.heap
        },
        None => {
            let set = new.heap.entries@.last();
            let added = set_added(old, Seq::empty(), Seq::empty(), vs, ms);
            &&& r is Ok
            &&& new.heap.entries@.len() == old.hlen() + 1
            &&& new.heap.entries@.subrange(0, old.hlen()) == old.heap.entries@
            &&& set is PySet
            &&& set->PySet_0.items@ == added.0
            &&& set->PySet_0.meta@ == added.1
            &&& new.stack@ == base.push(Value::Ref(HeapId(old.hlen() as usize)))
            &&& new.meta_stack@ == mbase.push(MetadataId(0))
        },
    }
}

/// The effect of `SET_ADD` with the set `depth` values below the top one, with result `r`:
/// the top value is added to the set unless an equal one is already there, and popped.
pub open spec fn set_add_done(old: VM, new: VM, depth: usize, r: RunResult) -> bool {
    let len = old.stack@.len() as int;
    let v = old.stack@[len - 1];
    let m = old.meta_stack@[len - 1];
    let target = old.stack@[len - 2 - depth];
    let id = target->Ref_0.0 as int;
    &&& new.stack@ == old.stack@.drop_last()
    &&& new.meta_stack@ == old.meta_stack@.drop_last()
    &&& if !(target is Ref) {
        &&& r == RunResult::Err(RunError::Internal(InternalError::SetAddExpectedSetRef))
        &&& new.heap == old.heap
    } else if !(old.heap.entries@[id] is PySet) {
        &&& r == RunResult::Err(RunError::Internal(InternalError::SetAddExpectedSet))
        &&& new.heap == old.heap
    } else if old.key_view(v) is Unhashable {
        &&& r == RunResult::Err(type_error(ErrorKind::Unhashable(old.type_of(v))))
        &&& new.heap == old.heap
    } else {
        let s0 = old.heap.entries@[id]->PySet_0;
        let s1 = new.heap.entries@[id]->PySet_0;
        &&& r is Ok
        &&& slot_updated(old.heap.entries@, new.heap.entries@, id)
        &&& new.heap.entries@[id] is PySet
        &&& if find_value(old, s0.items@, v, 0) is Some {
            s1.items@ == s0.items@ && s1.meta@ == s0.meta@
        } else {
            s1.items@ == s0.items@.push(v) && s1.meta@ == s0.meta@.push(m)
        }
    }
}

/// The entries of a dict holding `es` after setting the entries of `src` one at a time.
pub open spec fn dict_added(vm: VM, es: Seq<DictEntry>, src: Seq<DictEntry>) -> Seq<DictEntry>
    decreases src.len(),
{
    if src.len() == 0 {
        es
    } else {
        let p = dict_added(vm, es, src.drop_last());
        let e = src.last();
        dict_set_spec(vm, p, e.key, e.key_meta, e.value, e.value_meta)
    }
}

/// Key/value pairs laid out as `key, value, key, value, ...`, with their metadata.
pub open spec fn pair_entries(vs: Seq<Value>, ms: Seq<MetadataId>) -> Seq<DictEntry> {
    Seq::new(
        vs.len() / 2,
        |k: int|
            DictEntry { key: vs[2 * k], key_meta: ms[2 * k], value: vs[2 * k + 1], value_meta: ms[2 * k + 1] },
    )
}

/// Stepping over a hashable value does not change where the first unhashable one is.
proof fn lemma_first_unhashable_step(vm: VM, vs: Seq<Value>, k: int)
    requires
        0 <= k < vs.len(),
        !(vm.key_view(vs[k]) is Unhashable),
    ensures
        first_unhashable(vm, vs, k) == first_unhashable(vm, vs, k + 1),
{
}

/// Framed VMs agree on where the first unhashable value of `vs` is.
proof fn lemma_first_unhashable_framed(a: VM, b: VM, vs: Seq<Value>, start: int)
    requires
        keys_framed(a, b),
        values_ok(vs, a.hlen(), a.ilen()),
    ensures
        first_unhashable(a, vs, start) == first_unhashable(b, vs, start),
    decreases vs.len() - start,
{
    if 0 <= start < vs.len() {
        lemma_keys_framed(a, b, vs[start]);
        lemma_first_unhashable_framed(a, b, vs, start + 1);
    }
}

/// Framed VMs add the same values to a set the same way.
proof fn lemma_set_added_framed(
    a: VM,
    b: VM,
    items: Seq<Value>,
    metas: Seq<MetadataId>,
    vs: Seq<Value>,
    ms: Seq<MetadataId>,
)
    requires
        keys_framed(a, b),
        values_ok(items, a.hlen(), a.ilen()),
        values_ok(vs, a.hlen(), a.ilen()),
    ensures
        set_added(a, items, metas, vs, ms) == set_added(b, items, metas, vs, ms),
        values_ok(set_added(a, items, metas, vs, ms).0, a.hlen(), a.ilen()),
    decreases vs.len(),
{
    if vs.len() > 0 {
        assert(values_ok(vs.drop_last(), a.hlen(), a.ilen()));
        lemma_set_added_framed(a, b, items, metas, vs.drop_last(), ms.drop_last());
        let p = set_added(a, items, metas, vs.drop_last(), ms.drop_last());
        assert(value_ok(vs.last(), a.hlen(), a.ilen()));
        lemma_find_value_framed(a, b, p.0, vs.last(), 0);
    }
}

/// A heap grown by `src` and then changed in one old slot is that slot's change away from
/// the original heap grown by `src`.
proof fn lemma_heap_grown_slot(h0: Seq<HeapData>, h1: Seq<HeapData>, h2: Seq<HeapData>, src: ItemSource, id: int)
    requires
        heap_grown(h0, h1, src, -1),
        slot_updated(h1, h2, id),
        0 <= id < h0.len(),
    ensures
        heap_grown(h0, h2, src, id),
{
    if let ItemSource::Chars(cs) = src {
        assert forall|k: int| 0 <= k < cs.len() implies #[trigger] h2[h0.len() + k] is Str
            && h2[h0.len() + k]->Str_0@ == seq![cs[k]] by {
            assert(h2[h0.len() + k] == h1[h0.len() + k]);
        }
    }
}

/// Merging the entries `src`, from index `k` on, into a dict holding `es`, for
/// `**kwargs`: entries are set in order until a key is not a string (not set) or was
/// already present (set, then stopped). Returns the entries and where it stopped.
pub open spec fn kwargs_merge(vm: VM, es: Seq<DictEntry>, src: Seq<DictEntry>, k: int) -> (Seq<DictEntry>, Option<int>)
    decreases src.len() - k,
{
    if k < 0 || k >= src.len() {
        (es, None)
    } else if vm.text_view(src[k].key) is None {
        (es, Some(k))
    } else {
        let es2 = dict_set_spec(vm, es, src[k].key, src[k].key_meta, src[k].value, src[k].value_meta);
        if find_entry(vm, es, src[k].key, 0) is Some {
            (es2, Some(k))
        } else {
            kwargs_merge(vm, es2, src, k + 1)
        }
    }
}

/// A slice bound: `None` or an integer (a boolean counts as 0 or 1).
pub open spec fn slice_bound(v: Value) -> Option<Option<i64>> {
    match v {
        Value::NoneValue => Some(None),
        Value::Int(n) => Some(Some(n)),
        Value::Bool(b) => Some(Some(if b { 1 } else { 0 })),
        _ => None,
    }
}

/// The effect of `BUILD_LIST count`: the top `count` values, with their metadata, become
/// the elements of a new list, which replaces them on the stack with the default metadata.
pub open spec fn list_built(old: VM, new: VM, count: int) -> bool {
    let len = old.stack@.len() as int;
    let list = new.heap.entries@.last();
    &&& new.heap.entries@.len() == old.hlen() + 1
    &&& new.heap.entries@.subrange(0, old.hlen()) == old.heap.entries@
    &&& list is List
    &&& list->List_0.items@ == old.stack@.subrange(len - count, len)
    &&& list->List_0.meta@ == old.meta_stack@.subrange(len - count, len)
    &&& new.stack@ == old.stack@.subrange(0, len - count).push(Value::Ref(HeapId(old.hlen() as usize)))
    &&& new.meta_stack@ == old.meta_stack@.subrange(0, len - count).push(MetadataId(0))
}

/// The effect of `BUILD_TUPLE count`: as [`list_built`], with a new tuple.
pub open spec fn tuple_built(old: VM, new: VM, count: int) -> bool {
    let len = old.stack@.len() as int;
    let tuple = new.heap.entries@.last();
    &&& new.heap.entries@.len() == old.hlen() + 1
    &&& new.heap.entries@.subrange(0, old.hlen()) == old.heap.entries@
    &&& tuple is Tuple
    &&& tuple->Tuple_0.items@ == old.stack@.subrange(len - count, len)
    &&& tuple->Tuple_0.meta@ == old.meta_stack@.subrange(len - count, len)
    &&& new.stack@ == old.stack@.subrange(0, len - count).push(Value::Ref(HeapId(old.hlen() as usize)))
    &&& new.meta_stack@ == old.meta_stack@.subrange(0, len - count).push(MetadataId(0))
}

/// The effect of `UNPACK_SEQUENCE count`, with result `r`: the top value is popped; a list
/// or tuple of `count` items, or a string of `count` characters, has its items pushed in
/// reverse order (the first on top) with their metadata; any other value, or another
/// number of items, raises.
pub open spec fn sequence_unpacked(old: VM, new: VM, count: usize, r: RunResult) -> bool {
    let v = old.stack@.last();
    let m = old.meta_stack@.last();
    let src = unpack_source(old, v);
    let base = old.stack@.drop_last();
    let mbase = old.meta_stack@.drop_last();
    let n = source_len(src);
    if let ItemSource::NotIterable(t) = src {
        &&& r == RunResult::Err(type_error(ErrorKind::CannotUnpack(t)))
        &&& new.stack@ == base && new.meta_stack@ == mbase
        &&& new.heap == old.heap
    } else if n != count {
        &&& r == RunResult::Err(value_error(if n < count {
            ErrorKind::NotEnoughValues { expected: count, actual: n as usize }
        } else {
            ErrorKind::TooManyValues { expected: count, actual: n as usize }
        }))
        &&& new.stack@ == base && new.meta_stack@ == mbase
        &&& new.heap == old.heap
    } else {
        &&& r is Ok
        &&& new.stack@ == base + rev(source_items(src, old.hlen()))
        &&& new.meta_stack@ == mbase + rev(source_metas(src, m))
        &&& heap_grown(old.heap.entries@, new.heap.entries@, src, -1)
    }
}

/// The effect of `DICT_MERGE` with result `r`, for `f(**mapping)`: the mapping on top of
/// the stack is merged into the keyword dict below it by [`kwargs_merge`]; a mapping that is
/// not a dict, a key that is not a string, and a key already present raise `TypeError`.
pub open spec fn dict_merged(old: VM, new: VM, func_name_id: u16, r: RunResult) -> bool {
    let len = old.stack@.len() as int;
    let mapping = old.stack@[len - 1];
    let dref = old.stack@[len - 2];
    let base = old.stack@.subrange(0, len - 2);
    let mbase = old.meta_stack@.subrange(0, len - 2);
    let mid = mapping->Ref_0.0 as int;
    let id = dref->Ref_0.0 as int;
    let func = if func_name_id == 0xFFFF {
        "<unknown>"@
    } else {
        old.interns.strings@[func_name_id as int]@
    };
    if !(mapping is Ref && old.heap.entries@[mid] is Dict) {
        &&& (r matches Err(RunError::Exception(exc)) && exc.exc_type == ExcType::TypeError
            && exc.kind is KwargsNotMapping && exc.kind->KwargsNotMapping_func@ == func
            && exc.kind->ty == old.type_of(mapping))
        &&& new.stack@ == base && new.meta_stack@ == mbase
        &&& new.heap == old.heap
    } else if !(dref is Ref) {
        &&& r == RunResult::Err(RunError::Internal(InternalError::DictMergeExpectedDictRef))
        &&& new.stack@ == base && new.meta_stack@ == mbase
        &&& new.heap == old.heap
    } else {
        let es0 = old.heap.entries@[id]->Dict_0.entries@;
        let src = old.heap.entries@[mid]->Dict_0.entries@;
        let res = kwargs_merge(old, es0, src, 0);
        &&& slot_updated(old.heap.entries@, new.heap.entries@, id)
        &&& new.heap.entries@[id] is Dict
        &&& new.heap.entries@[id]->Dict_0.entries@ == res.0
        &&& match res.1 {
            None => {
                &&& r is Ok
                &&& new.stack@ == base.push(dref)
                &&& new.meta_stack@ == mbase.push(MetadataId(0))
            },
            Some(j) => {
                &&& new.stack@ == base && new.meta_stack@ == mbase
                &&& old.text_view(src[j].key) is None ==> r == RunResult::Err(
                    type_error(ErrorKind::KwargsNonStringKey),
                )
                &&& old.text_view(src[j].key) is Some ==> (r matches Err(
                    RunError::Exception(exc),
                ) && exc.exc_type == ExcType::TypeError && exc.kind is MultipleValues
                    && exc.kind->MultipleValues_func@ == func && exc.kind->key@
                    == old.text_view(src[j].key)->0)
            },
        }
    }
}

/// Which error a non-iterable value raises.
pub enum IterError {
    /// `Value after * must be an iterable, not {type}`, for `[*x]` and `(*x,)`.
    ValueAfterStar,
    /// `'{type}' object is not iterable`.
    NotIterable,
}

/// The error a non-iterable value of type `t` raises.
pub open spec fn iter_error(e: IterError, t: Type) -> RunError {
    match e {
        IterError::ValueAfterStar => type_error(ErrorKind::ValueAfterStar(t)),
        IterError::NotIterable => type_error(ErrorKind::NotIterable(t)),
    }
}

/// The items read from a value before any string is allocated.
pub(crate) enum SourceData {
    Items(Vec<Value>, Vec<MetadataId>),
    Chars(Vec<char>),
    Keys(Vec<Value>),
    NotIterable(Type),
}

impl SourceData {
    pub(crate) open spec fn view(&self) -> ItemSource {
        match self {
            SourceData::Items(vs, ms) => ItemSource::Items(vs@, ms@),
            SourceData::Chars(cs) => ItemSource::Chars(cs@),
            SourceData::Keys(vs) => ItemSource::Keys(vs@),
            SourceData::NotIterable(t) => ItemSource::NotIterable(*t),
        }
    }
}

impl VM {
    /// Reads what unpacking (`iterate == false`) or iteration (`iterate == true`) yields
    /// from `v`, without allocating.
    pub(crate) fn read_source(&self, v: &Value, iterate: bool) -> (r: SourceData)
        requires
            self.wf(),
            value_ok(*v, self.hlen(), self.ilen()),
        ensures
            r.view() == (if iterate {
                iter_source(*self, *v)
            } else {
                unpack_source(*self, *v)
            }),
            r matches SourceData::Items(vs, ms) ==> values_ok(vs@, self.hlen(), self.ilen())
                && vs@.len() == ms@.len(),
            r matches SourceData::Keys(vs) ==> values_ok(vs@, self.hlen(), self.ilen()),
    {
        match v {
            Value::InternString(sid) => SourceData::Chars(string_chars(self.interns.get_str(*sid))),
            Value::Ref(id) => {
                proof {
                    assert(data_ok(self.heap.entries@[id.0 as int], self.hlen(), self.ilen()));
                }
                match &self.heap.entries[id.0] {
                    HeapData::List(l) => SourceData::Items(
                        slice_to_vec(l.items.as_slice()),
                        slice_to_vec(l.meta.as_slice()),
                    ),
                    HeapData::Tuple(t) => SourceData::Items(
                        slice_to_vec(t.items.as_slice()),
                        slice_to_vec(t.meta.as_slice()),
                    ),
                    HeapData::Str(s) => SourceData::Chars(string_chars(s.as_str())),
                    HeapData::PySet(s) => {
                        if iterate {
                            SourceData::Items(
                                slice_to_vec(s.items.as_slice()),
                                slice_to_vec(s.meta.as_slice()),
                            )
                        } else {
                            SourceData::NotIterable(Type::SetType)
                        }
                    },
                    HeapData::Dict(d) => {
                        if iterate {
                            let mut keys: Vec<Value> = Vec::new();
                            let mut k: usize = 0;
                            while k < d.entries.len()
                                invariant
                                    k <= d.entries@.len(),
                                    keys@ == entry_keys(d.entries@).subrange(0, k as int),
                                decreases d.entries@.len() - k,
                            {
                                keys.push(d.entries[k].key);
                                k = k + 1;
                                proof {
                                    assert(keys@ =~= entry_keys(d.entries@).subrange(0, k as int));
                                }
                            }
                            proof {
                                assert(keys@ =~= entry_keys(d.entries@));
                                assert forall|j: int| 0 <= j < keys@.len() implies value_ok(
                                    #[trigger] keys@[j],
                                    self.hlen(),
                                    self.ilen(),
                                ) by {
                                    assert(keys@[j] == d.entries@[j].key);
                                }
                            }
                            SourceData::Keys(keys)
                        } else {
                            SourceData::NotIterable(Type::Dict)
                        }
                    },
                    HeapData::Slice(_) => SourceData::NotIterable(Type::Slice),
                    HeapData::Module(_) => SourceData::NotIterable(Type::Module),
                    HeapData::Iter(_) => SourceData::NotIterable(Type::Iterator),
                }
            },
            _ => SourceData::NotIterable(self.py_type(v)),
        }
    }

    /// Turns what was read into values: existing elements stay as they are, characters
    /// become new single-character strings carrying `meta`.
    pub(crate) fn materialize(&mut self, src: SourceData, meta: MetadataId) -> (r: (Vec<Value>, Vec<MetadataId>))
        requires
            old(self).wf(),
            !(src.view() is NotIterable),
            src matches SourceData::Items(vs, ms) ==> values_ok(vs@, old(self).hlen(), old(self).ilen())
                && vs@.len() == ms@.len(),
            src matches SourceData::Keys(vs) ==> values_ok(vs@, old(self).hlen(), old(self).ilen()),
        ensures
            final(self).wf(),
            r.0@ == source_items(src.view(), old(self).hlen()),
            r.1@ == source_metas(src.view(), meta),
            r.0@.len() == r.1@.len(),
            values_ok(r.0@, final(self).hlen(), final(self).ilen()),
            heap_grown(old(self).heap.entries@, final(self).heap.entries@, src.view(), -1),
            final(self).stack == old(self).stack,
            final(self).meta_stack == old(self).meta_stack,
            final(self).interns == old(self).interns,
            final(self).pending_arg_metadata == old(self).pending_arg_metadata,
            final(self).pending_result_metadata == old(self).pending_result_metadata,
    {
        match src {
            SourceData::Items(vs, ms) => (vs, ms),
            SourceData::Keys(vs) => {
                let mut metas: Vec<MetadataId> = Vec::new();
                let mut k: usize = 0;
                while k < vs.len()
                    invariant
                        k <= vs@.len(),
                        metas@ == Seq::new(k as nat, |j: int| meta),
                    decreases vs@.len() - k,
                {
                    metas.push(meta);
                    k = k + 1;
                    proof {
                        assert(metas@ =~= Seq::new(k as nat, |j: int| meta));
                    }
                }
                proof {
                    assert(self.heap.entries@ =~= old(self).heap.entries@);
                }
                (vs, metas)
            },
            SourceData::Chars(cs) => {
                let ghost h0 = self.heap.entries@;
                let items = self.allocate_chars(&cs);
                let mut metas: Vec<MetadataId> = Vec::new();
                let mut k: usize = 0;
                while k < items.len()
                    invariant
                        k <= items@.len(),
                        metas@ == Seq::new(k as nat, |j: int| meta),
                    decreases items@.len() - k,
                {
                    metas.push(meta);
                    k = k + 1;
                    proof {
                        assert(metas@ =~= Seq::new(k as nat, |j: int| meta));
                    }
                }
                proof {
                    let h = self.heap.entries@;
                    assert(items@ =~= source_items(ItemSource::Chars(cs@), h0.len() as int));
                    assert forall|i: int| 0 <= i < h0.len() implies #[trigger] h[i] == h0[i] by {
                        assert(h.subrange(0, h0.len() as int)[i] == h[i]);
                    }
                    assert forall|j: int| 0 <= j < items@.len() implies value_ok(
                        #[trigger] items@[j],
                        self.hlen(),
                        self.ilen(),
                    ) by {
                        assert(items@[j] == Value::Ref(HeapId((h0.len() + j) as usize)));
                    }
                    assert forall|j: int| 0 <= j < cs@.len() implies #[trigger] h[h0.len() + j] is Str
                        && h[h0.len() + j]->Str_0@ == seq![cs@[j]] by {
                        assert(items@[j] == Value::Ref(HeapId((h0.len() + j) as usize)));
                    }
                }
                (items, metas)
            },
            SourceData::NotIterable(_) => {
                assert(false);
                (Vec::new(), Vec::new())
            },
        }
    }

    /// Pushes `items` last to first, so that the first item ends on top, each with its
    /// metadata.
    fn push_reversed(&mut self, items: &Vec<Value>, metas: &Vec<MetadataId>)
        requires
            old(self).wf(),
            items@.len() == metas@.len(),
            values_ok(items@, old(self).hlen(), old(self).ilen()),
        ensures
            final(self).wf(),
            final(self).stack@ == old(self).stack@ + rev(items@),
            final(self).meta_stack@ == old(self).meta_stack@ + rev(metas@),
            final(self).heap == old(self).heap,
            final(self).interns == old(self).interns,
            final(self).pending_arg_metadata == old(self).pending_arg_metadata,
            final(self).pending_result_metadata == old(self).pending_result_metadata,
    {
        let n = items.len();
        let mut k: usize = n;
        while k > 0
            invariant
                self.wf(),
                k <= n,
                n == items@.len(),
                n == metas@.len(),
                values_ok(items@, self.hlen(), self.ilen()),
                self.stack@ == old(self).stack@ + rev(items@.subrange(k as int, n as int)),
                self.meta_stack@ == old(self).meta_stack@ + rev(metas@.subrange(k as int, n as int)),
                self.heap == old(self).heap,
                self.interns == old(self).interns,
                self.pending_arg_metadata == old(self).pending_arg_metadata,
                self.pending_result_metadata == old(self).pending_result_metadata,
            decreases k,
        {
            k = k - 1;
            assert(value_ok(items@[k as int], self.hlen(), self.ilen()));
            self.push_with_meta(items[k], metas[k]);
            proof {
                assert(rev(items@.subrange(k as int, n as int)) =~= rev(
                    items@.subrange(k + 1, n as int),
                ).push(items@[k as int]));
                assert(rev(metas@.subrange(k as int, n as int)) =~= rev(
                    metas@.subrange(k + 1, n as int),
                ).push(metas@[k as int]));
            }
        }
        proof {
            assert(items@.subrange(0, n as int) =~= items@);
            assert(metas@.subrange(0, n as int) =~= metas@);
        }
    }

    /// Unpacks a sequence into `count` values on the stack.
    ///
    /// Supports lists, tuples, and strings. For strings, each character becomes a separate
    /// single-character string carrying the string's metadata. The first item ends on top.
    pub fn unpack_sequence(&mut self, count: usize) -> (r: Result<(), RunError>)
        requires
            old(self).wf(),
            old(self).stack@.len() >= 1,
        ensures
            final(self).wf(),
            final(self).interns == old(self).interns,
            sequence_unpacked(*old(self), *final(self), count, r),
    {
        let (value, value_meta) = self.pop_with_meta();
        let src = self.read_source(&value, false);
        let n = match &src {
            SourceData::Items(vs, _) => vs.len(),
            SourceData::Chars(cs) => cs.len(),
            SourceData::Keys(vs) => vs.len(),
            SourceData::NotIterable(t) => {
                return Err(unpack_type_error(*t));
            },
        };
        if n != count {
            return Err(unpack_size_error(count, n));
        }
        let (items, meta) = self.materialize(src, value_meta);
        self.push_reversed(&items, &meta);
        Ok(())
    }

    /// Unpacks a sequence with a starred target.
    ///
    /// `before` is the number of targets before the star, `after` the number after it; the
    /// starred target collects the middle items into a new list. For example
    /// `first, *rest, last = [1, 2, 3, 4, 5]` has `before == 1` and `after == 1`, and
    /// leaves `first` on top, then `rest`, then `last`.
    pub fn unpack_ex(&mut self, before: usize, after: usize) -> (r: Result<(), RunError>)
        requires
            old(self).wf(),
            old(self).stack@.len() >= 1,
            before + after <= usize::MAX,
        ensures
            final(self).wf(),
            final(self).interns == old(self).interns,
            ({
                let v = old(self).stack@.last();
                let m = old(self).meta_stack@.last();
                let src = unpack_source(*old(self), v);
                let base = old(self).stack@.drop_last();
                let mbase = old(self).meta_stack@.drop_last();
                let n = source_len(src);
                if let ItemSource::NotIterable(t) = src {
                    &&& r == RunResult::Err(type_error(ErrorKind::CannotUnpack(t)))
                    &&& final(self).stack@ == base && final(self).meta_stack@ == mbase
                    &&& final(self).heap == old(self).heap
                } else if n < before + after {
                    &&& r == RunResult::Err(value_error(
                        ErrorKind::NotEnoughValuesAtLeast {
                            min: (before + after) as usize,
                            actual: n as usize,
                        },
                    ))
                    &&& final(self).stack@ == base && final(self).meta_stack@ == mbase
                    &&& final(self).heap == old(self).heap
                } else {
                    &&& r is Ok
                    &&& unpacked_ex(
                        old(self).heap.entries@,
                        base,
                        mbase,
                        src,
                        m,
                        before as int,
                        after as int,
                        *final(self),
                    )
                }
            }),
    {
        let (value, value_meta) = self.pop_with_meta();
        let min_items = before + after;
        let src = self.read_source(&value, false);
        let n = match &src {
            SourceData::Items(vs, _) => vs.len(),
            SourceData::Chars(cs) => cs.len(),
            SourceData::Keys(vs) => vs.len(),
            SourceData::NotIterable(t) => {
                return Err(unpack_type_error(*t));
            },
        };
        if n < min_items {
            return Err(unpack_ex_too_few_error(min_items, n));
        }
        let (items, meta) = self.materialize(src, value_meta);
        self.push_unpack_ex_results(items, &meta, before, after)
    }

    /// Pushes the results of a starred unpacking: the `after` last items, then a new list
    /// of the middle items (each keeping its metadata), then the `before` first items, so
    /// that the first item ends on top.
    fn push_unpack_ex_results(
        &mut self,
        items: Vec<Value>,
        meta: &Vec<MetadataId>,
        before: usize,
        after: usize,
    ) -> (r: Result<(), RunError>)
        requires
            old(self).wf(),
            items@.len() == meta@.len(),
            before + after <= items@.len(),
            values_ok(items@, old(self).hlen(), old(self).ilen()),
        ensures
            final(self).wf(),
            r is Ok,
            final(self).interns == old(self).interns,
            ({
                let n = items@.len() as int;
                let list_id = Value::Ref(HeapId(old(self).hlen() as usize));
                &&& final(self).heap.entries@.len() == old(self).hlen() + 1
                &&& final(self).heap.entries@.subrange(0, old(self).hlen()) == old(self).heap.entries@
                &&& final(self).heap.entries@.last() is List
                &&& final(self).heap.entries@.last()->List_0.items@ == items@.subrange(
                    before as int,
                    n - after,
                )
                &&& final(self).heap.entries@.last()->List_0.meta@ == meta@.subrange(
                    before as int,
                    n - after,
                )
                &&& final(self).stack@ == old(self).stack@ + rev(items@.subrange(n - after, n))
                    + seq![list_id] + rev(items@.subrange(0, before as int))
                &&& final(self).meta_stack@ == old(self).meta_stack@ + rev(
                    meta@.subrange(n - after, n),
                ) + seq![MetadataId(0)] + rev(meta@.subrange(0, before as int))
            }),
    {
        let n = items.len();
        let after_start = n - after;
        let tail = slice_to_vec(vstd::slice::slice_subrange(items.as_slice(), after_start, n));
        let tail_meta = slice_to_vec(vstd::slice::slice_subrange(meta.as_slice(), after_start, n));
        let middle = slice_to_vec(vstd::slice::slice_subrange(items.as_slice(), before, after_start));
        let middle_meta = slice_to_vec(
            vstd::slice::slice_subrange(meta.as_slice(), before, after_start),
        );
        let head = slice_to_vec(vstd::slice::slice_subrange(items.as_slice(), 0, before));
        let head_meta = slice_to_vec(vstd::slice::slice_subrange(meta.as_slice(), 0, before));
        proof {
            assert forall|j: int| 0 <= j < tail@.len() implies value_ok(#[trigger] tail@[j], self.hlen(), self.ilen()) by {
                assert(tail@[j] == items@[after_start + j]);
            }
            assert forall|j: int| 0 <= j < middle@.len() implies value_ok(#[trigger] middle@[j], self.hlen(), self.ilen()) by {
                assert(middle@[j] == items@[before + j]);
            }
            assert forall|j: int| 0 <= j < head@.len() implies value_ok(#[trigger] head@[j], self.hlen(), self.ilen()) by {
                assert(head@[j] == items@[j]);
            }
        }
        let ghost s0 = self.stack@;
        let ghost m0 = self.meta_stack@;
        let ghost h0 = self.heap.entries@;
        self.push_reversed(&tail, &tail_meta);
        proof {
            assert forall|j: int| 0 <= j < middle@.len() implies value_ok(#[trigger] middle@[j], self.hlen() + 1, self.ilen()) by {
                assert(value_ok(middle@[j], self.hlen(), self.ilen()));
            }
        }
        let list_id = self.allocate(
            HeapData::List(crate::heap::List { items: middle, meta: middle_meta }),
        );
        self.push(Value::Ref(list_id));
        proof {
            assert forall|j: int| 0 <= j < head@.len() implies value_ok(#[trigger] head@[j], self.hlen(), self.ilen()) by {
                assert(value_ok(head@[j], self.hlen() - 1, self.ilen()));
            }
        }
        self.push_reversed(&head, &head_meta);
        proof {
            assert(self.heap.entries@.subrange(0, h0.len() as int) =~= h0);
        }
        Ok(())
    }

    /// Extends a list with the items of an iterable, for `[*x]` literals.
    ///
    /// Stack: `[list, iterable] -> [list]`. The items keep their metadata from the source
    /// container; an iterator gives what it has left and is moved to its end. Raises `TypeError: Value after * must be an iterable, not {type}` for a
    /// non-iterable.
    pub fn list_extend(&mut self) -> (r: RunResult)
        requires
            old(self).wf(),
            old(self).stack@.len() >= 2,
            old(self).stack@[old(self).stack@.len() - 2] matches Value::Ref(id) ==> old(
                self,
            ).heap.entries@[id.0 as int] is List,
        ensures
            final(self).wf(),
            final(self).interns == old(self).interns,
            ({
                let len = old(self).stack@.len() as int;
                let it = old(self).stack@[len - 1];
                let im = old(self).meta_stack@[len - 1];
                let lst = old(self).stack@[len - 2];
                let base = old(self).stack@.subrange(0, len - 2);
                let mbase = old(self).meta_stack@.subrange(0, len - 2);
                let src = iterate_source(*old(self), it);
                let h0 = iterated_heap(*old(self), it);
                if let ItemSource::NotIterable(t) = src {
                    &&& r == RunResult::Err(type_error(ErrorKind::ValueAfterStar(t)))
                    &&& final(self).stack@ == base && final(self).meta_stack@ == mbase
                    &&& final(self).heap == old(self).heap
                } else {
                    &&& r is Ok
                    &&& final(self).stack@ == base.push(lst)
                    &&& final(self).meta_stack@ == mbase.push(MetadataId(0))
                    &&& if let Value::Ref(id) = lst {
                        let l0 = old(self).heap.entries@[id.0 as int]->List_0;
                        let l1 = final(self).heap.entries@[id.0 as int]->List_0;
                        &&& heap_grown(h0, final(self).heap.entries@, src, id.0 as int)
                        &&& final(self).heap.entries@[id.0 as int] is List
                        &&& l1.items@ == l0.items@ + source_items(src, old(self).hlen())
                        &&& l1.meta@ == l0.meta@ + source_metas(src, iterate_meta(*old(self), it, im))
                    } else {
                        heap_grown(h0, final(self).heap.entries@, src, -1)
                    }
                }
            }),
    {
        let (iterable, iter_meta) = self.pop_with_meta();
        let list_ref = self.pop();
        let ghost h0 = self.heap.entries@;
        let (items, metas) = match extract_items_with_meta(&iterable, iter_meta, self, IterError::ValueAfterStar) {
            Ok(pair) => pair,
            Err(e) => {
                return Err(e);
            },
        };
        proof {
            if let Value::Ref(id) = list_ref {
                assert(self.heap.entries@[id.0 as int] == h0[id.0 as int]);
            }
        }
        if let Value::Ref(id) = list_ref {
            self.list_extend_with_meta(id, items, metas);
        }
        self.push(list_ref);
        Ok(())
    }

    /// Converts a list to a tuple, keeping each element's metadata.
    ///
    /// Stack: `[list] -> [tuple]`.
    pub fn list_to_tuple(&mut self) -> (r: RunResult)
        requires
            old(self).wf(),
            old(self).stack@.len() >= 1,
        ensures
            final(self).wf(),
            final(self).interns == old(self).interns,
            ({
                let v = old(self).stack@.last();
                let base = old(self).stack@.drop_last();
                let mbase = old(self).meta_stack@.drop_last();
                let id = v->Ref_0;
                if v is Ref && old(self).heap.entries@[id.0 as int] is List {
                    let l = old(self).heap.entries@[id.0 as int]->List_0;
                    &&& r is Ok
                    &&& final(self).heap.entries@.len() == old(self).hlen() + 1
                    &&& final(self).heap.entries@.subrange(0, old(self).hlen()) == old(self).heap.entries@
                    &&& final(self).heap.entries@.last() is Tuple
                    &&& final(self).heap.entries@.last()->Tuple_0.items@ == l.items@
                    &&& final(self).heap.entries@.last()->Tuple_0.meta@ == l.meta@
                    &&& final(self).stack@ == base.push(Value::Ref(HeapId(old(self).hlen() as usize)))
                    &&& final(self).meta_stack@ == mbase.push(MetadataId(0))
                } else {
                    &&& r == RunResult::Err(RunError::Internal(if v is Ref {
                        InternalError::ListToTupleExpectedList
                    } else {
                        InternalError::ListToTupleExpectedListRef
                    }))
                    &&& final(self).stack@ == base && final(self).meta_stack@ == mbase
                    &&& final(self).heap == old(self).heap
                }
            }),
    {
        let list_ref = self.pop();
        let id = match list_ref {
            Value::Ref(id) => id,
            _ => {
                return Err(RunError::Internal(InternalError::ListToTupleExpectedListRef));
            },
        };
        let (items, meta) = match &self.heap.entries[id.0] {
            HeapData::List(list) => {
                proof {
                    assert(data_ok(self.heap.entries@[id.0 as int], self.hlen(), self.ilen()));
                }
                (slice_to_vec(list.items.as_slice()), slice_to_vec(list.meta.as_slice()))
            },
            _ => {
                return Err(RunError::Internal(InternalError::ListToTupleExpectedList));
            },
        };
        proof {
            assert forall|j: int| 0 <= j < items@.len() implies value_ok(#[trigger] items@[j], self.hlen() + 1, self.ilen()) by {
                assert(value_ok(items@[j], self.hlen(), self.ilen()));
            }
        }
        let tid = self.allocate(HeapData::Tuple(crate::heap::Tuple { items, meta }));
        self.push(Value::Ref(tid));
        proof {
            assert(self.heap.entries@.subrange(0, old(self).hlen()) =~= old(self).heap.entries@);
        }
        Ok(())
    }

    /// Builds a list from the top `count` stack values, keeping each value's metadata.
    pub fn build_list(&mut self, count: usize) -> (r: RunResult)
        requires
            old(self).wf(),
            count <= old(self).stack@.len(),
        ensures
            final(self).wf(),
            final(self).interns == old(self).interns,
            r is Ok,
            list_built(*old(self), *final(self), count as int),
    {
        let (items, meta) = self.pop_n_with_meta(count);
        proof {
            assert forall|j: int| 0 <= j < items@.len() implies value_ok(#[trigger] items@[j], self.hlen() + 1, self.ilen()) by {
                assert(value_ok(items@[j], self.hlen(), self.ilen()));
            }
        }
        let id = self.allocate(HeapData::List(crate::heap::List { items, meta }));
        self.push(Value::Ref(id));
        proof {
            assert(self.heap.entries@.subrange(0, old(self).hlen()) =~= old(self).heap.entries@);
        }
        Ok(())
    }

    /// Builds a tuple from the top `count` stack values, keeping each value's metadata.
    pub fn build_tuple(&mut self, count: usize) -> (r: RunResult)
        requires
            old(self).wf(),
            count <= old(self).stack@.len(),
        ensures
            final(self).wf(),
            final(self).interns == old(self).interns,
            r is Ok,
            tuple_built(*old(self), *final(self), count as int),
    {
        let (items, meta) = self.pop_n_with_meta(count);
        proof {
            assert forall|j: int| 0 <= j < items@.len() implies value_ok(#[trigger] items@[j], self.hlen() + 1, self.ilen()) by {
                assert(value_ok(items@[j], self.hlen(), self.ilen()));
            }
        }
        let id = self.allocate(HeapData::Tuple(crate::heap::Tuple { items, meta }));
        self.push(Value::Ref(id));
        proof {
            assert(self.heap.entries@.subrange(0, old(self).hlen()) =~= old(self).heap.entries@);
        }
        Ok(())
    }

    /// Appends the top value to the list below `depth` iterators, for comprehensions.
    ///
    /// Stack: `[..., list, iter1, ..., iterN, value] -> [..., list, iter1, ..., iterN]`.
    pub fn list_append(&mut self, depth: usize) -> (r: RunResult)
        requires
            old(self).wf(),
            old(self).stack@.len() >= depth + 2,
        ensures
            final(self).wf(),
            final(self).interns == old(self).interns,
            final(self).stack@ == old(self).stack@.drop_last(),
            final(self).meta_stack@ == old(self).meta_stack@.drop_last(),
            ({
                let len = old(self).stack@.len() as int;
                let v = old(self).stack@[len - 1];
                let m = old(self).meta_stack@[len - 1];
                let target = old(self).stack@[len - 2 - depth];
                let id = target->Ref_0;
                if target is Ref && old(self).heap.entries@[id.0 as int] is List {
                    let l0 = old(self).heap.entries@[id.0 as int]->List_0;
                    let l1 = final(self).heap.entries@[id.0 as int]->List_0;
                    &&& r is Ok
                    &&& slot_updated(old(self).heap.entries@, final(self).heap.entries@, id.0 as int)
                    &&& final(self).heap.entries@[id.0 as int] is List
                    &&& l1.items@ == l0.items@.push(v)
                    &&& l1.meta@ == l0.meta@.push(m)
                } else {
                    &&& r == RunResult::Err(RunError::Internal(if target is Ref {
                        InternalError::ListAppendExpectedList
                    } else {
                        InternalError::ListAppendExpectedListRef
                    }))
                    &&& final(self).heap == old(self).heap
                }
            }),
    {
        let (value, value_meta) = self.pop_with_meta();
        let list_pos = self.stack.len() - 1 - depth;
        assert(value_ok(self.stack@[list_pos as int], self.hlen(), self.ilen()));
        let list_id = match self.stack[list_pos] {
            Value::Ref(id) => id,
            _ => {
                return Err(RunError::Internal(InternalError::ListAppendExpectedListRef));
            },
        };
        let is_list = match &self.heap.entries[list_id.0] {
            HeapData::List(_) => true,
            _ => false,
        };
        if !is_list {
            return Err(RunError::Internal(InternalError::ListAppendExpectedList));
        }
        self.list_append_with_meta(list_id, value, value_meta);
        Ok(())
    }

    /// Builds a dict from the top `2 * count` stack values (key/value pairs), keeping the
    /// metadata of each key and each value.
    ///
    /// A later pair with a key equal to an earlier one replaces its value. Raises
    /// `TypeError` for an unhashable key, leaving the heap as it was.
    pub fn build_dict(&mut self, count: usize) -> (r: RunResult)
        requires
            old(self).wf(),
            2 * count <= old(self).stack@.len(),
        ensures
            final(self).wf(),
            final(self).interns == old(self).interns,
            ({
                let len = old(self).stack@.len() as int;
                let pairs = pair_entries(
                    old(self).stack@.subrange(len - 2 * count, len),
                    old(self).meta_stack@.subrange(len - 2 * count, len),
                );
                let base = old(self).stack@.subrange(0, len - 2 * count);
                let mbase = old(self).meta_stack@.subrange(0, len - 2 * count);
                match first_unhashable(*old(self), entry_keys(pairs), 0) {
                    Some(j) => {
                        &&& r == RunResult::Err(
                            type_error(ErrorKind::Unhashable(old(self).type_of(pairs[j].key))),
                        )
                        &&& final(self).stack@ == base && final(self).meta_stack@ == mbase
                        &&& final(self).heap == old(self).heap
                    },
                    None => {
                        let d = final(self).heap.entries@.last();
                        &&& r is Ok
                        &&& final(self).heap.entries@.len() == old(self).hlen() + 1
                        &&& final(self).heap.entries@.subrange(0, old(self).hlen())
                            == old(self).heap.entries@
                        &&& d is Dict
                        &&& d->Dict_0.entries@ == dict_added(*old(self), Seq::empty(), pairs)
                        &&& final(self).stack@ == base.push(Value::Ref(HeapId(old(self).hlen() as usize)))
                        &&& final(self).meta_stack@ == mbase.push(MetadataId(0))
                    },
                }
            }),
    {
        let ghost vm0 = *self;
        assert(count * 2 <= self.stack.len());
        let (items, meta) = self.pop_n_with_meta(count * 2);
        let ghost stack1 = self.stack@;
        let ghost meta1 = self.meta_stack@;
        let ghost pairs = pair_entries(items@, meta@);
        let ghost keys = entry_keys(pairs);
        let mut dict = crate::heap::Dict { entries: Vec::new() };
        let mut k: usize = 0;
        while k < count
            invariant
                self.wf(),
                k <= count,
                items@.len() == 2 * count,
                meta@.len() == 2 * count,
                pairs == pair_entries(items@, meta@),
                keys == entry_keys(pairs),
                values_ok(items@, self.hlen(), self.ilen()),
                vm0 == *old(self),
                vm0.stack@.len() == vm0.meta_stack@.len(),
                self.heap == vm0.heap,
                self.interns == vm0.interns,
                self.stack@ == stack1,
                self.meta_stack@ == meta1,
                stack1 == vm0.stack@.subrange(0, vm0.stack@.len() - 2 * count),
                meta1 == vm0.meta_stack@.subrange(0, vm0.meta_stack@.len() - 2 * count),
                items@ == vm0.stack@.subrange(vm0.stack@.len() - 2 * count, vm0.stack@.len() as int),
                meta@ == vm0.meta_stack@.subrange(vm0.meta_stack@.len() - 2 * count, vm0.meta_stack@.len() as int),
                crate::heap::entries_ok(dict.entries@, self.hlen(), self.ilen()),
                keys_distinct(*self, dict.entries@),
                dict.entries@ == dict_added(vm0, Seq::empty(), pairs.subrange(0, k as int)),
                first_unhashable(vm0, keys, 0) == first_unhashable(vm0, keys, k as int),
            decreases count - k,
        {
            assert(2 * k + 1 < items.len());
            let key = items[2 * k];
            let value = items[2 * k + 1];
            assert(value_ok(items@[2 * k as int], self.hlen(), self.ilen()));
            assert(value_ok(items@[2 * k + 1], self.hlen(), self.ilen()));
            proof {
                assert(pairs[k as int].key == key);
                assert(keys[k as int] == key);
                assert(self.key_view(key) == vm0.key_view(key));
                assert(self.type_of(key) == vm0.type_of(key));
            }
            let ghost es0 = dict.entries@;
            match self.dict_set_local(&mut dict, key, meta[2 * k], value, meta[2 * k + 1]) {
                Err(e) => {
                    proof {
                        assert(first_unhashable(vm0, keys, k as int) == Some(k as int));
                    }
                    return Err(e);
                },
                Ok(_) => {},
            }
            proof {
                lemma_first_unhashable_step(vm0, keys, k as int);
                assert(pairs.subrange(0, k + 1).drop_last() =~= pairs.subrange(0, k as int));
                lemma_find_entry_framed(*self, vm0, es0, key, 0);
            }
            k = k + 1;
        }
        proof {
            assert(pairs.subrange(0, count as int) =~= pairs);
            assert forall|j: int| 0 <= j < dict.entries@.len() implies value_ok(
                #[trigger] dict.entries@[j].key,
                self.hlen() + 1,
                self.ilen(),
            ) && value_ok(dict.entries@[j].value, self.hlen() + 1, self.ilen()) by {
                assert(value_ok(dict.entries@[j].key, self.hlen(), self.ilen()));
            }
        }
        let id = self.allocate(HeapData::Dict(dict));
        self.push(Value::Ref(id));
        proof {
            assert(self.heap.entries@.subrange(0, old(self).hlen()) =~= old(self).heap.entries@);
        }
        Ok(())
    }

    /// Builds a set from the top `count` stack values, keeping each value's metadata; a
    /// value equal to an earlier one is not added again.
    ///
    /// Raises `TypeError` for an unhashable value, leaving the heap as it was.
    pub fn build_set(&mut self, count: usize) -> (r: RunResult)
        requires
            old(self).wf(),
            count <= old(self).stack@.len(),
        ensures
            final(self).wf(),
            final(self).interns == old(self).interns,
            set_built(*old(self), *final(self), count, r),
    {
        let ghost vm0 = *self;
        let (items, meta) = self.pop_n_with_meta(count);
        let ghost stack1 = self.stack@;
        let ghost meta1 = self.meta_stack@;
        let mut set = crate::heap::PySet { items: Vec::new(), meta: Vec::new() };
        let mut k: usize = 0;
        while k < count
            invariant
                self.wf(),
                k <= count,
                vm0 == *old(self),
                vm0.stack@.len() == vm0.meta_stack@.len(),
                items@.len() == count,
                meta@.len() == count,
                items@ == vm0.stack@.subrange(vm0.stack@.len() - count, vm0.stack@.len() as int),
                meta@ == vm0.meta_stack@.subrange(vm0.meta_stack@.len() - count, vm0.meta_stack@.len() as int),
                values_ok(items@, self.hlen(), self.ilen()),
                self.heap == vm0.heap,
                self.interns == vm0.interns,
                self.stack@ == stack1,
                self.meta_stack@ == meta1,
                stack1 == vm0.stack@.subrange(0, vm0.stack@.len() - count),
                meta1 == vm0.meta_stack@.subrange(0, vm0.meta_stack@.len() - count),
                set.items@.len() == set.meta@.len(),
                values_ok(set.items@, self.hlen(), self.ilen()),
                (set.items@, set.meta@) == set_added(
                    vm0,
                    Seq::empty(),
                    Seq::empty(),
                    items@.subrange(0, k as int),
                    meta@.subrange(0, k as int),
                ),
                first_unhashable(vm0, items@, 0) == first_unhashable(vm0, items@, k as int),
            decreases count - k,
        {
            let item = items[k];
            assert(value_ok(items@[k as int], self.hlen(), self.ilen()));
            proof {
                lemma_keys_framed(*self, vm0, item);
            }
            let ghost set0 = set.items@;
            match self.set_add_local(&mut set, item, meta[k]) {
                Err(e) => {
                    proof {
                        assert(first_unhashable(vm0, items@, k as int) == Some(k as int));
                    }
                    return Err(e);
                },
                Ok(_) => {},
            }
            proof {
                lemma_first_unhashable_step(vm0, items@, k as int);
                assert(items@.subrange(0, k + 1).drop_last() =~= items@.subrange(0, k as int));
                assert(meta@.subrange(0, k + 1).drop_last() =~= meta@.subrange(0, k as int));
                lemma_find_value_framed(*self, vm0, set0, item, 0);
            }
            k = k + 1;
        }
        proof {
            assert(items@.subrange(0, count as int) =~= items@);
            assert(meta@.subrange(0, count as int) =~= meta@);
            assert forall|j: int| 0 <= j < set.items@.len() implies value_ok(
                #[trigger] set.items@[j],
                self.hlen() + 1,
                self.ilen(),
            ) by {
                assert(value_ok(set.items@[j], self.hlen(), self.ilen()));
            }
        }
        let id = self.allocate(HeapData::PySet(set));
        self.push(Value::Ref(id));
        proof {
            assert(self.heap.entries@.subrange(0, old(self).hlen()) =~= old(self).heap.entries@);
        }
        Ok(())
    }

    /// Adds the items of an iterable to the set `depth` positions below it, for `{*x}`
    /// literals; each item keeps its metadata.
    ///
    /// Stack: `[..., set, ..., iterable] -> [..., set, ...]`. Raises
    /// `TypeError: '{type}' object is not iterable` for a non-iterable, and `TypeError` for
    /// an unhashable item, the items before it having been added.
    pub fn set_extend(&mut self, depth: usize) -> (r: RunResult)
        requires
            old(self).wf(),
            old(self).stack@.len() >= depth + 2,
            old(self).stack@[old(self).stack@.len() - 2 - depth] is Ref,
            old(self).heap.entries@[old(self).stack@[old(self).stack@.len() - 2 - depth]->Ref_0.0 as int] is PySet,
        ensures
            final(self).wf(),
            final(self).interns == old(self).interns,
            final(self).stack@ == old(self).stack@.drop_last(),
            final(self).meta_stack@ == old(self).meta_stack@.drop_last(),
            ({
                let len = old(self).stack@.len() as int;
                let it = old(self).stack@[len - 1];
                let im = old(self).meta_stack@[len - 1];
                let id = old(self).stack@[len - 2 - depth]->Ref_0.0 as int;
                let src = iterate_source(*old(self), it);
                let h0 = iterated_heap(*old(self), it);
                let s0 = old(self).heap.entries@[id]->PySet_0;
                let s1 = final(self).heap.entries@[id]->PySet_0;
                if let ItemSource::NotIterable(t) = src {
                    &&& r == RunResult::Err(type_error(ErrorKind::NotIterable(t)))
                    &&& final(self).heap == old(self).heap
                } else {
                    let vs = source_items(src, old(self).hlen());
                    let ms = source_metas(src, iterate_meta(*old(self), it, im));
                    &&& heap_grown(h0, final(self).heap.entries@, src, id)
                    &&& final(self).heap.entries@[id] is PySet
                    &&& match first_unhashable(*final(self), vs, 0) {
                        Some(j) => {
                            &&& r == RunResult::Err(
                                type_error(ErrorKind::Unhashable(final(self).type_of(vs[j]))),
                            )
                            &&& (s1.items@, s1.meta@) == set_added(
                                *final(self),
                                s0.items@,
                                s0.meta@,
                                vs.subrange(0, j),
                                ms.subrange(0, j),
                            )
                        },
                        None => {
                            &&& r is Ok
                            &&& (s1.items@, s1.meta@) == set_added(
                                *final(self),
                                s0.items@,
                                s0.meta@,
                                vs,
                                ms,
                            )
                        },
                    }
                }
            }),
    {
        let (iterable, iter_meta) = self.pop_with_meta();
        let (items, metas) = match extract_items_with_meta(&iterable, iter_meta, self, IterError::NotIterable) {
            Ok(pair) => pair,
            Err(e) => {
                return Err(e);
            },
        };
        let set_pos = self.stack.len() - 1 - depth;
        let set_id = match self.stack[set_pos] {
            Value::Ref(id) => id,
            _ => {
                assert(false);
                return Ok(());
            },
        };
        let ghost vm1 = *self;
        let ghost s0 = self.heap.entries@[set_id.0 as int]->PySet_0;
        let ghost src = iterate_source(*old(self), old(self).stack@.last());
        let ghost h0 = iterated_heap(*old(self), old(self).stack@.last());
        proof {
            assert(self.stack@[set_pos as int] == old(self).stack@[old(self).stack@.len() - 2 - depth]);
            assert(self.heap.entries@[set_id.0 as int] == old(self).heap.entries@[set_id.0 as int]);
            assert(data_ok(self.heap.entries@[set_id.0 as int], self.hlen(), self.ilen()));
            lemma_keys_framed_symm(vm1, vm1);
        }
        let mut k: usize = 0;
        while k < items.len()
            invariant
                self.wf(),
                k <= items@.len(),
                items@.len() == metas@.len(),
                vm1.wf(),
                old(self).stack@.len() == old(self).meta_stack@.len(),
                old(self).stack@.len() >= depth + 2,
                vm1.interns == old(self).interns,
                vm1.stack@ == old(self).stack@.drop_last(),
                vm1.meta_stack@ == old(self).meta_stack@.drop_last(),
                src == iterate_source(*old(self), old(self).stack@.last()),
                h0 == iterated_heap(*old(self), old(self).stack@.last()),
                h0.len() == old(self).hlen(),
                !(src is NotIterable),
                items@ == source_items(src, old(self).hlen()),
                metas@ == source_metas(
                    src,
                    iterate_meta(*old(self), old(self).stack@.last(), old(self).meta_stack@.last()),
                ),
                heap_grown(h0, vm1.heap.entries@, src, -1),
                set_id == old(self).stack@[old(self).stack@.len() - 2 - depth]->Ref_0,
                (set_id.0 as int) < old(self).hlen(),
                s0 == old(self).heap.entries@[set_id.0 as int]->PySet_0,
                (set_id.0 as int) < vm1.hlen(),
                vm1.heap.entries@[set_id.0 as int] is PySet,
                s0 == vm1.heap.entries@[set_id.0 as int]->PySet_0,
                values_ok(s0.items@, vm1.hlen(), vm1.ilen()),
                values_ok(items@, vm1.hlen(), vm1.ilen()),
                self.stack == vm1.stack,
                self.meta_stack == vm1.meta_stack,
                self.interns == vm1.interns,
                self.hlen() == vm1.hlen(),
                keys_framed(vm1, *self),
                slot_updated(vm1.heap.entries@, self.heap.entries@, set_id.0 as int),
                self.heap.entries@[set_id.0 as int] is PySet,
                (self.heap.entries@[set_id.0 as int]->PySet_0.items@, self.heap.entries@[set_id.0 as int]->PySet_0.meta@)
                    == set_added(vm1, s0.items@, s0.meta@, items@.subrange(0, k as int), metas@.subrange(0, k as int)),
                first_unhashable(vm1, items@, 0) == first_unhashable(vm1, items@, k as int),
            decreases items@.len() - k,
        {
            let item = items[k];
            let ghost cur = *self;
            let ghost cur_set = self.heap.entries@[set_id.0 as int]->PySet_0;
            proof {
                assert(value_ok(items@[k as int], vm1.hlen(), vm1.ilen()));
                lemma_keys_framed(vm1, cur, item);
                lemma_keys_framed_symm(vm1, cur);
                assert(data_ok(self.heap.entries@[set_id.0 as int], self.hlen(), self.ilen()));
                lemma_find_value_framed(cur, vm1, cur_set.items@, item, 0);
            }
            match self.set_add_with_meta(set_id, item, metas[k]) {
                Err(e) => {
                    proof {
                        assert(first_unhashable(vm1, items@, k as int) == Some(k as int));
                        lemma_first_unhashable_framed(vm1, *self, items@, 0);
                        assert(values_ok(items@.subrange(0, k as int), vm1.hlen(), vm1.ilen()));
                        lemma_set_added_framed(vm1, *self, s0.items@, s0.meta@, items@.subrange(0, k as int), metas@.subrange(0, k as int));
                        lemma_heap_grown_slot(h0, vm1.heap.entries@, self.heap.entries@, src, set_id.0 as int);
                    }
                    return Err(e);
                },
                Ok(_) => {},
            }
            proof {
                lemma_first_unhashable_step(vm1, items@, k as int);
                assert(items@.subrange(0, k + 1).drop_last() =~= items@.subrange(0, k as int));
                assert(metas@.subrange(0, k + 1).drop_last() =~= metas@.subrange(0, k as int));
                lemma_keys_framed_trans(vm1, cur, *self);
            }
            k = k + 1;
        }
        proof {
            assert(items@.subrange(0, items@.len() as int) =~= items@);
            assert(metas@.subrange(0, metas@.len() as int) =~= metas@);
            lemma_first_unhashable_framed(vm1, *self, items@, 0);
            lemma_set_added_framed(vm1, *self, s0.items@, s0.meta@, items@, metas@);
            lemma_heap_grown_slot(h0, vm1.heap.entries@, self.heap.entries@, src, set_id.0 as int);
        }
        Ok(())
    }

    /// Adds the top value to the set below `depth` iterators, for comprehensions.
    ///
    /// Stack: `[..., set, iter1, ..., iterN, value] -> [..., set, iter1, ..., iterN]`.
    /// Raises `TypeError` if the value is unhashable.
    pub fn set_add(&mut self, depth: usize) -> (r: RunResult)
        requires
            old(self).wf(),
            old(self).stack@.len() >= depth + 2,
        ensures
            final(self).wf(),
            final(self).interns == old(self).interns,
            set_add_done(*old(self), *final(self), depth, r),
    {
        let ghost vm0 = *self;
        let (value, value_meta) = self.pop_with_meta();
        let set_pos = self.stack.len() - 1 - depth;
        assert(value_ok(self.stack@[set_pos as int], self.hlen(), self.ilen()));
        let set_id = match self.stack[set_pos] {
            Value::Ref(id) => id,
            _ => {
                return Err(RunError::Internal(InternalError::SetAddExpectedSetRef));
            },
        };
        let is_set = match &self.heap.entries[set_id.0] {
            HeapData::PySet(_) => true,
            _ => false,
        };
        if !is_set {
            return Err(RunError::Internal(InternalError::SetAddExpectedSet));
        }
        proof {
            lemma_keys_framed_symm(vm0, *self);
            lemma_keys_framed(vm0, *self, value);
            let s0 = self.heap.entries@[set_id.0 as int]->PySet_0;
            assert(data_ok(self.heap.entries@[set_id.0 as int], self.hlen(), self.ilen()));
            lemma_find_value_framed(*self, vm0, s0.items@, value, 0);
        }
        self.set_add_with_meta(set_id, value, value_meta)
    }

    /// Sets `dict[key] = value` in the dict below `depth` iterators, for comprehensions,
    /// keeping the metadata of the key and of the value.
    ///
    /// Stack: `[..., dict, iter1, ..., iterN, key, value] -> [..., dict, iter1, ..., iterN]`.
    /// Raises `TypeError` if the key is unhashable.
    pub fn dict_set_item(&mut self, depth: usize) -> (r: RunResult)
        requires
            old(self).wf(),
            old(self).stack@.len() >= depth + 3,
        ensures
            final(self).wf(),
            final(self).interns == old(self).interns,
            final(self).stack@ == old(self).stack@.subrange(0, old(self).stack@.len() - 2),
            final(self).meta_stack@ == old(self).meta_stack@.subrange(0, old(self).meta_stack@.len() - 2),
            ({
                let len = old(self).stack@.len() as int;
                let value = old(self).stack@[len - 1];
                let vmeta = old(self).meta_stack@[len - 1];
                let key = old(self).stack@[len - 2];
                let kmeta = old(self).meta_stack@[len - 2];
                let target = old(self).stack@[len - 3 - depth];
                let id = target->Ref_0.0 as int;
                if !(target is Ref) {
                    &&& r == RunResult::Err(RunError::Internal(InternalError::DictSetItemExpectedDictRef))
                    &&& final(self).heap == old(self).heap
                } else if !(old(self).heap.entries@[id] is Dict) {
                    &&& r == RunResult::Err(RunError::Internal(InternalError::DictSetItemExpectedDict))
                    &&& final(self).heap == old(self).heap
                } else if old(self).key_view(key) is Unhashable {
                    &&& r == RunResult::Err(type_error(ErrorKind::Unhashable(old(self).type_of(key))))
                    &&& final(self).heap == old(self).heap
                } else {
                    &&& r is Ok
                    &&& slot_updated(old(self).heap.entries@, final(self).heap.entries@, id)
                    &&& final(self).heap.entries@[id] is Dict
                    &&& final(self).heap.entries@[id]->Dict_0.entries@ == dict_set_spec(
                        *old(self),
                        old(self).heap.entries@[id]->Dict_0.entries@,
                        key,
                        kmeta,
                        value,
                        vmeta,
                    )
                }
            }),
    {
        let ghost vm0 = *self;
        let (value, value_meta) = self.pop_with_meta();
        let (key, key_meta) = self.pop_with_meta();
        let dict_pos = self.stack.len() - 1 - depth;
        assert(value_ok(self.stack@[dict_pos as int], self.hlen(), self.ilen()));
        let dict_id = match self.stack[dict_pos] {
            Value::Ref(id) => id,
            _ => {
                return Err(RunError::Internal(InternalError::DictSetItemExpectedDictRef));
            },
        };
        let is_dict = match &self.heap.entries[dict_id.0] {
            HeapData::Dict(_) => true,
            _ => false,
        };
        if !is_dict {
            return Err(RunError::Internal(InternalError::DictSetItemExpectedDict));
        }
        proof {
            lemma_keys_framed_symm(vm0, *self);
            lemma_keys_framed(vm0, *self, key);
            let es = self.heap.entries@[dict_id.0 as int]->Dict_0.entries@;
            assert(data_ok(self.heap.entries@[dict_id.0 as int], self.hlen(), self.ilen()));
            lemma_find_entry_framed(*self, vm0, es, key, 0);
        }
        match self.dict_set_with_meta(dict_id, key, key_meta, value, value_meta) {
            Ok(_) => Ok(()),
            Err(e) => Err(e),
        }
    }

    /// Builds a slice object from the top three stack values.
    ///
    /// Stack: `[start, stop, step] -> [slice]`. Each bound is `None` or an integer; anything
    /// else raises `TypeError`, the start checked first, then the stop, then the step.
    pub fn build_slice(&mut self) -> (r: RunResult)
        requires
            old(self).wf(),
            old(self).stack@.len() >= 3,
        ensures
            final(self).wf(),
            final(self).interns == old(self).interns,
            ({
                let len = old(self).stack@.len() as int;
                let start = slice_bound(old(self).stack@[len - 3]);
                let stop = slice_bound(old(self).stack@[len - 2]);
                let step = slice_bound(old(self).stack@[len - 1]);
                let base = old(self).stack@.subrange(0, len - 3);
                let mbase = old(self).meta_stack@.subrange(0, len - 3);
                if start is None || stop is None || step is None {
                    &&& r == RunResult::Err(type_error(ErrorKind::SliceIndices))
                    &&& final(self).stack@ == base && final(self).meta_stack@ == mbase
                    &&& final(self).heap == old(self).heap
                } else {
                    let sl = final(self).heap.entries@.last()->Slice_0;
                    &&& r is Ok
                    &&& final(self).heap.entries@.len() == old(self).hlen() + 1
                    &&& final(self).heap.entries@.subrange(0, old(self).hlen()) == old(self).heap.entries@
                    &&& final(self).heap.entries@.last() is Slice
                    &&& Some(sl.start) == start && Some(sl.stop) == stop && Some(sl.step) == step
                    &&& final(self).stack@ == base.push(Value::Ref(HeapId(old(self).hlen() as usize)))
                    &&& final(self).meta_stack@ == mbase.push(MetadataId(0))
                }
            }),
    {
        let step_val = self.pop();
        let stop_val = self.pop();
        let start_val = self.pop();
        proof {
            assert(self.stack@ =~= old(self).stack@.subrange(0, old(self).stack@.len() - 3));
            assert(self.meta_stack@ =~= old(self).meta_stack@.subrange(0, old(self).meta_stack@.len() - 3));
        }
        let start = match value_to_option_i64(&start_val) {
            Ok(b) => b,
            Err(e) => {
                return Err(e);
            },
        };
        let stop = match value_to_option_i64(&stop_val) {
            Ok(b) => b,
            Err(e) => {
                return Err(e);
            },
        };
        let step = match value_to_option_i64(&step_val) {
            Ok(b) => b,
            Err(e) => {
                return Err(e);
            },
        };
        let id = self.allocate(HeapData::Slice(crate::heap::Slice { start, stop, step }));
        self.push(Value::Ref(id));
        proof {
            assert(self.heap.entries@.subrange(0, old(self).hlen()) =~= old(self).heap.entries@);
        }
        Ok(())
    }

    /// Merges a mapping into the dict literal `depth` positions below it, for `{**x}`
    /// literals: later keys silently replace earlier ones, and every key and value keeps
    /// its metadata.
    ///
    /// Stack: `[..., dict, ..., mapping] -> [..., dict, ...]`. Raises
    /// `TypeError: '{type}' object is not a mapping` if the top value is not a dict.
    pub fn dict_update(&mut self, depth: usize) -> (r: RunResult)
        requires
            old(self).wf(),
            old(self).stack@.len() >= depth + 2,
            old(self).stack@[old(self).stack@.len() - 2 - depth] is Ref,
            old(self).heap.entries@[old(self).stack@[old(self).stack@.len() - 2 - depth]->Ref_0.0 as int] is Dict,
        ensures
            final(self).wf(),
            final(self).interns == old(self).interns,
            final(self).stack@ == old(self).stack@.drop_last(),
            final(self).meta_stack@ == old(self).meta_stack@.drop_last(),
            ({
                let len = old(self).stack@.len() as int;
                let mapping = old(self).stack@[len - 1];
                let id = old(self).stack@[len - 2 - depth]->Ref_0.0 as int;
                let mid = mapping->Ref_0.0 as int;
                let es0 = old(self).heap.entries@[id]->Dict_0.entries@;
                if !(mapping is Ref && old(self).heap.entries@[mid] is Dict) {
                    &&& r == RunResult::Err(type_error(ErrorKind::NotMapping(old(self).type_of(mapping))))
                    &&& final(self).heap == old(self).heap
                } else {
                    let src = old(self).heap.entries@[mid]->Dict_0.entries@;
                    let es1 = final(self).heap.entries@[id]->Dict_0.entries@;
                    &&& slot_updated(old(self).heap.entries@, final(self).heap.entries@, id)
                    &&& final(self).heap.entries@[id] is Dict
                    &&& match first_unhashable(*old(self), entry_keys(src), 0) {
                        Some(j) => {
                            &&& r == RunResult::Err(
                                type_error(ErrorKind::Unhashable(old(self).type_of(src[j].key))),
                            )
                            &&& es1 == dict_added(*old(self), es0, src.subrange(0, j))
                        },
                        None => {
                            &&& r is Ok
                            &&& es1 == dict_added(*old(self), es0, src)
                        },
                    }
                }
            }),
    {
        let ghost vm0 = *self;
        let mapping = self.pop();
        let copied: Vec<DictEntry> = match mapping {
            Value::Ref(mid) => match &self.heap.entries[mid.0] {
                HeapData::Dict(d) => slice_to_vec(d.entries.as_slice()),
                _ => {
                    let t = self.py_type(&mapping);
                    return Err(new_type_error(ErrorKind::NotMapping(t)));
                },
            },
            _ => {
                let t = self.py_type(&mapping);
                return Err(new_type_error(ErrorKind::NotMapping(t)));
            },
        };
        let dict_pos = self.stack.len() - 1 - depth;
        let dict_id = match self.stack[dict_pos] {
            Value::Ref(id) => id,
            _ => {
                assert(false);
                return Ok(());
            },
        };
        let ghost src = copied@;
        let ghost keys = entry_keys(src);
        let ghost es0 = vm0.heap.entries@[dict_id.0 as int]->Dict_0.entries@;
        proof {
            assert(self.stack@[dict_pos as int] == vm0.stack@[vm0.stack@.len() - 2 - depth]);
            assert(data_ok(vm0.heap.entries@[mapping->Ref_0.0 as int], vm0.hlen(), vm0.ilen()));
            assert(data_ok(vm0.heap.entries@[dict_id.0 as int], vm0.hlen(), vm0.ilen()));
            assert(dict_added(vm0, es0, src.subrange(0, 0)) == es0);
            lemma_keys_framed_symm(vm0, *self);
        }
        let mut k: usize = 0;
        while k < copied.len()
            invariant
                self.wf(),
                vm0 == *old(self),
                vm0.wf(),
                k <= src.len(),
                src == copied@,
                vm0.stack@.len() >= depth + 2,
                vm0.stack@.len() == vm0.meta_stack@.len(),
                vm0.stack@.last() is Ref,
                vm0.heap.entries@[vm0.stack@.last()->Ref_0.0 as int] is Dict,
                src == vm0.heap.entries@[vm0.stack@.last()->Ref_0.0 as int]->Dict_0.entries@,
                dict_id == vm0.stack@[vm0.stack@.len() - 2 - depth]->Ref_0,
                keys == entry_keys(src),
                crate::heap::entries_ok(src, vm0.hlen(), vm0.ilen()),
                (dict_id.0 as int) < vm0.hlen(),
                vm0.heap.entries@[dict_id.0 as int] is Dict,
                es0 == vm0.heap.entries@[dict_id.0 as int]->Dict_0.entries@,
                self.stack@ == vm0.stack@.drop_last(),
                self.meta_stack@ == vm0.meta_stack@.drop_last(),
                self.interns == vm0.interns,
                self.hlen() == vm0.hlen(),
                keys_framed(vm0, *self),
                slot_updated(vm0.heap.entries@, self.heap.entries@, dict_id.0 as int),
                self.heap.entries@[dict_id.0 as int] is Dict,
                self.heap.entries@[dict_id.0 as int]->Dict_0.entries@ == dict_added(vm0, es0, src.subrange(0, k as int)),
                first_unhashable(vm0, keys, 0) == first_unhashable(vm0, keys, k as int),
            decreases src.len() - k,
        {
            let e = copied[k];
            let ghost cur = *self;
            let ghost cur_es = self.heap.entries@[dict_id.0 as int]->Dict_0.entries@;
            proof {
                assert(e == src[k as int]);
                assert(keys[k as int] == e.key);
                assert(crate::heap::value_ok(src[k as int].key, vm0.hlen(), vm0.ilen()));
                lemma_keys_framed(vm0, cur, e.key);
                lemma_keys_framed(vm0, cur, e.value);
                lemma_keys_framed_symm(vm0, cur);
                assert(data_ok(self.heap.entries@[dict_id.0 as int], self.hlen(), self.ilen()));
                lemma_find_entry_framed(cur, vm0, cur_es, e.key, 0);
            }
            match self.dict_set_with_meta(dict_id, e.key, e.key_meta, e.value, e.value_meta) {
                Err(err) => {
                    proof {
                        assert(first_unhashable(vm0, keys, k as int) == Some(k as int));
                    }
                    return Err(err);
                },
                Ok(_) => {},
            }
            proof {
                lemma_first_unhashable_step(vm0, keys, k as int);
                assert(src.subrange(0, k + 1).drop_last() =~= src.subrange(0, k as int));
                lemma_keys_framed_trans(vm0, cur, *self);
            }
            k = k + 1;
        }
        proof {
            assert(src.subrange(0, src.len() as int) =~= src);
        }
        Ok(())
    }

    /// Merges a mapping into a dict for `**kwargs` unpacking in a call.
    ///
    /// Stack: `[dict, mapping] -> [dict]`. Raises `TypeError` if the mapping is not a dict,
    /// if a key is not a string, or if a key is already present (after setting it); the
    /// message names the called function, `"<unknown>"` when `func_name_id` is `0xFFFF`.
    pub fn dict_merge(&mut self, func_name_id: u16) -> (r: RunResult)
        requires
            old(self).wf(),
            old(self).stack@.len() >= 2,
            func_name_id == 0xFFFF || (func_name_id as int) < old(self).ilen(),
            old(self).stack@[old(self).stack@.len() - 2] is Ref ==> old(self).heap.entries@[old(
                self,
            ).stack@[old(self).stack@.len() - 2]->Ref_0.0 as int] is Dict,
        ensures
            final(self).wf(),
            final(self).interns == old(self).interns,
            dict_merged(*old(self), *final(self), func_name_id, r),
    {
        let ghost vm0 = *self;
        let mapping = self.pop();
        let dict_ref = self.pop();
        proof {
            assert(self.stack@ =~= vm0.stack@.subrange(0, vm0.stack@.len() - 2));
            assert(self.meta_stack@ =~= vm0.meta_stack@.subrange(0, vm0.meta_stack@.len() - 2));
        }
        let func_name = if func_name_id == 0xFFFF {
            String::from_str("<unknown>")
        } else {
            String::from_str(self.interns.get_str(StringId(func_name_id as u32)))
        };
        let copied: Vec<DictEntry> = match mapping {
            Value::Ref(mid) => match &self.heap.entries[mid.0] {
                HeapData::Dict(d) => slice_to_vec(d.entries.as_slice()),
                _ => {
                    let t = self.py_type(&mapping);
                    return Err(new_type_error(ErrorKind::KwargsNotMapping { func: func_name, ty: t }));
                },
            },
            _ => {
                let t = self.py_type(&mapping);
                return Err(new_type_error(ErrorKind::KwargsNotMapping { func: func_name, ty: t }));
            },
        };
        let dict_id = match dict_ref {
            Value::Ref(id) => id,
            _ => {
                return Err(RunError::Internal(InternalError::DictMergeExpectedDictRef));
            },
        };
        let ghost src = copied@;
        let ghost es0 = vm0.heap.entries@[dict_id.0 as int]->Dict_0.entries@;
        let ghost stack1 = self.stack@;
        let ghost meta1 = self.meta_stack@;
        proof {
            assert(data_ok(vm0.heap.entries@[mapping->Ref_0.0 as int], vm0.hlen(), vm0.ilen()));
            assert(data_ok(vm0.heap.entries@[dict_id.0 as int], vm0.hlen(), vm0.ilen()));
            lemma_keys_framed_symm(vm0, *self);
        }
        let mut k: usize = 0;
        while k < copied.len()
            invariant
                self.wf(),
                vm0 == *old(self),
                vm0.wf(),
                k <= src.len(),
                src == copied@,
                vm0.stack@.len() >= 2,
                vm0.stack@.len() == vm0.meta_stack@.len(),
                vm0.stack@.last() is Ref,
                vm0.heap.entries@[vm0.stack@.last()->Ref_0.0 as int] is Dict,
                src == vm0.heap.entries@[vm0.stack@.last()->Ref_0.0 as int]->Dict_0.entries@,
                vm0.stack@[vm0.stack@.len() - 2] == Value::Ref(dict_id),
                stack1 == vm0.stack@.subrange(0, vm0.stack@.len() - 2),
                meta1 == vm0.meta_stack@.subrange(0, vm0.meta_stack@.len() - 2),
                func_name@ == (if func_name_id == 0xFFFF {
                    "<unknown>"@
                } else {
                    vm0.interns.strings@[func_name_id as int]@
                }),
                crate::heap::entries_ok(src, vm0.hlen(), vm0.ilen()),
                (dict_id.0 as int) < vm0.hlen(),
                vm0.heap.entries@[dict_id.0 as int] is Dict,
                es0 == vm0.heap.entries@[dict_id.0 as int]->Dict_0.entries@,
                self.stack@ == stack1,
                self.meta_stack@ == meta1,
                self.interns == vm0.interns,
                self.hlen() == vm0.hlen(),
                keys_framed(vm0, *self),
                slot_updated(vm0.heap.entries@, self.heap.entries@, dict_id.0 as int),
                self.heap.entries@[dict_id.0 as int] is Dict,
                kwargs_merge(vm0, es0, src, 0) == kwargs_merge(vm0, self.heap.entries@[dict_id.0 as int]->Dict_0.entries@, src, k as int),
            decreases src.len() - k,
        {
            let e = copied[k];
            let ghost cur = *self;
            let ghost cur_es = self.heap.entries@[dict_id.0 as int]->Dict_0.entries@;
            proof {
                assert(e == src[k as int]);
                assert(crate::heap::value_ok(src[k as int].key, vm0.hlen(), vm0.ilen()));
                lemma_keys_framed(vm0, cur, e.key);
                lemma_keys_framed(vm0, cur, e.value);
                lemma_keys_framed_symm(vm0, cur);
                assert(data_ok(self.heap.entries@[dict_id.0 as int], self.hlen(), self.ilen()));
                lemma_find_entry_framed(cur, vm0, cur_es, e.key, 0);
            }
            let key_text = match self.text_of(&e.key) {
                Some(t) => t.clone(),
                None => {
                    return Err(new_type_error(ErrorKind::KwargsNonStringKey));
                },
            };
            match self.dict_set_with_meta(dict_id, e.key, e.key_meta, e.value, e.value_meta) {
                Err(err) => {
                    return Err(err);
                },
                Ok(Some(_)) => {
                    return Err(new_type_error(ErrorKind::MultipleValues { func: func_name, key: key_text }));
                },
                Ok(None) => {},
            }
            proof {
                lemma_keys_framed_trans(vm0, cur, *self);
            }
            k = k + 1;
        }
        self.push(dict_ref);
        Ok(())
    }
}

/// The result of reading a slice bound.
pub type BoundResult = Result<Option<i64>, RunError>;

/// Reads a slice bound: `None`, an integer, or a boolean as 0 or 1; anything else raises
/// `TypeError`.
pub fn value_to_option_i64(v: &Value) -> (r: BoundResult)
    ensures
        slice_bound(*v) matches Some(b) ==> r == BoundResult::Ok(b),
        slice_bound(*v) is None ==> r == BoundResult::Err(type_error(ErrorKind::SliceIndices)),
{
    match v {
        Value::NoneValue => Ok(None),
        Value::Int(n) => Ok(Some(*n)),
        Value::Bool(b) => Ok(Some(if *b { 1 } else { 0 })),
        _ => Err(new_type_error(ErrorKind::SliceIndices)),
    }
}

/// The result of reading the items of an iterable: the items and their metadata.
pub type ItemsResult = Result<(Vec<Value>, Vec<MetadataId>), RunError>;

/// Extracts the items and their metadata from an iterable value.
///
/// Container elements carry their stored metadata. String characters and dict keys (dict
/// iteration yields the keys) inherit the iterable's own metadata `iter_meta`, since they
/// have no provenance of their own. An iterator gives what it has left, with the metadata
/// it took from its source for characters and keys, and is moved to its end. A
/// non-iterable raises the `TypeError` that `on_error` selects.
pub fn extract_items_with_meta(iterable: &Value, iter_meta: MetadataId, vm: &mut VM, on_error: IterError) -> (r: ItemsResult)
    requires
        old(vm).wf(),
        value_ok(*iterable, old(vm).hlen(), old(vm).ilen()),
    ensures
        final(vm).wf(),
        final(vm).stack == old(vm).stack,
        final(vm).meta_stack == old(vm).meta_stack,
        final(vm).interns == old(vm).interns,
        final(vm).pending_arg_metadata == old(vm).pending_arg_metadata,
        final(vm).pending_result_metadata == old(vm).pending_result_metadata,
        ({
            let src = iterate_source(*old(vm), *iterable);
            if let ItemSource::NotIterable(t) = src {
                &&& r == ItemsResult::Err(iter_error(on_error, t))
                &&& final(vm).heap == old(vm).heap
            } else {
                &&& r matches Ok(pair) && pair.0@ == source_items(src, old(vm).hlen()) && pair.1@
                    == source_metas(src, iterate_meta(*old(vm), *iterable, iter_meta)) && values_ok(
                    pair.0@,
                    final(vm).hlen(),
                    final(vm).ilen(),
                ) && pair.0@.len() == pair.1@.len()
                &&& heap_grown(iterated_heap(*old(vm), *iterable), final(vm).heap.entries@, src, -1)
            }
        }),
{
    let mut iter_slot: Option<(HeapId, PyIter)> = None;
    if let Value::Ref(id) = iterable {
        if let HeapData::Iter(it) = &vm.heap.entries[id.0] {
            iter_slot = Some((*id, *it));
        }
    }
    match iter_slot {
        Some((id, it)) => {
            proof {
                assert(data_ok(vm.heap.entries@[id.0 as int], vm.hlen(), vm.ilen()));
            }
            let src = vm.read_rest(&it);
            let n: usize = match &src {
                SourceData::Items(vs, _) => vs.len(),
                SourceData::Keys(vs) => vs.len(),
                SourceData::Chars(cs) => cs.len(),
                SourceData::NotIterable(_) => 0,
            };
            vm.put_slot(
                id,
                HeapData::Iter(PyIter { source: it.source, source_meta: it.source_meta, index: it.index + n }),
            );
            Ok(vm.materialize(src, it.source_meta))
        },
        None => {
            let src = vm.read_source(iterable, true);
            if let SourceData::NotIterable(t) = src {
                let kind = match on_error {
                    IterError::ValueAfterStar => ErrorKind::ValueAfterStar(t),
                    IterError::NotIterable => ErrorKind::NotIterable(t),
                };
                return Err(new_type_error(kind));
            }
            Ok(vm.materialize(src, iter_meta))
        },
    }
}

} // verus!

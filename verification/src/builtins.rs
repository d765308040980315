//! The builtin functions `all()`, `enumerate()` and `next()`.
use vstd::prelude::*;
use vstd::slice::slice_to_vec;
use crate::metadata::MetadataId;
use crate::value::{Value, Type, HeapId};
use crate::heap::{HeapData, Tuple, List, PyIter, value_ok, values_ok, data_ok};
use crate::vm::{VM, char_string, lemma_dicts_distinct_same};
use crate::iter::{
    IterStep, iter_step, iter_of, iter_rest, iter_moved, iter_slot_moved, lemma_iter_source_moved,
    iterate_source,
};
use crate::args::ArgValues;
use crate::collections::{
    ItemSource, SourceData, iter_source, source_items, source_metas, source_len, heap_grown,
};
use crate::exceptions::{RunError, ErrorKind, ExcType, SimpleException, type_error, new_type_error};

verus! {

/// The result of a builtin call.
pub type BuiltinResult = Result<Value, RunError>;

/// Python's truth value of `v`: `None`, `False`, zero and empty strings and containers are
/// false, everything else is true.
pub open spec fn truthy(vm: VM, v: Value) -> bool {
    match v {
        Value::NoneValue => false,
        Value::Bool(b) => b,
        Value::Int(n) => n != 0,
        Value::InternString(s) => vm.interns.strings@[s.0 as int]@.len() > 0,
        Value::Builtin(_) => true,
        Value::Ref(id) => match vm.heap.entries@[id.0 as int] {
            HeapData::List(l) => l.items@.len() > 0,
            HeapData::Tuple(t) => t.items@.len() > 0,
            HeapData::Dict(d) => d.entries@.len() > 0,
            HeapData::PySet(s) => s.items@.len() > 0,
            HeapData::Str(s) => s@.len() > 0,
            HeapData::Slice(_) => true,
            HeapData::Module(_) => true,
            HeapData::Iter(_) => true,
        },
    }
}

/// The metadata of the first argument of the current builtin call, or the default.
pub open spec fn first_arg_meta(vm: VM) -> MetadataId {
    if vm.pending_arg_metadata@.len() > 0 {
        vm.pending_arg_metadata@[0]
    } else {
        MetadataId(0)
    }
}

/// The metadata of the second argument of the current builtin call, or the default.
pub open spec fn second_arg_meta(vm: VM) -> MetadataId {
    if vm.pending_arg_metadata@.len() > 1 {
        vm.pending_arg_metadata@[1]
    } else {
        MetadataId(0)
    }
}

/// The `StopIteration` that `next()` raises on an exhausted iterator.
pub open spec fn stop_iteration() -> RunError {
    RunError::Exception(SimpleException { exc_type: ExcType::StopIteration, kind: ErrorKind::StopIteration })
}

impl VM {
    /// Python's truth value of `v`.
    pub fn py_bool(&self, v: &Value) -> (b: bool)
        requires
            value_ok(*v, self.hlen(), self.ilen()),
        ensures
            b == truthy(*self, *v),
    {
        match v {
            Value::NoneValue => false,
            Value::Bool(b) => *b,
            Value::Int(n) => *n != 0,
            Value::InternString(s) => self.interns.get_str(*s).unicode_len() > 0,
            Value::Builtin(_) => true,
            Value::Ref(id) => match &self.heap.entries[id.0] {
                HeapData::List(l) => l.items.len() > 0,
                HeapData::Tuple(t) => t.items.len() > 0,
                HeapData::Dict(d) => d.entries.len() > 0,
                HeapData::PySet(s) => s.items.len() > 0,
                HeapData::Str(s) => s.as_str().unicode_len() > 0,
                HeapData::Slice(_) => true,
                HeapData::Module(_) => true,
                HeapData::Iter(_) => true,
            },
        }
    }

    /// The metadata of the first argument of the current builtin call, or the default.
    fn first_arg_metadata(&self) -> (m: MetadataId)
        ensures
            m == first_arg_meta(*self),
    {
        if self.pending_arg_metadata.len() > 0 {
            self.pending_arg_metadata[0]
        } else {
            MetadataId(0)
        }
    }
}

/// Whether the `k`-th item of `src` is true; a character of a string always is.
pub open spec fn item_truthy(vm: VM, src: ItemSource, k: int) -> bool {
    match src {
        ItemSource::Items(vs, _) => truthy(vm, vs[k]),
        ItemSource::Keys(vs) => truthy(vm, vs[k]),
        _ => true,
    }
}

/// How many items `all()` takes from `src`, from index `k` on: up to and including the
/// first false one, or all of them.
pub open spec fn all_taken(vm: VM, src: ItemSource, k: int) -> int
    decreases source_len(src) - k,
{
    if k < 0 || k >= source_len(src) {
        source_len(src)
    } else if !item_truthy(vm, src, k) {
        k + 1
    } else {
        all_taken(vm, src, k + 1)
    }
}

/// The effect of `all()` on the iterator `it` that `v` refers to, with result `r`: the
/// iterator moves past the items taken, up to and including the first false one, and the
/// answer is whether all the items it had left are true.
pub open spec fn all_of_iterator_effect(old: VM, new: VM, v: Value, it: PyIter, r: BuiltinResult) -> bool {
    let src = iter_rest(old, it);
    &&& new.heap.entries@ == old.heap.entries@.update(v->Ref_0.0 as int, iter_moved(it, all_taken(old, src, 0)))
    &&& r == BuiltinResult::Ok(
        Value::Bool(forall|k: int| 0 <= k < source_len(src) ==> #[trigger] item_truthy(old, src, k)),
    )
}

/// When every item from `k` on is true, `all()` takes them all.
proof fn lemma_all_taken_true(vm: VM, src: ItemSource, k: int)
    requires
        0 <= k <= source_len(src),
        forall|j: int| k <= j < source_len(src) ==> #[trigger] item_truthy(vm, src, j),
    ensures
        all_taken(vm, src, k) == source_len(src),
    decreases source_len(src) - k,
{
    if k < source_len(src) {
        lemma_all_taken_true(vm, src, k + 1);
    }
}

/// When the items from `k` to `t` are true and item `t` is false, `all()` takes up to `t`.
pub proof fn lemma_all_taken_false(vm: VM, src: ItemSource, k: int, t: int)
    requires
        0 <= k <= t < source_len(src),
        forall|j: int| k <= j < t ==> #[trigger] item_truthy(vm, src, j),
        !item_truthy(vm, src, t),
    ensures
        all_taken(vm, src, k) == t + 1,
    decreases t - k,
{
    if k < t {
        lemma_all_taken_false(vm, src, k + 1, t);
    }
}

/// Moving an iterator changes no value's truth.
proof fn lemma_truthy_moved(a: VM, b: VM, id: int, v: Value)
    requires
        iter_slot_moved(a, b, id),
        value_ok(v, a.hlen(), a.ilen()),
    ensures
        truthy(a, v) == truthy(b, v),
{
    if let Value::Ref(h) = v {
        if h.0 as int != id {
            assert(b.heap.entries@[h.0 as int] == a.heap.entries@[h.0 as int]);
        }
    }
}

/// `all()` of the iterator `it` in slot `id`: takes its items up to and including the
/// first false one, moving it past them.
#[verifier::loop_isolation(false)]
fn all_of_iterator(vm: &mut VM, id: HeapId, it: PyIter) -> (r: BuiltinResult)
    requires
        old(vm).wf(),
        (id.0 as int) < old(vm).hlen(),
        old(vm).heap.entries@[id.0 as int] == HeapData::Iter(it),
    ensures
        final(vm).wf(),
        final(vm).stack == old(vm).stack,
        final(vm).meta_stack == old(vm).meta_stack,
        final(vm).interns == old(vm).interns,
        final(vm).heap.entries@ == old(vm).heap.entries@.update(
            id.0 as int,
            iter_moved(it, all_taken(*old(vm), iter_rest(*old(vm), it), 0)),
        ),
        r == BuiltinResult::Ok(
            Value::Bool(
                forall|k: int|
                    0 <= k < source_len(iter_rest(*old(vm), it)) ==> #[trigger] item_truthy(
                        *old(vm),
                        iter_rest(*old(vm), it),
                        k,
                    ),
            ),
        ),
{
    let ghost vm0 = *vm;
    let ghost src = iter_rest(*vm, it);
    let ghost n = source_len(src);
    let ghost slot = id.0 as int;
    proof {
        assert(data_ok(vm.heap.entries@[slot], vm.hlen(), vm.ilen()));
        assert(vm0.heap.entries@.update(slot, HeapData::Iter(it)) =~= vm0.heap.entries@);
    }
    let mut cur = PyIter { source: it.source, source_meta: it.source_meta, index: it.index };
    let ghost mut t: int = 0;
    loop
        invariant
            vm.wf(),
            vm.stack == vm0.stack,
            vm.meta_stack == vm0.meta_stack,
            vm.interns == vm0.interns,
            vm.pending_arg_metadata == vm0.pending_arg_metadata,
            vm.pending_result_metadata == vm0.pending_result_metadata,
            value_ok(it.source, vm0.hlen(), vm0.ilen()),
            cur.source == it.source,
            cur.source_meta == it.source_meta,
            cur.index == it.index + t,
            0 <= t <= n,
            vm.heap.entries@ == vm0.heap.entries@.update(slot, HeapData::Iter(cur)),
            forall|j: int| 0 <= j < t ==> #[trigger] item_truthy(vm0, src, j),
        decreases n - t,
    {
        proof {
            assert(iter_slot_moved(vm0, *vm, slot));
            lemma_iter_source_moved(vm0, *vm, slot, it.source);
        }
        let step = vm.peek_iter(&cur);
        match step {
            IterStep::Exhausted => {
                proof {
                    assert(t == n);
                    lemma_all_taken_true(vm0, src, 0);
                    assert(HeapData::Iter(cur) == iter_moved(it, t));
                }
                return Ok(Value::Bool(true));
            },
            IterStep::Item(x, _) => {
                let next = PyIter { source: cur.source, source_meta: cur.source_meta, index: cur.index + 1 };
                vm.put_slot(id, HeapData::Iter(next));
                cur = next;
                proof {
                    t = t + 1;
                    assert(vm.heap.entries@ =~= vm0.heap.entries@.update(slot, HeapData::Iter(cur)));
                    assert(iter_slot_moved(vm0, *vm, slot));
                    assert(value_ok(x, vm0.hlen(), vm0.ilen()));
                    lemma_truthy_moved(vm0, *vm, slot, x);
                }
                if !vm.py_bool(&x) {
                    proof {
                        assert(!item_truthy(vm0, src, t - 1));
                        lemma_all_taken_false(vm0, src, 0, t - 1);
                        assert(HeapData::Iter(cur) == iter_moved(it, t));
                    }
                    return Ok(Value::Bool(false));
                }
                proof {
                    assert(item_truthy(vm0, src, t - 1));
                }
            },
            IterStep::Char(_) => {
                let next = PyIter { source: cur.source, source_meta: cur.source_meta, index: cur.index + 1 };
                vm.put_slot(id, HeapData::Iter(next));
                cur = next;
                proof {
                    t = t + 1;
                    assert(vm.heap.entries@ =~= vm0.heap.entries@.update(slot, HeapData::Iter(cur)));
                    assert(item_truthy(vm0, src, t - 1));
                }
            },
        }
    }
}

/// The effect of `all()` called with the positional arguments `args`, with result `r`.
pub open spec fn all_answered(old: VM, new: VM, args: Seq<Value>, r: BuiltinResult) -> bool {
    &&& args.len() != 1 ==> (r matches Err(RunError::Exception(e)) && e.exc_type == ExcType::TypeError
        && e.kind is ExactlyOneArgument && e.kind->ExactlyOneArgument_func@ == "all"@) && new.heap == old.heap
    &&& args.len() == 1 ==> ({
        let v = args[0];
        match iter_of(old, v) {
            Some(it) => all_of_iterator_effect(old, new, v, it, r),
            None => {
                let src = iter_source(old, v);
                if let ItemSource::NotIterable(t) = src {
                    &&& r == BuiltinResult::Err(type_error(ErrorKind::NotIterable(t)))
                    &&& new.heap == old.heap
                } else {
                    let items = source_items(src, old.hlen());
                    &&& heap_grown(old.heap.entries@, new.heap.entries@, src, -1)
                    &&& r == BuiltinResult::Ok(
                        Value::Bool(forall|k: int| 0 <= k < items.len() ==> truthy(new, #[trigger] items[k])),
                    )
                }
            },
        }
    })
}

/// `all(iterable)`: whether every item of the iterable is true (`True` for an empty one).
///
/// An iterator is read from its position and moved past every item taken, up to and
/// including the first false one. Raises `TypeError` unless exactly one argument is given,
/// and for a non-iterable.
#[verifier::loop_isolation(false)]
pub fn builtin_all(vm: &mut VM, args: ArgValues) -> (r: BuiltinResult)
    requires
        old(vm).wf(),
        values_ok(args.positional@, old(vm).hlen(), old(vm).ilen()),
    ensures
        final(vm).wf(),
        final(vm).stack == old(vm).stack,
        final(vm).meta_stack == old(vm).meta_stack,
        final(vm).interns == old(vm).interns,
        all_answered(*old(vm), *final(vm), args.positional@, r),
{
    let container_meta = vm.first_arg_metadata();
    let iterable = match args.get_one_arg("all") {
        Ok(v) => v,
        Err(e) => {
            return Err(e);
        },
    };
    if let Value::Ref(id) = iterable {
        if let HeapData::Iter(it) = &vm.heap.entries[id.0] {
            let it = *it;
            return all_of_iterator(vm, id, it);
        }
    }
    let ghost items_spec = source_items(iter_source(*vm, iterable), vm.hlen());
    let (items, _metas) = match crate::collections::extract_items_with_meta(
        &iterable,
        container_meta,
        vm,
        crate::collections::IterError::NotIterable,
    ) {
        Ok(pair) => pair,
        Err(e) => {
            return Err(e);
        },
    };
    let mut k: usize = 0;
    while k < items.len()
        invariant
            vm.wf(),
            k <= items@.len(),
            values_ok(items@, vm.hlen(), vm.ilen()),
            forall|j: int| 0 <= j < k ==> truthy(*vm, #[trigger] items@[j]),
        decreases items@.len() - k,
    {
        assert(value_ok(items@[k as int], vm.hlen(), vm.ilen()));
        if !vm.py_bool(&items[k]) {
            return Ok(Value::Bool(false));
        }
        k = k + 1;
    }
    Ok(Value::Bool(true))
}

/// The start index of `enumerate()`: absent means 0, a boolean counts as 0 or 1; any other
/// value is not an integer.
pub open spec fn enumerate_start(start: Option<Value>) -> Option<int> {
    match start {
        None => Some(0),
        Some(Value::Int(n)) => Some(n as int),
        Some(Value::Bool(b)) => Some(if b { 1 } else { 0 }),
        _ => None,
    }
}

/// The last index `enumerate()` counts to fits in an `i64`.
pub open spec fn enumerate_fits(vm: VM, args: Seq<Value>) -> bool {
    let start = if args.len() == 2 { Some(args[1]) } else { None };
    (args.len() == 1 || args.len() == 2) ==> match enumerate_start(start) {
        Some(s) => s + source_len(iterate_source(vm, args[0])) <= i64::MAX,
        None => true,
    }
}

/// The list that `enumerate()` builds, as `r`, on top of the heap `h0`, from the items of
/// `src` (characters and dict keys carrying `m`), counting from `s`: the characters become
/// new strings, then comes one `(index, item)` tuple per item, each item with its metadata
/// and the index with the default one, then the list of the tuples.
pub open spec fn enumerated(h0: Seq<HeapData>, h: Seq<HeapData>, src: ItemSource, m: MetadataId, s: int, r: BuiltinResult) -> bool {
    let items = source_items(src, h0.len() as int);
    let metas = source_metas(src, m);
    let n = items.len() as int;
    let tb = h0.len() + (if src is Chars { n } else { 0 });
    &&& h.len() == tb + n + 1
    &&& heap_grown(h0, h.subrange(0, tb), src, -1)
    &&& forall|k: int|
        0 <= k < n ==> #[trigger] h[tb + k] is Tuple && h[tb + k]->Tuple_0.items@ == seq![
            Value::Int((s + k) as i64),
            items[k],
        ] && h[tb + k]->Tuple_0.meta@ == seq![MetadataId(0), metas[k]]
    &&& h[tb + n] is List
    &&& h[tb + n]->List_0.items@ == Seq::new(n as nat, |k: int| Value::Ref(HeapId((tb + k) as usize)))
    &&& h[tb + n]->List_0.meta@ == Seq::new(n as nat, |k: int| MetadataId(0))
    &&& r == BuiltinResult::Ok(Value::Ref(HeapId((tb + n) as usize)))
}

/// `enumerate(iterable, start=0)`: a list of `(index, item)` tuples.
///
/// Each tuple's item keeps the metadata it had in the iterable, so that a loop unpacking
/// `for i, r in enumerate(items)` gives `r` its original metadata; the index carries the
/// default metadata. An iterator is read from its position to its end and moved to its
/// end. Raises `TypeError` for a wrong number of arguments, for a non-iterable, and for a
/// start that is not an integer, in that order.
pub fn builtin_enumerate(vm: &mut VM, args: ArgValues) -> (r: BuiltinResult)
    requires
        old(vm).wf(),
        values_ok(args.positional@, old(vm).hlen(), old(vm).ilen()),
        enumerate_fits(*old(vm), args.positional@),
    ensures
        final(vm).wf(),
        final(vm).stack == old(vm).stack,
        final(vm).meta_stack == old(vm).meta_stack,
        final(vm).interns == old(vm).interns,
        (args.positional@.len() == 0 || args.positional@.len() > 2) ==> (r matches Err(
            RunError::Exception(e),
        ) && e.exc_type == ExcType::TypeError && e.kind is OneOrTwoArguments
            && e.kind->OneOrTwoArguments_func@ == "enumerate"@) && final(vm).heap == old(vm).heap,
        (args.positional@.len() == 1 || args.positional@.len() == 2) ==> ({
            let v = args.positional@[0];
            let src = iterate_source(*old(vm), v);
            let start = if args.positional@.len() == 2 {
                Some(args.positional@[1])
            } else {
                None
            };
            if let ItemSource::NotIterable(t) = src {
                &&& r == BuiltinResult::Err(type_error(ErrorKind::NotIterable(t)))
                &&& final(vm).heap == old(vm).heap
            } else if enumerate_start(start) is None {
                &&& r == BuiltinResult::Err(
                    type_error(ErrorKind::NotAnInteger(old(vm).type_of(start->0))),
                )
                &&& final(vm).heap == old(vm).heap
            } else {
                let s = enumerate_start(start)->0;
                match iter_of(*old(vm), v) {
                    Some(it) => enumerated(
                        old(vm).heap.entries@.update(v->Ref_0.0 as int, iter_moved(it, source_len(src))),
                        final(vm).heap.entries@,
                        src,
                        it.source_meta,
                        s,
                        r,
                    ),
                    None => enumerated(
                        old(vm).heap.entries@,
                        final(vm).heap.entries@,
                        src,
                        first_arg_meta(*old(vm)),
                        s,
                        r,
                    ),
                }
            }
        }),
{
    let container_meta = vm.first_arg_metadata();
    let ghost vm0 = *vm;
    let (iterable, start) = match args.get_one_two_args("enumerate") {
        Ok(pair) => pair,
        Err(e) => {
            return Err(e);
        },
    };
    let mut iter_slot: Option<(HeapId, PyIter)> = None;
    if let Value::Ref(id) = iterable {
        if let HeapData::Iter(it) = &vm.heap.entries[id.0] {
            iter_slot = Some((id, *it));
        }
    }
    let src = match iter_slot {
        Some((_, it)) => {
            proof {
                assert(data_ok(vm.heap.entries@[iterable->Ref_0.0 as int], vm.hlen(), vm.ilen()));
            }
            vm.read_rest(&it)
        },
        None => vm.read_source(&iterable, true),
    };
    if let SourceData::NotIterable(t) = src {
        return Err(new_type_error(ErrorKind::NotIterable(t)));
    }
    let mut index: i64 = match start {
        Some(Value::Int(n)) => n,
        Some(Value::Bool(b)) => if b {
            1
        } else {
            0
        },
        Some(v) => {
            let t = vm.py_type(&v);
            return Err(new_type_error(ErrorKind::NotAnInteger(t)));
        },
        None => 0,
    };
    let ghost s = index as int;
    let ghost srcv = src.view();
    let n_src: usize = match &src {
        SourceData::Items(vs, _) => vs.len(),
        SourceData::Keys(vs) => vs.len(),
        SourceData::Chars(cs) => cs.len(),
        SourceData::NotIterable(_) => 0,
    };
    let meta = match iter_slot {
        Some((id, it)) => {
            proof {
                assert(data_ok(vm.heap.entries@[id.0 as int], vm.hlen(), vm.ilen()));
                assert(it.index as int + n_src <= usize::MAX);
            }
            vm.put_slot(
                id,
                HeapData::Iter(PyIter { source: it.source, source_meta: it.source_meta, index: it.index + n_src }),
            );
            it.source_meta
        },
        None => container_meta,
    };
    let ghost h0 = vm.heap.entries@;
    let (items, metas) = vm.materialize(src, meta);
    let ghost h1 = vm.heap.entries@;
    let mut result: Vec<Value> = Vec::new();
    let mut k: usize = 0;
    while k < items.len()
        invariant
            vm.wf(),
            k <= items@.len(),
            items@.len() == metas@.len(),
            s + items@.len() <= i64::MAX,
            index == s + k,
            vm.stack == vm0.stack,
            vm.meta_stack == vm0.meta_stack,
            vm.interns == vm0.interns,
            values_ok(items@, h1.len() as int, vm.ilen()),
            vm.heap.entries@.len() == h1.len() + k,
            vm.heap.entries@.subrange(0, h1.len() as int) == h1,
            result@.len() == k,
            forall|j: int| 0 <= j < k ==> #[trigger] result@[j] == Value::Ref(HeapId((h1.len() + j) as usize)),
            forall|j: int|
                0 <= j < k ==> #[trigger] vm.heap.entries@[h1.len() + j] is Tuple && vm.heap.entries@[h1.len() + j]->Tuple_0.items@
                    == seq![Value::Int((s + j) as i64), items@[j]] && vm.heap.entries@[h1.len() + j]->Tuple_0.meta@
                    == seq![MetadataId(0), metas@[j]],
        decreases items@.len() - k,
    {
        let ghost hk = vm.heap.entries@;
        let mut t_items: Vec<Value> = Vec::new();
        t_items.push(Value::Int(index));
        t_items.push(items[k]);
        let mut t_meta: Vec<MetadataId> = Vec::new();
        t_meta.push(MetadataId(0));
        t_meta.push(metas[k]);
        proof {
            assert(value_ok(items@[k as int], h1.len() as int, vm.ilen()));
            assert(t_items@ =~= seq![Value::Int(index), items@[k as int]]);
            assert(t_meta@ =~= seq![MetadataId(0), metas@[k as int]]);
            assert(values_ok(t_items@, vm.hlen() + 1, vm.ilen()));
        }
        let tid = vm.allocate(HeapData::Tuple(Tuple { items: t_items, meta: t_meta }));
        result.push(Value::Ref(tid));
        index = index + 1;
        k = k + 1;
        proof {
            assert(vm.heap.entries@.subrange(0, h1.len() as int) =~= hk.subrange(0, h1.len() as int));
            assert forall|j: int|
                0 <= j < k implies #[trigger] vm.heap.entries@[h1.len() + j] is Tuple && vm.heap.entries@[h1.len() + j]->Tuple_0.items@
                    == seq![Value::Int((s + j) as i64), items@[j]] && vm.heap.entries@[h1.len() + j]->Tuple_0.meta@
                    == seq![MetadataId(0), metas@[j]] by {
                if j < k - 1 {
                    assert(vm.heap.entries@[h1.len() + j] == hk[h1.len() + j]);
                }
            }
        }
    }
    let mut lmeta: Vec<MetadataId> = Vec::new();
    let mut j: usize = 0;
    while j < result.len()
        invariant
            j <= result@.len(),
            lmeta@ == Seq::new(j as nat, |i: int| MetadataId(0)),
        decreases result@.len() - j,
    {
        lmeta.push(MetadataId(0));
        j = j + 1;
        proof {
            assert(lmeta@ =~= Seq::new(j as nat, |i: int| MetadataId(0)));
        }
    }
    proof {
        assert forall|i: int| 0 <= i < result@.len() implies value_ok(#[trigger] result@[i], vm.hlen() + 1, vm.ilen()) by {}
    }
    let lid = vm.allocate(HeapData::List(List { items: result, meta: lmeta }));
    proof {
        let h = vm.heap.entries@;
        let n = items@.len() as int;
        assert(result@ =~= Seq::new(n as nat, |i: int| Value::Ref(HeapId((h1.len() + i) as usize))));
        assert(h.subrange(0, h1.len() as int) =~= h1);
        assert forall|i: int| 0 <= i < h1.len() implies #[trigger] h.subrange(0, h1.len() as int)[i] == h1[i] by {}
        assert forall|i: int|
            0 <= i < n implies #[trigger] h[h1.len() + i] is Tuple && h[h1.len() + i]->Tuple_0.items@
                == seq![Value::Int((s + i) as i64), items@[i]] && h[h1.len() + i]->Tuple_0.meta@
                == seq![MetadataId(0), metas@[i]] by {
            assert(h[h1.len() + i] == vm.heap.entries@[h1.len() + i]);
        }
        if let Some((id, it)) = iter_slot {
            assert(h0 =~= vm0.heap.entries@.update(id.0 as int, iter_moved(it, source_len(srcv))));
        } else {
            assert(h0 == vm0.heap.entries@);
        }
    }
    Ok(Value::Ref(lid))
}

/// The effect of `next()` on one or two arguments `args`, with result `r`: a first
/// argument that is not an iterator raises `TypeError`; an iterator gives the item at its
/// position with that item's metadata and moves one step (a character of a string becomes
/// a new string; characters and dict keys carry the iterator's source metadata); an exhausted iterator gives the second
/// argument, with its own metadata, or raises `StopIteration`.
pub open spec fn next_taken(old: VM, new: VM, args: Seq<Value>, r: BuiltinResult) -> bool {
    let v = args[0];
    let h0 = old.heap.entries@;
    let h = new.heap.entries@;
    match iter_of(old, v) {
        None => {
            &&& r == BuiltinResult::Err(type_error(ErrorKind::NotAnIterator(old.type_of(v))))
            &&& new.heap == old.heap
            &&& new.pending_result_metadata == old.pending_result_metadata
        },
        Some(it) => {
            let id = v->Ref_0.0 as int;
            let moved = h0.update(
                id,
                HeapData::Iter(
                    PyIter { source: it.source, source_meta: it.source_meta, index: (it.index + 1) as usize },
                ),
            );
            match iter_step(old, it) {
                IterStep::Item(x, m) => {
                    &&& r == BuiltinResult::Ok(x)
                    &&& h == moved
                    &&& new.pending_result_metadata == m
                },
                IterStep::Char(c) => {
                    &&& r == BuiltinResult::Ok(Value::Ref(HeapId(h0.len() as usize)))
                    &&& h.len() == h0.len() + 1
                    &&& h.subrange(0, h0.len() as int) == moved
                    &&& h.last() is Str && h.last()->Str_0@ == seq![c]
                    &&& new.pending_result_metadata == it.source_meta
                },
                IterStep::Exhausted => {
                    &&& new.heap == old.heap
                    &&& if args.len() == 2 {
                        &&& r == BuiltinResult::Ok(args[1])
                        &&& new.pending_result_metadata == second_arg_meta(old)
                    } else {
                        &&& r == BuiltinResult::Err(stop_iteration())
                        &&& new.pending_result_metadata == old.pending_result_metadata
                    }
                },
            }
        },
    }
}

/// `next(iterator[, default])`: the next item of the iterator, which moves past it.
///
/// The item's metadata becomes the metadata of the call's result: an element's own, or,
/// for a character of a string or a key of a dict, the metadata the iterator took from
/// the string or dict. An exhausted iterator gives the default,
/// with the default's own metadata, or raises `StopIteration` when there is none. Raises
/// `TypeError` for a wrong number of arguments and for a value that is not an iterator.
pub fn builtin_next(vm: &mut VM, args: ArgValues) -> (r: BuiltinResult)
    requires
        old(vm).wf(),
        values_ok(args.positional@, old(vm).hlen(), old(vm).ilen()),
    ensures
        final(vm).wf(),
        final(vm).stack == old(vm).stack,
        final(vm).meta_stack == old(vm).meta_stack,
        final(vm).interns == old(vm).interns,
        final(vm).pending_arg_metadata == old(vm).pending_arg_metadata,
        r matches Ok(v) ==> value_ok(v, final(vm).hlen(), final(vm).ilen()),
        (args.positional@.len() == 0 || args.positional@.len() > 2) ==> (r matches Err(
            RunError::Exception(e),
        ) && e.exc_type == ExcType::TypeError && e.kind is OneOrTwoArguments
            && e.kind->OneOrTwoArguments_func@ == "next"@
            && e.kind->OneOrTwoArguments_given == args.positional@.len())
            && final(vm).heap == old(vm).heap
            && final(vm).pending_result_metadata == old(vm).pending_result_metadata,
        (args.positional@.len() == 1 || args.positional@.len() == 2) ==> next_taken(*old(vm), *final(vm), args.positional@, r),
{
    let (iterator, default) = match args.get_one_two_args("next") {
        Ok(pair) => pair,
        Err(e) => {
            return Err(e);
        },
    };
    let id = match iterator {
        Value::Ref(id) => id,
        _ => {
            let t = vm.py_type(&iterator);
            return Err(new_type_error(ErrorKind::NotAnIterator(t)));
        },
    };
    let it = match &vm.heap.entries[id.0] {
        HeapData::Iter(it) => PyIter { source: it.source, source_meta: it.source_meta, index: it.index },
        _ => {
            let t = vm.py_type(&iterator);
            return Err(new_type_error(ErrorKind::NotAnIterator(t)));
        },
    };
    proof {
        assert(data_ok(vm.heap.entries@[id.0 as int], vm.hlen(), vm.ilen()));
    }
    match vm.peek_iter(&it) {
        IterStep::Item(x, m) => {
            vm.put_slot(id, HeapData::Iter(PyIter { source: it.source, source_meta: it.source_meta, index: it.index + 1 }));
            let ghost before = *vm;
            vm.pending_result_metadata = m;
            proof {
                lemma_dicts_distinct_same(before, *vm);
            }
            Ok(x)
        },
        IterStep::Char(c) => {
            vm.put_slot(id, HeapData::Iter(PyIter { source: it.source, source_meta: it.source_meta, index: it.index + 1 }));
            let ghost h1 = vm.heap.entries@;
            let sid = vm.allocate(HeapData::Str(char_string(c)));
            proof {
                assert(vm.heap.entries@.subrange(0, h1.len() as int) =~= h1);
            }
            let ghost before = *vm;
            vm.pending_result_metadata = it.source_meta;
            proof {
                lemma_dicts_distinct_same(before, *vm);
            }
            Ok(Value::Ref(sid))
        },
        IterStep::Exhausted => match default {
            Some(d) => {
                let ghost before = *vm;
                vm.pending_result_metadata = if vm.pending_arg_metadata.len() > 1 {
                    vm.pending_arg_metadata[1]
                } else {
                    MetadataId(0)
                };
                proof {
                    lemma_dicts_distinct_same(before, *vm);
                }
                Ok(d)
            },
            None => Err(
                RunError::Exception(
                    SimpleException { exc_type: ExcType::StopIteration, kind: ErrorKind::StopIteration },
                ),
            ),
        },
    }
}

} // verus!

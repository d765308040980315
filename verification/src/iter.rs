//! Iterators: the `GET_ITER` instruction makes one over an iterable, and each step reads the
//! iterable afresh at the iterator's position.
use vstd::prelude::*;
use crate::metadata::MetadataId;
use crate::value::{Value, HeapId};
use crate::heap::{HeapData, PyIter, value_ok, data_ok};
use crate::vm::{VM, slot_updated};
use crate::collections::{ItemSource, SourceData, iter_source, entry_keys, source_len};
use crate::heap::values_ok;
use crate::exceptions::{RunResult, ErrorKind, type_error, new_type_error};

verus! {

/// One step of an iterator.
pub enum IterStep {
    /// The next item is an existing value, with its metadata.
    Item(Value, MetadataId),
    /// The next item is this character of a string; it becomes a new single-character string.
    Char(char),
    /// Nothing is left.
    Exhausted,
}

/// What the iterator `it` yields next in `vm`: the item of its source at its position.
pub open spec fn iter_step(vm: VM, it: PyIter) -> IterStep {
    let k = it.index as int;
    match iter_source(vm, it.source) {
        ItemSource::Items(vs, ms) => if k < vs.len() {
            IterStep::Item(vs[k], ms[k])
        } else {
            IterStep::Exhausted
        },
        ItemSource::Keys(vs) => if k < vs.len() {
            IterStep::Item(vs[k], it.source_meta)
        } else {
            IterStep::Exhausted
        },
        ItemSource::Chars(cs) => if k < cs.len() {
            IterStep::Char(cs[k])
        } else {
            IterStep::Exhausted
        },
        ItemSource::NotIterable(_) => IterStep::Exhausted,
    }
}

/// The items the iterator `it` has left: those of its source from its position on.
pub open spec fn iter_rest(vm: VM, it: PyIter) -> ItemSource {
    let k = it.index as int;
    match iter_source(vm, it.source) {
        ItemSource::Items(vs, ms) => if k <= vs.len() {
            ItemSource::Items(vs.skip(k), ms.skip(k))
        } else {
            ItemSource::Items(Seq::empty(), Seq::empty())
        },
        ItemSource::Keys(vs) => if k <= vs.len() {
            ItemSource::Keys(vs.skip(k))
        } else {
            ItemSource::Keys(Seq::empty())
        },
        ItemSource::Chars(cs) => if k <= cs.len() {
            ItemSource::Chars(cs.skip(k))
        } else {
            ItemSource::Chars(Seq::empty())
        },
        ItemSource::NotIterable(_) => ItemSource::Items(Seq::empty(), Seq::empty()),
    }
}

/// What iterating `v` reads: what an iterator has left, or the items of an iterable.
pub open spec fn iterate_source(vm: VM, v: Value) -> ItemSource {
    match iter_of(vm, v) {
        Some(it) => iter_rest(vm, it),
        None => iter_source(vm, v),
    }
}

/// The metadata that the characters and dict keys read by iterating `v` carry: the
/// metadata an iterator took from its source, or `m`, that of `v` itself.
pub open spec fn iterate_meta(vm: VM, v: Value, m: MetadataId) -> MetadataId {
    match iter_of(vm, v) {
        Some(it) => it.source_meta,
        None => m,
    }
}

/// The heap after iterating `v` to its end: an iterator is moved past all it had left;
/// anything else is left as it is.
pub open spec fn iterated_heap(vm: VM, v: Value) -> Seq<HeapData> {
    match iter_of(vm, v) {
        Some(it) => vm.heap.entries@.update(v->Ref_0.0 as int, iter_moved(it, source_len(iter_rest(vm, it)))),
        None => vm.heap.entries@,
    }
}

/// The iterator `it` moved `n` steps on.
pub open spec fn iter_moved(it: PyIter, n: int) -> HeapData {
    HeapData::Iter(PyIter { source: it.source, source_meta: it.source_meta, index: (it.index + n) as usize })
}

/// `new` is `old` with only the iterator in slot `id` moved.
pub open spec fn iter_slot_moved(old: VM, new: VM, id: int) -> bool {
    &&& new.interns == old.interns
    &&& slot_updated(old.heap.entries@, new.heap.entries@, id)
    &&& 0 <= id < old.hlen()
    &&& old.heap.entries@[id] is Iter
    &&& new.heap.entries@[id] is Iter
}

/// Moving an iterator changes no other value's iteration source.
pub proof fn lemma_iter_source_moved(a: VM, b: VM, id: int, v: Value)
    requires
        iter_slot_moved(a, b, id),
        value_ok(v, a.hlen(), a.ilen()),
    ensures
        iter_source(a, v) == iter_source(b, v),
        a.type_of(v) == b.type_of(v),
{
    if let Value::Ref(h) = v {
        if h.0 as int != id {
            assert(b.heap.entries@[h.0 as int] == a.heap.entries@[h.0 as int]);
        }
    }
}

/// Reads the values of `v` from index `k` on.
fn skip_values(v: &Vec<Value>, k: usize) -> (r: Vec<Value>)
    requires
        k <= v@.len(),
    ensures
        r@ == v@.skip(k as int),
{
    let mut r: Vec<Value> = Vec::new();
    let mut i: usize = k;
    while i < v.len()
        invariant
            k <= i <= v@.len(),
            r@ == v@.subrange(k as int, i as int),
        decreases v@.len() - i,
    {
        r.push(v[i]);
        i = i + 1;
        proof {
            assert(r@ =~= v@.subrange(k as int, i as int));
        }
    }
    proof {
        assert(r@ =~= v@.skip(k as int));
    }
    r
}

/// Reads the metadata of `v` from index `k` on.
fn skip_metas(v: &Vec<MetadataId>, k: usize) -> (r: Vec<MetadataId>)
    requires
        k <= v@.len(),
    ensures
        r@ == v@.skip(k as int),
{
    let mut r: Vec<MetadataId> = Vec::new();
    let mut i: usize = k;
    while i < v.len()
        invariant
            k <= i <= v@.len(),
            r@ == v@.subrange(k as int, i as int),
        decreases v@.len() - i,
    {
        r.push(v[i]);
        i = i + 1;
        proof {
            assert(r@ =~= v@.subrange(k as int, i as int));
        }
    }
    proof {
        assert(r@ =~= v@.skip(k as int));
    }
    r
}

/// Reads the characters of `v` from index `k` on.
fn skip_chars(v: &Vec<char>, k: usize) -> (r: Vec<char>)
    requires
        k <= v@.len(),
    ensures
        r@ == v@.skip(k as int),
{
    let mut r: Vec<char> = Vec::new();
    let mut i: usize = k;
    while i < v.len()
        invariant
            k <= i <= v@.len(),
            r@ == v@.subrange(k as int, i as int),
        decreases v@.len() - i,
    {
        r.push(v[i]);
        i = i + 1;
        proof {
            assert(r@ =~= v@.subrange(k as int, i as int));
        }
    }
    proof {
        assert(r@ =~= v@.skip(k as int));
    }
    r
}

/// The iterator that `v` refers to, if it refers to one.
pub open spec fn iter_of(vm: VM, v: Value) -> Option<PyIter> {
    match v {
        Value::Ref(id) => match vm.heap.entries@[id.0 as int] {
            HeapData::Iter(it) => Some(it),
            _ => None,
        },
        _ => None,
    }
}

/// The effect of `GET_ITER`, with result `r`: an iterator on top of the stack stays; an
/// iterable is replaced by a new iterator over it at position 0, which takes the iterable's
/// metadata; any other value is popped and raises.
pub open spec fn iter_made(old: VM, new: VM, r: RunResult) -> bool {
    let v = old.stack@.last();
    let m = old.meta_stack@.last();
    let base = old.stack@.drop_last();
    let mbase = old.meta_stack@.drop_last();
    if iter_of(old, v) is Some {
        &&& r is Ok
        &&& new.stack@ == old.stack@
        &&& new.meta_stack@ == old.meta_stack@
        &&& new.heap == old.heap
    } else if let ItemSource::NotIterable(t) = iter_source(old, v) {
        &&& r == RunResult::Err(type_error(ErrorKind::NotIterable(t)))
        &&& new.stack@ == base
        &&& new.meta_stack@ == mbase
        &&& new.heap == old.heap
    } else {
        &&& r is Ok
        &&& new.heap.entries@ == old.heap.entries@.push(
            HeapData::Iter(PyIter { source: v, source_meta: m, index: 0 }),
        )
        &&& new.stack@ == base.push(Value::Ref(HeapId(old.hlen() as usize)))
        &&& new.meta_stack@ == mbase.push(m)
    }
}

impl VM {
    /// What the iterator `it` yields next, without moving it.
    pub(crate) fn peek_iter(&self, it: &PyIter) -> (s: IterStep)
        requires
            self.wf(),
            value_ok(it.source, self.hlen(), self.ilen()),
        ensures
            s == iter_step(*self, *it),
            s matches IterStep::Item(v, _) ==> value_ok(v, self.hlen(), self.ilen()),
            !(s is Exhausted) ==> (it.index as int) < usize::MAX,
    {
        let k = it.index;
        match &it.source {
            Value::InternString(sid) => {
                let s = self.interns.get_str(*sid);
                if k < s.unicode_len() {
                    IterStep::Char(s.get_char(k))
                } else {
                    IterStep::Exhausted
                }
            },
            Value::Ref(id) => {
                proof {
                    assert(data_ok(self.heap.entries@[id.0 as int], self.hlen(), self.ilen()));
                }
                match &self.heap.entries[id.0] {
                    HeapData::List(l) => if k < l.items.len() {
                        IterStep::Item(l.items[k], l.meta[k])
                    } else {
                        IterStep::Exhausted
                    },
                    HeapData::Tuple(t) => if k < t.items.len() {
                        IterStep::Item(t.items[k], t.meta[k])
                    } else {
                        IterStep::Exhausted
                    },
                    HeapData::PySet(s) => if k < s.items.len() {
                        IterStep::Item(s.items[k], s.meta[k])
                    } else {
                        IterStep::Exhausted
                    },
                    HeapData::Dict(d) => if k < d.entries.len() {
                        let e = d.entries[k];
                        proof {
                            assert(entry_keys(d.entries@)[k as int] == e.key);
                        }
                        IterStep::Item(e.key, it.source_meta)
                    } else {
                        IterStep::Exhausted
                    },
                    HeapData::Str(s) => {
                        let s = s.as_str();
                        if k < s.unicode_len() {
                            IterStep::Char(s.get_char(k))
                        } else {
                            IterStep::Exhausted
                        }
                    },
                    _ => IterStep::Exhausted,
                }
            },
            _ => IterStep::Exhausted,
        }
    }

    /// Reads the items the iterator `it` has left, without moving it or allocating.
    pub(crate) fn read_rest(&self, it: &PyIter) -> (r: SourceData)
        requires
            self.wf(),
            value_ok(it.source, self.hlen(), self.ilen()),
        ensures
            r.view() == iter_rest(*self, *it),
            it.index as int + source_len(r.view()) <= usize::MAX,
            r matches SourceData::Items(vs, ms) ==> values_ok(vs@, self.hlen(), self.ilen())
                && vs@.len() == ms@.len(),
            r matches SourceData::Keys(vs) ==> values_ok(vs@, self.hlen(), self.ilen()),
    {
        let k = it.index;
        match self.read_source(&it.source, true) {
            SourceData::Items(vs, ms) => if k <= vs.len() {
                let r = SourceData::Items(skip_values(&vs, k), skip_metas(&ms, k));
                proof {
                    assert forall|j: int| 0 <= j < vs@.len() - k implies value_ok(
                        #[trigger] vs@.skip(k as int)[j],
                        self.hlen(),
                        self.ilen(),
                    ) by {
                        assert(vs@.skip(k as int)[j] == vs@[j + k]);
                    }
                }
                r
            } else {
                SourceData::Items(Vec::new(), Vec::new())
            },
            SourceData::Keys(vs) => if k <= vs.len() {
                let r = SourceData::Keys(skip_values(&vs, k));
                proof {
                    assert forall|j: int| 0 <= j < vs@.len() - k implies value_ok(
                        #[trigger] vs@.skip(k as int)[j],
                        self.hlen(),
                        self.ilen(),
                    ) by {
                        assert(vs@.skip(k as int)[j] == vs@[j + k]);
                    }
                }
                r
            } else {
                SourceData::Keys(Vec::new())
            },
            SourceData::Chars(cs) => if k <= cs.len() {
                SourceData::Chars(skip_chars(&cs, k))
            } else {
                SourceData::Chars(Vec::new())
            },
            SourceData::NotIterable(_) => SourceData::Items(Vec::new(), Vec::new()),
        }
    }

    /// `GET_ITER`: replaces the iterable on top of the stack by an iterator over it, which
    /// takes the iterable's metadata; an iterator stays as it is.
    ///
    /// Raises `TypeError: '{type}' object is not iterable` for any other value, which is
    /// then popped.
    pub fn get_iter(&mut self) -> (r: RunResult)
        requires
            old(self).wf(),
            old(self).stack@.len() >= 1,
        ensures
            final(self).wf(),
            final(self).interns == old(self).interns,
            final(self).pending_arg_metadata == old(self).pending_arg_metadata,
            final(self).pending_result_metadata == old(self).pending_result_metadata,
            iter_made(*old(self), *final(self), r),
    {
        let (v, m) = self.pop_with_meta();
        if let Value::Ref(id) = v {
            if let HeapData::Iter(_) = &self.heap.entries[id.0] {
                self.push_with_meta(v, m);
                proof {
                    assert(self.stack@ =~= old(self).stack@);
                    assert(self.meta_stack@ =~= old(self).meta_stack@);
                }
                return Ok(());
            }
        }
        let iterable = match &v {
            Value::InternString(_) => true,
            Value::Ref(id) => match &self.heap.entries[id.0] {
                HeapData::List(_) => true,
                HeapData::Tuple(_) => true,
                HeapData::PySet(_) => true,
                HeapData::Dict(_) => true,
                HeapData::Str(_) => true,
                _ => false,
            },
            _ => false,
        };
        if !iterable {
            let t = self.py_type(&v);
            return Err(new_type_error(ErrorKind::NotIterable(t)));
        }
        let id = self.allocate(HeapData::Iter(PyIter { source: v, source_meta: m, index: 0 }));
        self.push_with_meta(Value::Ref(id), m);
        Ok(())
    }
}

} // verus!

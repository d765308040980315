//! The virtual machine's state: the operand stack with its parallel metadata stack, the
//! heap and the interned strings, with the primitive operations the bytecode handlers use.
use vstd::prelude::*;
use crate::metadata::MetadataId;
use crate::value::{Value, Type, HeapId, StringId, Builtins};
use crate::heap::{
    Heap, HeapData, Interns, Dict, DictEntry, PySet, Slice, value_ok, values_ok, data_ok, heap_ok,
    data_type, entries_ok, lemma_heap_push, lemma_heap_update, lemma_data_ok_grow,
};
use crate::exceptions::{RunError, RunResult, ErrorKind, type_error, new_type_error};



verus! {

/// The result of setting a dict entry: the value the key had, if any.
pub type DictSetResult = Result<Option<Value>, RunError>;

/// A dict key or set element as Python compares it: `True == 1`, and strings compare by
/// their text whether interned or on the heap.
pub enum KeyView {
    NoneKey,
    IntKey(int),
    StrKey(Seq<char>),
    BuiltinKey(Builtins),
    /// A value of a type that cannot be hashed.
    Unhashable(Type),
}

/// The virtual machine.
///
/// Every value on the operand stack has its metadata at the same height of `meta_stack`.
pub struct VM {
    /// The operand stack.
    pub stack: Vec<Value>,
    /// The metadata of each value of the operand stack.
    pub meta_stack: Vec<MetadataId>,
    /// The heap.
    pub heap: Heap,
    /// The interned strings.
    pub interns: Interns,
    /// The metadata of the arguments of the builtin call being made.
    pub pending_arg_metadata: Vec<MetadataId>,
    /// The metadata that the builtin call being made gives its result.
    pub pending_result_metadata: MetadataId,
}

/// `new` is `old` with slot `id` replaced and every other slot kept.
pub open spec fn slot_updated(old: Seq<HeapData>, new: Seq<HeapData>, id: int) -> bool {
    &&& new.len() == old.len()
    &&& forall|i: int| 0 <= i < old.len() && i != id ==> new[i] == old[i]
}

/// The first index at or after `start` of an element of `vs` with the key of `key`.
pub open spec fn find_value(vm: VM, vs: Seq<Value>, key: Value, start: int) -> Option<int>
    decreases vs.len() - start,
{
    if start < 0 || start >= vs.len() {
        None
    } else if vm.key_view(vs[start]) == vm.key_view(key) {
        Some(start)
    } else {
        find_value(vm, vs, key, start + 1)
    }
}

/// The first index at or after `start` of an entry of `es` whose key has the key of `key`.
pub open spec fn find_entry(vm: VM, es: Seq<DictEntry>, key: Value, start: int) -> Option<int>
    decreases es.len() - start,
{
    if start < 0 || start >= es.len() {
        None
    } else if vm.key_view(es[start].key) == vm.key_view(key) {
        Some(start)
    } else {
        find_entry(vm, es, key, start + 1)
    }
}

/// What `find_entry` finds is an entry with an equal key, the first one from `start`.
pub proof fn lemma_find_entry(vm: VM, es: Seq<DictEntry>, key: Value, start: int)
    requires
        0 <= start,
    ensures
        find_entry(vm, es, key, start) matches Some(j) ==> start <= j < es.len() && vm.key_view(
            es[j].key,
        ) == vm.key_view(key) && forall|i: int| start <= i < j ==> vm.key_view(#[trigger] es[i].key) != vm.key_view(key),
        find_entry(vm, es, key, start) is None ==> forall|i: int|
            start <= i < es.len() ==> vm.key_view(#[trigger] es[i].key) != vm.key_view(key),
    decreases es.len() - start,
{
    if start < es.len() && vm.key_view(es[start].key) != vm.key_view(key) {
        lemma_find_entry(vm, es, key, start + 1);
    }
}

/// What `find_value` finds is an element with an equal key, the first one from `start`.
pub proof fn lemma_find_value(vm: VM, vs: Seq<Value>, key: Value, start: int)
    requires
        0 <= start,
    ensures
        find_value(vm, vs, key, start) matches Some(j) ==> start <= j < vs.len() && vm.key_view(vs[j])
            == vm.key_view(key) && forall|i: int| start <= i < j ==> vm.key_view(#[trigger] vs[i]) != vm.key_view(key),
        find_value(vm, vs, key, start) is None ==> forall|i: int|
            start <= i < vs.len() ==> vm.key_view(#[trigger] vs[i]) != vm.key_view(key),
    decreases vs.len() - start,
{
    if start < vs.len() && vm.key_view(vs[start]) != vm.key_view(key) {
        lemma_find_value(vm, vs, key, start + 1);
    }
}

/// `new` is `old` followed by one single-character string per character of `cs`, and `vs`
/// refers to those strings in order.
pub open spec fn chars_allocated(old: Seq<HeapData>, new: Seq<HeapData>, cs: Seq<char>, vs: Seq<Value>) -> bool {
    &&& new.len() == old.len() + cs.len()
    &&& new.subrange(0, old.len() as int) == old
    &&& vs.len() == cs.len()
    &&& forall|k: int|
        0 <= k < cs.len() ==> #[trigger] vs[k] == Value::Ref(HeapId((old.len() + k) as usize))
            && new[old.len() + k] is Str && new[old.len() + k]->Str_0@ == seq![cs[k]]
}

/// `char::to_string`: a string holding just `c`.
#[verifier::external_body]
pub(crate) fn char_string(c: char) -> (s: String)
    ensures
        s@ == seq![c],
{
    c.to_string()
}

/// The characters of `s`, in order.
pub fn string_chars(s: &str) -> (cs: Vec<char>)
    ensures
        cs@ == s@,
{
    let n = s.unicode_len();
    let mut cs: Vec<char> = Vec::new();
    let mut i: usize = 0;
    while i < n
        invariant
            n == s@.len(),
            i <= n,
            cs@ == s@.subrange(0, i as int),
        decreases n - i,
    {
        cs.push(s.get_char(i));
        i = i + 1;
        proof {
            assert(cs@ =~= s@.subrange(0, i as int));
        }
    }
    proof {
        assert(s@.subrange(0, n as int) =~= s@);
    }
    cs
}

/// `b` keeps the interned strings and every string slot of `a`, and the type of every other
/// slot of `a`: every value of `a` is then the same key, of the same type, in `b`.
pub open spec fn keys_framed(a: VM, b: VM) -> bool {
    &&& a.interns == b.interns
    &&& a.hlen() <= b.hlen()
    &&& forall|i: int|
        0 <= i < a.hlen() ==> (#[trigger] a.heap.entries@[i] is Str ==> b.heap.entries@[i]
            == a.heap.entries@[i]) && (b.heap.entries@[i] is Str ==> a.heap.entries@[i] is Str)
            && data_type(b.heap.entries@[i]) == data_type(a.heap.entries@[i])
}

/// Framed VMs see every value of the first as the same key and type.
pub proof fn lemma_keys_framed(a: VM, b: VM, v: Value)
    requires
        keys_framed(a, b),
        value_ok(v, a.hlen(), a.ilen()),
    ensures
        a.key_view(v) == b.key_view(v),
        a.type_of(v) == b.type_of(v),
        value_ok(v, b.hlen(), b.ilen()),
{
    if let Value::Ref(id) = v {
        assert(a.heap.entries@[id.0 as int] is Str ==> b.heap.entries@[id.0 as int] == a.heap.entries@[id.0 as int]);
    }
}

/// Framing is transitive.
pub proof fn lemma_keys_framed_trans(a: VM, b: VM, c: VM)
    requires
        keys_framed(a, b),
        keys_framed(b, c),
    ensures
        keys_framed(a, c),
{
    assert forall|i: int| 0 <= i < a.hlen() implies (#[trigger] a.heap.entries@[i] is Str ==> c.heap.entries@[i]
        == a.heap.entries@[i]) && (c.heap.entries@[i] is Str ==> a.heap.entries@[i] is Str)
        && data_type(c.heap.entries@[i]) == data_type(a.heap.entries@[i]) by {
        assert(b.heap.entries@[i] is Str ==> c.heap.entries@[i] == b.heap.entries@[i]);
    }
}

/// Framing between heaps of the same size goes both ways.
pub proof fn lemma_keys_framed_symm(a: VM, b: VM)
    requires
        keys_framed(a, b),
        a.hlen() == b.hlen(),
    ensures
        keys_framed(b, a),
{
    assert forall|i: int| 0 <= i < b.hlen() implies (#[trigger] b.heap.entries@[i] is Str ==> a.heap.entries@[i]
        == b.heap.entries@[i]) && (a.heap.entries@[i] is Str ==> b.heap.entries@[i] is Str)
        && data_type(a.heap.entries@[i]) == data_type(b.heap.entries@[i]) by {
        assert(a.heap.entries@[i] is Str ==> b.heap.entries@[i] == a.heap.entries@[i]);
    }
}

/// Framed VMs find the same first equal element in values of the first.
pub proof fn lemma_find_value_framed(a: VM, b: VM, vs: Seq<Value>, key: Value, start: int)
    requires
        keys_framed(a, b),
        values_ok(vs, a.hlen(), a.ilen()),
        value_ok(key, a.hlen(), a.ilen()),
    ensures
        find_value(a, vs, key, start) == find_value(b, vs, key, start),
    decreases vs.len() - start,
{
    lemma_keys_framed(a, b, key);
    if 0 <= start < vs.len() {
        lemma_keys_framed(a, b, vs[start]);
        lemma_find_value_framed(a, b, vs, key, start + 1);
    }
}

/// Framed VMs find the same first entry with an equal key in entries of the first.
pub proof fn lemma_find_entry_framed(a: VM, b: VM, es: Seq<DictEntry>, key: Value, start: int)
    requires
        keys_framed(a, b),
        entries_ok(es, a.hlen(), a.ilen()),
        value_ok(key, a.hlen(), a.ilen()),
    ensures
        find_entry(a, es, key, start) == find_entry(b, es, key, start),
    decreases es.len() - start,
{
    lemma_keys_framed(a, b, key);
    if 0 <= start < es.len() {
        lemma_keys_framed(a, b, es[start].key);
        lemma_find_entry_framed(a, b, es, key, start + 1);
    }
}

/// The entries of a dict after setting `key` to `value`: an entry with an equal key keeps
/// its key and the key's metadata and takes the new value; otherwise a new entry is
/// appended.
pub open spec fn dict_set_spec(
    vm: VM,
    es: Seq<DictEntry>,
    key: Value,
    key_meta: MetadataId,
    value: Value,
    value_meta: MetadataId,
) -> Seq<DictEntry> {
    match find_entry(vm, es, key, 0) {
        Some(j) => es.update(
            j,
            DictEntry { key: es[j].key, key_meta: es[j].key_meta, value, value_meta },
        ),
        None => es.push(DictEntry { key, key_meta, value, value_meta }),
    }
}

/// The keys of `es` can all be hashed and are pairwise different as keys.
pub open spec fn keys_distinct(vm: VM, es: Seq<DictEntry>) -> bool {
    &&& forall|a: int| 0 <= a < es.len() ==> !(#[trigger] vm.key_view(es[a].key) is Unhashable)
    &&& forall|a: int, b: int|
        0 <= a < b < es.len() ==> #[trigger] vm.key_view(es[a].key) != #[trigger] vm.key_view(es[b].key)
}

/// Every dict on the heap has hashable keys, no two of them equal.
pub open spec fn dicts_distinct(vm: VM) -> bool {
    forall|i: int|
        0 <= i < vm.hlen() && (#[trigger] vm.heap.entries@[i]) is Dict ==> keys_distinct(
            vm,
            vm.heap.entries@[i]->Dict_0.entries@,
        )
}

/// `b` keeps the interned strings and every string slot of `a`.
pub open spec fn strings_kept(a: VM, b: VM) -> bool {
    &&& b.interns == a.interns
    &&& a.hlen() <= b.hlen()
    &&& forall|i: int| 0 <= i < a.hlen() && (#[trigger] a.heap.entries@[i]) is Str ==> b.heap.entries@[i] == a.heap.entries@[i]
}

/// A hashable value is the same key in a VM that keeps the strings.
pub proof fn lemma_key_view_kept(a: VM, b: VM, v: Value)
    requires
        strings_kept(a, b),
        value_ok(v, a.hlen(), a.ilen()),
        !(a.key_view(v) is Unhashable),
    ensures
        b.key_view(v) == a.key_view(v),
        !(b.key_view(v) is Unhashable),
{
    if let Value::Ref(id) = v {
        assert(a.heap.entries@[id.0 as int] is Str);
    }
}

/// Distinct hashable keys stay so in a VM that keeps the strings.
pub proof fn lemma_keys_distinct_kept(a: VM, b: VM, es: Seq<DictEntry>)
    requires
        strings_kept(a, b),
        entries_ok(es, a.hlen(), a.ilen()),
        keys_distinct(a, es),
    ensures
        keys_distinct(b, es),
{
    assert forall|x: int| 0 <= x < es.len() implies b.key_view(es[x].key) == a.key_view(es[x].key)
        && !(b.key_view(es[x].key) is Unhashable) by {
        assert(!(a.key_view(es[x].key) is Unhashable));
        lemma_key_view_kept(a, b, es[x].key);
    }
    assert forall|x: int, y: int| 0 <= x < y < es.len() implies #[trigger] b.key_view(es[x].key) != #[trigger] b.key_view(
        es[y].key,
    ) by {
        assert(a.key_view(es[x].key) != a.key_view(es[y].key));
    }
}

/// A VM that keeps the strings of a well-formed one, and whose every dict either held its
/// entries in the first or has distinct keys there, has distinct dict keys.
pub proof fn lemma_dicts_distinct_kept(a: VM, b: VM)
    requires
        a.wf(),
        strings_kept(a, b),
        forall|i: int|
            0 <= i < b.hlen() && (#[trigger] b.heap.entries@[i]) is Dict ==> entries_ok(
                b.heap.entries@[i]->Dict_0.entries@,
                a.hlen(),
                a.ilen(),
            ) && keys_distinct(a, b.heap.entries@[i]->Dict_0.entries@),
    ensures
        dicts_distinct(b),
{
    assert forall|i: int| 0 <= i < b.hlen() && (#[trigger] b.heap.entries@[i]) is Dict implies keys_distinct(
        b,
        b.heap.entries@[i]->Dict_0.entries@,
    ) by {
        lemma_keys_distinct_kept(a, b, b.heap.entries@[i]->Dict_0.entries@);
    }
}

/// Dict keys stay distinct in a VM with the same heap and interned strings.
pub proof fn lemma_dicts_distinct_same(a: VM, b: VM)
    requires
        dicts_distinct(a),
        b.heap == a.heap,
        b.interns == a.interns,
    ensures
        dicts_distinct(b),
{
    assert forall|v: Value| #[trigger] b.key_view(v) == a.key_view(v) by {}
}

/// The heap of `b` is that of `a` with slot `id`, which held no string, replaced by `d`,
/// and dict keys stay distinct there when `d` is not a dict or has distinct keys.
pub proof fn lemma_dicts_distinct_slot(a: VM, b: VM, id: int, d: HeapData)
    requires
        a.wf(),
        0 <= id < a.hlen(),
        !(a.heap.entries@[id] is Str),
        b.heap.entries@ == a.heap.entries@.update(id, d),
        b.interns == a.interns,
        d is Dict ==> entries_ok(d->Dict_0.entries@, a.hlen(), a.ilen()) && keys_distinct(a, d->Dict_0.entries@),
    ensures
        dicts_distinct(b),
{
    assert forall|i: int|
        0 <= i < b.hlen() && (#[trigger] b.heap.entries@[i]) is Dict implies entries_ok(
            b.heap.entries@[i]->Dict_0.entries@,
            a.hlen(),
            a.ilen(),
        ) && keys_distinct(a, b.heap.entries@[i]->Dict_0.entries@) by {
        if i != id {
            assert(b.heap.entries@[i] == a.heap.entries@[i]);
            assert(data_ok(a.heap.entries@[i], a.hlen(), a.ilen()));
        }
    }
    lemma_dicts_distinct_kept(a, b);
}

/// Setting a hashable key in entries with distinct keys keeps them distinct.
pub proof fn lemma_dict_set_distinct(
    vm: VM,
    es: Seq<DictEntry>,
    key: Value,
    key_meta: MetadataId,
    value: Value,
    value_meta: MetadataId,
)
    requires
        keys_distinct(vm, es),
        !(vm.key_view(key) is Unhashable),
    ensures
        keys_distinct(vm, dict_set_spec(vm, es, key, key_meta, value, value_meta)),
{
    lemma_find_entry(vm, es, key, 0);
    let es2 = dict_set_spec(vm, es, key, key_meta, value, value_meta);
    match find_entry(vm, es, key, 0) {
        Some(j) => {
            assert forall|x: int| 0 <= x < es2.len() implies es2[x].key == es[x].key by {}
        },
        None => {
            assert forall|x: int| 0 <= x < es.len() implies es2[x].key == es[x].key by {}
            assert(es2[es.len() as int].key == key);
        },
    }
}

impl VM {
    /// The number of heap slots.
    pub open spec fn hlen(&self) -> int {
        self.heap.entries@.len() as int
    }

    /// The number of interned strings.
    pub open spec fn ilen(&self) -> int {
        self.interns.strings@.len() as int
    }

    /// The VM's invariant: the two stacks have the same height, and every value refers to
    /// an existing heap slot or interned string.
    pub open spec fn wf(&self) -> bool {
        &&& self.stack@.len() == self.meta_stack@.len()
        &&& heap_ok(self.heap.entries@, self.ilen())
        &&& values_ok(self.stack@, self.hlen(), self.ilen())
        &&& dicts_distinct(*self)
    }

    /// The Python type of `v`.
    pub open spec fn type_of(&self, v: Value) -> Type {
        match v {
            Value::NoneValue => Type::NoneType,
            Value::Bool(_) => Type::Bool,
            Value::Int(_) => Type::Int,
            Value::InternString(_) => Type::Str,
            Value::Builtin(_) => Type::Type,
            Value::Ref(id) => data_type(self.heap.entries@[id.0 as int]),
        }
    }

    /// `v` as a dict key or set element.
    pub open spec fn key_view(&self, v: Value) -> KeyView {
        match v {
            Value::NoneValue => KeyView::NoneKey,
            Value::Bool(b) => KeyView::IntKey(
                if b {
                    1
                } else {
                    0
                },
            ),
            Value::Int(n) => KeyView::IntKey(n as int),
            Value::InternString(s) => KeyView::StrKey(self.interns.strings@[s.0 as int]@),
            Value::Builtin(b) => KeyView::BuiltinKey(b),
            Value::Ref(id) => match self.heap.entries@[id.0 as int] {
                HeapData::Str(s) => KeyView::StrKey(s@),
                d => KeyView::Unhashable(data_type(d)),
            },
        }
    }

    /// The text of `v` when it is a string.
    pub open spec fn text_view(&self, v: Value) -> Option<Seq<char>> {
        match self.key_view(v) {
            KeyView::StrKey(s) => Some(s),
            _ => None,
        }
    }

    /// An empty VM over the given interned strings.
    pub fn new(interns: Vec<String>) -> (vm: Self)
        ensures
            vm.wf(),
            vm.stack@.len() == 0,
            vm.heap.entries@.len() == 0,
            vm.interns.strings@ == interns@,
    {
        VM {
            stack: Vec::new(),
            meta_stack: Vec::new(),
            heap: Heap { entries: Vec::new() },
            interns: Interns { strings: interns },
            pending_arg_metadata: Vec::new(),
            pending_result_metadata: MetadataId(0),
        }
    }

    /// Pushes `v` with metadata `m`.
    pub fn push_with_meta(&mut self, v: Value, m: MetadataId)
        requires
            old(self).wf(),
            value_ok(v, old(self).hlen(), old(self).ilen()),
        ensures
            final(self).wf(),
            final(self).stack@ == old(self).stack@.push(v),
            final(self).meta_stack@ == old(self).meta_stack@.push(m),
            final(self).heap == old(self).heap,
            final(self).interns == old(self).interns,
            final(self).pending_arg_metadata == old(self).pending_arg_metadata,
            final(self).pending_result_metadata == old(self).pending_result_metadata,
    {
        self.stack.push(v);
        self.meta_stack.push(m);
        proof {
            assert forall|k: int| 0 <= k < self.stack@.len() implies value_ok(
                #[trigger] self.stack@[k],
                self.hlen(),
                self.ilen(),
            ) by {
                if k < self.stack@.len() - 1 {
                    assert(self.stack@[k] == old(self).stack@[k]);
                }
            }
        }
        proof {
            lemma_dicts_distinct_same(*old(self), *self);
        }
    }

    /// Pushes `v` with the default metadata.
    pub fn push(&mut self, v: Value)
        requires
            old(self).wf(),
            value_ok(v, old(self).hlen(), old(self).ilen()),
        ensures
            final(self).wf(),
            final(self).stack@ == old(self).stack@.push(v),
            final(self).meta_stack@ == old(self).meta_stack@.push(MetadataId(0)),
            final(self).heap == old(self).heap,
            final(self).interns == old(self).interns,
            final(self).pending_arg_metadata == old(self).pending_arg_metadata,
            final(self).pending_result_metadata == old(self).pending_result_metadata,
    {
        self.push_with_meta(v, MetadataId(0));
    }

    /// Pops the top value with its metadata.
    pub fn pop_with_meta(&mut self) -> (r: (Value, MetadataId))
        requires
            old(self).wf(),
            old(self).stack@.len() >= 1,
        ensures
            final(self).wf(),
            r.0 == old(self).stack@.last(),
            r.1 == old(self).meta_stack@.last(),
            value_ok(r.0, final(self).hlen(), final(self).ilen()),
            final(self).stack@ == old(self).stack@.drop_last(),
            final(self).meta_stack@ == old(self).meta_stack@.drop_last(),
            final(self).heap == old(self).heap,
            final(self).interns == old(self).interns,
            final(self).pending_arg_metadata == old(self).pending_arg_metadata,
            final(self).pending_result_metadata == old(self).pending_result_metadata,
    {
        let v = self.stack.pop().unwrap();
        let m = self.meta_stack.pop().unwrap();
        proof {
            assert(value_ok(old(self).stack@[old(self).stack@.len() - 1], self.hlen(), self.ilen()));
            assert forall|k: int| 0 <= k < self.stack@.len() implies value_ok(
                #[trigger] self.stack@[k],
                self.hlen(),
                self.ilen(),
            ) by {
                assert(self.stack@[k] == old(self).stack@[k]);
            }
        }
        proof {
            lemma_dicts_distinct_same(*old(self), *self);
        }
        (v, m)
    }

    /// Pops the top value, dropping its metadata.
    pub fn pop(&mut self) -> (v: Value)
        requires
            old(self).wf(),
            old(self).stack@.len() >= 1,
        ensures
            final(self).wf(),
            v == old(self).stack@.last(),
            value_ok(v, final(self).hlen(), final(self).ilen()),
            final(self).stack@ == old(self).stack@.drop_last(),
            final(self).meta_stack@ == old(self).meta_stack@.drop_last(),
            final(self).heap == old(self).heap,
            final(self).interns == old(self).interns,
            final(self).pending_arg_metadata == old(self).pending_arg_metadata,
            final(self).pending_result_metadata == old(self).pending_result_metadata,
    {
        let (v, _m) = self.pop_with_meta();
        v
    }

    /// Pops the top `n` values with their metadata, in stack order (deepest first).
    pub fn pop_n_with_meta(&mut self, n: usize) -> (r: (Vec<Value>, Vec<MetadataId>))
        requires
            old(self).wf(),
            n <= old(self).stack@.len(),
        ensures
            final(self).wf(),
            final(self).stack@ == old(self).stack@.subrange(0, old(self).stack@.len() - n),
            final(self).meta_stack@ == old(self).meta_stack@.subrange(
                0,
                old(self).meta_stack@.len() - n,
            ),
            r.0@ == old(self).stack@.subrange(old(self).stack@.len() - n, old(self).stack@.len() as int),
            r.1@ == old(self).meta_stack@.subrange(
                old(self).meta_stack@.len() - n,
                old(self).meta_stack@.len() as int,
            ),
            values_ok(r.0@, final(self).hlen(), final(self).ilen()),
            final(self).heap == old(self).heap,
            final(self).interns == old(self).interns,
            final(self).pending_arg_metadata == old(self).pending_arg_metadata,
            final(self).pending_result_metadata == old(self).pending_result_metadata,
    {
        let at = self.stack.len() - n;
        let items = self.stack.split_off(at);
        let meta = self.meta_stack.split_off(at);
        proof {
            let s0 = old(self).stack@;
            assert forall|k: int| 0 <= k < self.stack@.len() implies value_ok(
                #[trigger] self.stack@[k],
                self.hlen(),
                self.ilen(),
            ) by {
                assert(self.stack@[k] == s0[k]);
            }
            assert forall|k: int| 0 <= k < items@.len() implies value_ok(
                #[trigger] items@[k],
                self.hlen(),
                self.ilen(),
            ) by {
                assert(items@[k] == s0[at + k]);
            }
        }
        proof {
            lemma_dicts_distinct_same(*old(self), *self);
        }
        (items, meta)
    }

    /// Stores `data` in a new heap slot.
    pub fn allocate(&mut self, data: HeapData) -> (id: HeapId)
        requires
            old(self).wf(),
            data_ok(data, old(self).hlen() + 1, old(self).ilen()),
            data is Dict ==> entries_ok(data->Dict_0.entries@, old(self).hlen(), old(self).ilen())
                && keys_distinct(*old(self), data->Dict_0.entries@),
        ensures
            final(self).wf(),
            final(self).heap.entries@ == old(self).heap.entries@.push(data),
            id.0 == old(self).hlen(),
            final(self).stack == old(self).stack,
            final(self).meta_stack == old(self).meta_stack,
            final(self).interns == old(self).interns,
            final(self).pending_arg_metadata == old(self).pending_arg_metadata,
            final(self).pending_result_metadata == old(self).pending_result_metadata,
    {
        proof {
            lemma_heap_push(self.heap.entries@, data, self.ilen());
        }
        let id = self.heap.allocate(data);
        proof {
            let a = *old(self);
            assert forall|i: int|
                0 <= i < self.hlen() && (#[trigger] self.heap.entries@[i]) is Dict implies entries_ok(
                    self.heap.entries@[i]->Dict_0.entries@,
                    a.hlen(),
                    a.ilen(),
                ) && keys_distinct(a, self.heap.entries@[i]->Dict_0.entries@) by {
                if i < a.hlen() {
                    assert(self.heap.entries@[i] == a.heap.entries@[i]);
                    assert(data_ok(a.heap.entries@[i], a.hlen(), a.ilen()));
                }
            }
            lemma_dicts_distinct_kept(a, *self);
            assert forall|k: int| 0 <= k < self.stack@.len() implies value_ok(
                #[trigger] self.stack@[k],
                self.hlen(),
                self.ilen(),
            ) by {
                assert(value_ok(old(self).stack@[k], old(self).hlen(), self.ilen()));
            }
        }
        id
    }

    /// The Python type of `v`.
    pub fn py_type(&self, v: &Value) -> (t: Type)
        requires
            value_ok(*v, self.hlen(), self.ilen()),
        ensures
            t == self.type_of(*v),
    {
        match v {
            Value::NoneValue => Type::NoneType,
            Value::Bool(_) => Type::Bool,
            Value::Int(_) => Type::Int,
            Value::InternString(_) => Type::Str,
            Value::Builtin(_) => Type::Type,
            Value::Ref(id) => match &self.heap.entries[id.0] {
                HeapData::List(_) => Type::List,
                HeapData::Tuple(_) => Type::Tuple,
                HeapData::Dict(_) => Type::Dict,
                HeapData::PySet(_) => Type::SetType,
                HeapData::Str(_) => Type::Str,
                HeapData::Slice(_) => Type::Slice,
                HeapData::Module(_) => Type::Module,
                HeapData::Iter(_) => Type::Iterator,
            },
        }
    }

    /// The text of `v` when it is a string, interned or on the heap.
    pub fn text_of(&self, v: &Value) -> (r: Option<&String>)
        requires
            value_ok(*v, self.hlen(), self.ilen()),
        ensures
            r matches Some(s) ==> self.text_view(*v) == Some(s@),
            r is None ==> self.text_view(*v) is None,
    {
        match v {
            Value::InternString(s) => Some(&self.interns.strings[s.0 as usize]),
            Value::Ref(id) => match &self.heap.entries[id.0] {
                HeapData::Str(s) => Some(s),
                _ => None,
            },
            _ => None,
        }
    }

    /// Whether `a` and `b` are equal as dict keys or set elements.
    pub fn same_key(&self, a: &Value, b: &Value) -> (r: bool)
        requires
            value_ok(*a, self.hlen(), self.ilen()),
            value_ok(*b, self.hlen(), self.ilen()),
            !(self.key_view(*a) is Unhashable),
            !(self.key_view(*b) is Unhashable),
        ensures
            r == (self.key_view(*a) == self.key_view(*b)),
    {
        match (self.text_of(a), self.text_of(b)) {
            (Some(x), Some(y)) => *x == *y,
            (Some(_), None) => false,
            (None, Some(_)) => false,
            (None, None) => match (a, b) {
                (Value::NoneValue, Value::NoneValue) => true,
                (Value::Bool(x), Value::Bool(y)) => *x == *y,
                (Value::Bool(x), Value::Int(n)) => (if *x {
                    1i64
                } else {
                    0i64
                }) == *n,
                (Value::Int(n), Value::Bool(x)) => (if *x {
                    1i64
                } else {
                    0i64
                }) == *n,
                (Value::Int(m), Value::Int(n)) => *m == *n,
                (Value::Builtin(x), Value::Builtin(y)) => *x == *y,
                _ => false,
            },
        }
    }

    /// Whether `v` can be a dict key or set element.
    pub fn is_hashable(&self, v: &Value) -> (r: bool)
        requires
            value_ok(*v, self.hlen(), self.ilen()),
        ensures
            r == !(self.key_view(*v) is Unhashable),
    {
        match v {
            Value::Ref(id) => match &self.heap.entries[id.0] {
                HeapData::Str(_) => true,
                _ => false,
            },
            _ => true,
        }
    }

    /// Takes the contents of slot `id` out of the heap, leaving an empty slice in its place.
    fn take_slot(&mut self, id: HeapId) -> (d: HeapData)
        requires
            old(self).wf(),
            (id.0 as int) < old(self).hlen(),
            !(old(self).heap.entries@[id.0 as int] is Str),
        ensures
            final(self).wf(),
            d == old(self).heap.entries@[id.0 as int],
            data_ok(d, final(self).hlen(), final(self).ilen()),
            final(self).heap.entries@ == old(self).heap.entries@.update(
                id.0 as int,
                HeapData::Slice(Slice { start: None, stop: None, step: None }),
            ),
            final(self).stack == old(self).stack,
            final(self).meta_stack == old(self).meta_stack,
            final(self).interns == old(self).interns,
            final(self).pending_arg_metadata == old(self).pending_arg_metadata,
            final(self).pending_result_metadata == old(self).pending_result_metadata,
    {
        let mut d = HeapData::Slice(Slice { start: None, stop: None, step: None });
        proof {
            assert(data_ok(d, self.hlen(), self.ilen()));
            lemma_heap_update(self.heap.entries@, id.0 as int, d, self.ilen());
            assert(data_ok(self.heap.entries@[id.0 as int], self.hlen(), self.ilen()));
        }
        self.heap.entries.set_and_swap(id.0, &mut d);
        proof {
            lemma_dicts_distinct_slot(
                *old(self),
                *self,
                id.0 as int,
                HeapData::Slice(Slice { start: None, stop: None, step: None }),
            );
        }
        d
    }

    /// Puts `d` into slot `id`.
    pub(crate) fn put_slot(&mut self, id: HeapId, d: HeapData)
        requires
            old(self).wf(),
            (id.0 as int) < old(self).hlen(),
            data_ok(d, old(self).hlen(), old(self).ilen()),
            !(old(self).heap.entries@[id.0 as int] is Str),
            d is Dict ==> entries_ok(d->Dict_0.entries@, old(self).hlen(), old(self).ilen())
                && keys_distinct(*old(self), d->Dict_0.entries@),
        ensures
            final(self).wf(),
            final(self).heap.entries@ == old(self).heap.entries@.update(id.0 as int, d),
            final(self).stack == old(self).stack,
            final(self).meta_stack == old(self).meta_stack,
            final(self).interns == old(self).interns,
            final(self).pending_arg_metadata == old(self).pending_arg_metadata,
            final(self).pending_result_metadata == old(self).pending_result_metadata,
    {
        proof {
            lemma_heap_update(self.heap.entries@, id.0 as int, d, self.ilen());
        }
        let ghost dd = d;
        self.heap.entries.set(id.0, d);
        proof {
            lemma_dicts_distinct_slot(*old(self), *self, id.0 as int, dd);
        }
    }

    /// The index of the first entry of `es` whose key equals `key`.
    fn find_entry_index(&self, es: &Vec<DictEntry>, key: &Value) -> (r: Option<usize>)
        requires
            entries_ok(es@, self.hlen(), self.ilen()),
            value_ok(*key, self.hlen(), self.ilen()),
            !(self.key_view(*key) is Unhashable),
        ensures
            r matches Some(j) ==> find_entry(*self, es@, *key, 0) == Some(j as int),
            r is None ==> find_entry(*self, es@, *key, 0) is None,
    {
        let mut i: usize = 0;
        while i < es.len()
            invariant
                i <= es@.len(),
                entries_ok(es@, self.hlen(), self.ilen()),
                value_ok(*key, self.hlen(), self.ilen()),
                !(self.key_view(*key) is Unhashable),
                find_entry(*self, es@, *key, 0) == find_entry(*self, es@, *key, i as int),
            decreases es@.len() - i,
        {
            let k = es[i].key;
            assert(value_ok(es@[i as int].key, self.hlen(), self.ilen()));
            if self.is_hashable(&k) && self.same_key(&k, key) {
                return Some(i);
            }
            i = i + 1;
        }
        None
    }

    /// The index of the first element of `vs` equal to `key`.
    fn find_value_index(&self, vs: &Vec<Value>, key: &Value) -> (r: Option<usize>)
        requires
            values_ok(vs@, self.hlen(), self.ilen()),
            value_ok(*key, self.hlen(), self.ilen()),
            !(self.key_view(*key) is Unhashable),
        ensures
            r matches Some(j) ==> find_value(*self, vs@, *key, 0) == Some(j as int),
            r is None ==> find_value(*self, vs@, *key, 0) is None,
    {
        let mut i: usize = 0;
        while i < vs.len()
            invariant
                i <= vs@.len(),
                values_ok(vs@, self.hlen(), self.ilen()),
                value_ok(*key, self.hlen(), self.ilen()),
                !(self.key_view(*key) is Unhashable),
                find_value(*self, vs@, *key, 0) == find_value(*self, vs@, *key, i as int),
            decreases vs@.len() - i,
        {
            let k = vs[i];
            assert(value_ok(vs@[i as int], self.hlen(), self.ilen()));
            if self.is_hashable(&k) && self.same_key(&k, key) {
                return Some(i);
            }
            i = i + 1;
        }
        None
    }

    /// Sets `key` to `value` in the dict at `id`, each with its metadata.
    ///
    /// Returns the value that `key` had, if it had one; an equal key already present keeps
    /// its own metadata. Raises `TypeError` for an unhashable key.
    pub fn dict_set_with_meta(
        &mut self,
        id: HeapId,
        key: Value,
        key_meta: MetadataId,
        value: Value,
        value_meta: MetadataId,
    ) -> (r: Result<Option<Value>, RunError>)
        requires
            old(self).wf(),
            (id.0 as int) < old(self).hlen(),
            old(self).heap.entries@[id.0 as int] is Dict,
            value_ok(key, old(self).hlen(), old(self).ilen()),
            value_ok(value, old(self).hlen(), old(self).ilen()),
        ensures
            final(self).wf(),
            final(self).stack == old(self).stack,
            final(self).meta_stack == old(self).meta_stack,
            final(self).interns == old(self).interns,
            final(self).pending_arg_metadata == old(self).pending_arg_metadata,
            final(self).pending_result_metadata == old(self).pending_result_metadata,
            keys_framed(*old(self), *final(self)),
            old(self).key_view(key) is Unhashable ==> r == DictSetResult::Err(
                type_error(ErrorKind::Unhashable(old(self).type_of(key))),
            ) && final(self).heap == old(self).heap,
            !(old(self).key_view(key) is Unhashable) ==> ({
                let es = old(self).heap.entries@[id.0 as int]->Dict_0.entries@;
                &&& slot_updated(old(self).heap.entries@, final(self).heap.entries@, id.0 as int)
                &&& final(self).heap.entries@[id.0 as int] is Dict
                &&& final(self).heap.entries@[id.0 as int]->Dict_0.entries@ == dict_set_spec(
                    *old(self),
                    es,
                    key,
                    key_meta,
                    value,
                    value_meta,
                )
                &&& r == DictSetResult::Ok(
                    match find_entry(*old(self), es, key, 0) {
                        Some(j) => Some(es[j].value),
                        None => None,
                    },
                )
            }),
    {
        if !self.is_hashable(&key) {
            let t = self.py_type(&key);
            return Err(new_type_error(ErrorKind::Unhashable(t)));
        }
        let found = match &self.heap.entries[id.0] {
            HeapData::Dict(d) => {
                proof {
                    assert(data_ok(self.heap.entries@[id.0 as int], self.hlen(), self.ilen()));
                }
                self.find_entry_index(&d.entries, &key)
            },
            _ => None,
        };
        let ghost vm0 = *self;
        let slot = self.take_slot(id);
        let mut d = match slot {
            HeapData::Dict(d) => d,
            _ => {
                assert(false);
                Dict { entries: Vec::new() }
            },
        };
        let ghost es = d.entries@;
        let old_value = match found {
            Some(j) => {
                proof {
                    lemma_find_entry(vm0, es, key, 0);
                }
                let e = d.entries[j];
                d.entries.set(
                    j,
                    DictEntry { key: e.key, key_meta: e.key_meta, value, value_meta },
                );
                Some(e.value)
            },
            None => {
                d.entries.push(DictEntry { key, key_meta, value, value_meta });
                None
            },
        };
        proof {
            assert(d.entries@ =~= dict_set_spec(vm0, es, key, key_meta, value, value_meta));
            assert forall|k: int| 0 <= k < d.entries@.len() implies value_ok(
                #[trigger] d.entries@[k].key,
                self.hlen(),
                self.ilen(),
            ) && value_ok(d.entries@[k].value, self.hlen(), self.ilen()) by {
                if k < es.len() {
                    assert(value_ok(es[k].key, self.hlen(), self.ilen()));
                }
            }
            assert(keys_distinct(vm0, es));
            lemma_dict_set_distinct(vm0, es, key, key_meta, value, value_meta);
            assert(strings_kept(vm0, *self));
            lemma_keys_distinct_kept(vm0, *self, d.entries@);
        }
        self.put_slot(id, HeapData::Dict(d));
        proof {
            assert(self.heap.entries@ =~= vm0.heap.entries@.update(
                id.0 as int,
                HeapData::Dict(d),
            ));
        }
        Ok(old_value)
    }

    /// Adds `item` with its metadata to the set at `id`; an equal element already present
    /// stays as it is. Raises `TypeError` for an unhashable item.
    pub fn set_add_with_meta(&mut self, id: HeapId, item: Value, meta: MetadataId) -> (r: Result<
        (),
        RunError,
    >)
        requires
            old(self).wf(),
            (id.0 as int) < old(self).hlen(),
            old(self).heap.entries@[id.0 as int] is PySet,
            value_ok(item, old(self).hlen(), old(self).ilen()),
        ensures
            final(self).wf(),
            final(self).stack == old(self).stack,
            final(self).meta_stack == old(self).meta_stack,
            final(self).interns == old(self).interns,
            final(self).pending_arg_metadata == old(self).pending_arg_metadata,
            final(self).pending_result_metadata == old(self).pending_result_metadata,
            keys_framed(*old(self), *final(self)),
            old(self).key_view(item) is Unhashable ==> r == RunResult::Err(
                type_error(ErrorKind::Unhashable(old(self).type_of(item))),
            ) && final(self).heap == old(self).heap,
            !(old(self).key_view(item) is Unhashable) ==> ({
                let s0 = old(self).heap.entries@[id.0 as int]->PySet_0;
                let s1 = final(self).heap.entries@[id.0 as int]->PySet_0;
                &&& r is Ok
                &&& slot_updated(old(self).heap.entries@, final(self).heap.entries@, id.0 as int)
                &&& final(self).heap.entries@[id.0 as int] is PySet
                &&& find_value(*old(self), s0.items@, item, 0) is Some ==> s1.items@ == s0.items@
                    && s1.meta@ == s0.meta@
                &&& find_value(*old(self), s0.items@, item, 0) is None ==> s1.items@
                    == s0.items@.push(item) && s1.meta@ == s0.meta@.push(meta)
            }),
    {
        if !self.is_hashable(&item) {
            let t = self.py_type(&item);
            return Err(new_type_error(ErrorKind::Unhashable(t)));
        }
        let found = match &self.heap.entries[id.0] {
            HeapData::PySet(set) => {
                proof {
                    assert(data_ok(self.heap.entries@[id.0 as int], self.hlen(), self.ilen()));
                }
                self.find_value_index(&set.items, &item)
            },
            _ => None,
        };
        let ghost vm0 = *self;
        let slot = self.take_slot(id);
        let mut set = match slot {
            HeapData::PySet(set) => set,
            _ => {
                assert(false);
                PySet { items: Vec::new(), meta: Vec::new() }
            },
        };
        let ghost items0 = set.items@;
        if found.is_none() {
            set.items.push(item);
            set.meta.push(meta);
        }
        proof {
            assert forall|k: int| 0 <= k < set.items@.len() implies value_ok(
                #[trigger] set.items@[k],
                self.hlen(),
                self.ilen(),
            ) by {
                if k < items0.len() {
                    assert(value_ok(items0[k], self.hlen(), self.ilen()));
                }
            }
        }
        self.put_slot(id, HeapData::PySet(set));
        proof {
            assert(self.heap.entries@ =~= vm0.heap.entries@.update(id.0 as int, HeapData::PySet(set)));
        }
        Ok(())
    }

    /// Appends `v` with its metadata to the list at `id`.
    pub fn list_append_with_meta(&mut self, id: HeapId, v: Value, meta: MetadataId)
        requires
            old(self).wf(),
            (id.0 as int) < old(self).hlen(),
            old(self).heap.entries@[id.0 as int] is List,
            value_ok(v, old(self).hlen(), old(self).ilen()),
        ensures
            final(self).wf(),
            final(self).stack == old(self).stack,
            final(self).meta_stack == old(self).meta_stack,
            final(self).interns == old(self).interns,
            final(self).pending_arg_metadata == old(self).pending_arg_metadata,
            final(self).pending_result_metadata == old(self).pending_result_metadata,
            slot_updated(old(self).heap.entries@, final(self).heap.entries@, id.0 as int),
            final(self).heap.entries@[id.0 as int] is List,
            final(self).heap.entries@[id.0 as int]->List_0.items@ == old(self).heap.entries@[id.0 as int]->List_0.items@.push(v),
            final(self).heap.entries@[id.0 as int]->List_0.meta@ == old(self).heap.entries@[id.0 as int]->List_0.meta@.push(meta),
    {
        let mut items: Vec<Value> = Vec::new();
        let mut metas: Vec<MetadataId> = Vec::new();
        items.push(v);
        metas.push(meta);
        proof {
            assert(values_ok(items@, self.hlen(), self.ilen()));
        }
        self.list_extend_with_meta(id, items, metas);
        proof {
            assert(seq![v] =~= items@);
        }
    }

    /// Appends `items` with their metadata to the list at `id`.
    pub fn list_extend_with_meta(&mut self, id: HeapId, items: Vec<Value>, metas: Vec<MetadataId>)
        requires
            old(self).wf(),
            (id.0 as int) < old(self).hlen(),
            old(self).heap.entries@[id.0 as int] is List,
            items@.len() == metas@.len(),
            values_ok(items@, old(self).hlen(), old(self).ilen()),
        ensures
            final(self).wf(),
            final(self).stack == old(self).stack,
            final(self).meta_stack == old(self).meta_stack,
            final(self).interns == old(self).interns,
            final(self).pending_arg_metadata == old(self).pending_arg_metadata,
            final(self).pending_result_metadata == old(self).pending_result_metadata,
            slot_updated(old(self).heap.entries@, final(self).heap.entries@, id.0 as int),
            final(self).heap.entries@[id.0 as int] is List,
            final(self).heap.entries@[id.0 as int]->List_0.items@ == old(self).heap.entries@[id.0 as int]->List_0.items@ + items@,
            final(self).heap.entries@[id.0 as int]->List_0.meta@ == old(self).heap.entries@[id.0 as int]->List_0.meta@ + metas@,
    {
        let ghost vm0 = *self;
        let slot = self.take_slot(id);
        let mut list = match slot {
            HeapData::List(list) => list,
            _ => {
                assert(false);
                crate::heap::List { items: Vec::new(), meta: Vec::new() }
            },
        };
        let ghost items0 = list.items@;
        let ghost added = items@;
        let mut items = items;
        let mut metas = metas;
        list.items.append(&mut items);
        list.meta.append(&mut metas);
        proof {
            assert forall|k: int| 0 <= k < list.items@.len() implies value_ok(
                #[trigger] list.items@[k],
                self.hlen(),
                self.ilen(),
            ) by {
                if k < items0.len() {
                    assert(value_ok(items0[k], self.hlen(), self.ilen()));
                } else {
                    assert(list.items@[k] == added[k - items0.len()]);
                }
            }
        }
        self.put_slot(id, HeapData::List(list));
        proof {
            assert(self.heap.entries@ =~= vm0.heap.entries@.update(id.0 as int, HeapData::List(list)));
        }
    }

    /// Allocates one single-character string per character of `cs`, in order.
    pub fn allocate_chars(&mut self, cs: &Vec<char>) -> (vs: Vec<Value>)
        requires
            old(self).wf(),
        ensures
            final(self).wf(),
            chars_allocated(old(self).heap.entries@, final(self).heap.entries@, cs@, vs@),
            final(self).stack == old(self).stack,
            final(self).meta_stack == old(self).meta_stack,
            final(self).interns == old(self).interns,
            final(self).pending_arg_metadata == old(self).pending_arg_metadata,
            final(self).pending_result_metadata == old(self).pending_result_metadata,
    {
        let ghost h0 = self.heap.entries@;
        let mut vs: Vec<Value> = Vec::new();
        let mut k: usize = 0;
        proof {
            assert(h0.subrange(0, h0.len() as int) =~= h0);
        }
        while k < cs.len()
            invariant
                self.wf(),
                k <= cs@.len(),
                self.stack == old(self).stack,
                self.meta_stack == old(self).meta_stack,
                self.interns == old(self).interns,
                self.pending_arg_metadata == old(self).pending_arg_metadata,
                self.pending_result_metadata == old(self).pending_result_metadata,
                chars_allocated(h0, self.heap.entries@, cs@.subrange(0, k as int), vs@),
            decreases cs@.len() - k,
        {
            let ghost h1 = self.heap.entries@;
            let ghost vs1 = vs@;
            let s = char_string(cs[k]);
            let id = self.allocate(HeapData::Str(s));
            vs.push(Value::Ref(id));
            k = k + 1;
            proof {
                let h = self.heap.entries@;
                let c = cs@.subrange(0, k as int);
                assert(c =~= cs@.subrange(0, k - 1).push(cs@[k - 1]));
                assert(h.subrange(0, h0.len() as int) =~= h1.subrange(0, h0.len() as int));
                assert forall|j: int|
                    0 <= j < c.len() implies #[trigger] vs@[j] == Value::Ref(
                    HeapId((h0.len() + j) as usize),
                ) && h[h0.len() + j] is Str && h[h0.len() + j]->Str_0@ == seq![c[j]] by {
                    if j < k - 1 {
                        assert(vs@[j] == vs1[j]);
                        assert(h[h0.len() + j] == h1[h0.len() + j]);
                    }
                }
            }
        }
        proof {
            assert(cs@.subrange(0, cs@.len() as int) =~= cs@);
        }
        vs
    }

    /// Sets `key` to `value` in a dict that is not on the heap, as
    /// [`dict_set_with_meta`](Self::dict_set_with_meta) does for one that is.
    pub fn dict_set_local(
        &self,
        d: &mut Dict,
        key: Value,
        key_meta: MetadataId,
        value: Value,
        value_meta: MetadataId,
    ) -> (r: DictSetResult)
        requires
            entries_ok(old(d).entries@, self.hlen(), self.ilen()),
            value_ok(key, self.hlen(), self.ilen()),
            value_ok(value, self.hlen(), self.ilen()),
        ensures
            entries_ok(final(d).entries@, self.hlen(), self.ilen()),
            keys_distinct(*self, old(d).entries@) ==> keys_distinct(*self, final(d).entries@),
            self.key_view(key) is Unhashable ==> r == DictSetResult::Err(
                type_error(ErrorKind::Unhashable(self.type_of(key))),
            ) && final(d).entries@ == old(d).entries@,
            !(self.key_view(key) is Unhashable) ==> final(d).entries@ == dict_set_spec(
                *self,
                old(d).entries@,
                key,
                key_meta,
                value,
                value_meta,
            ) && r == DictSetResult::Ok(
                match find_entry(*self, old(d).entries@, key, 0) {
                    Some(j) => Some(old(d).entries@[j].value),
                    None => None,
                },
            ),
    {
        if !self.is_hashable(&key) {
            let t = self.py_type(&key);
            return Err(new_type_error(ErrorKind::Unhashable(t)));
        }
        let ghost es = d.entries@;
        let found = self.find_entry_index(&d.entries, &key);
        let old_value = match found {
            Some(j) => {
                proof {
                    lemma_find_entry(*self, es, key, 0);
                }
                let e = d.entries[j];
                d.entries.set(j, DictEntry { key: e.key, key_meta: e.key_meta, value, value_meta });
                Some(e.value)
            },
            None => {
                d.entries.push(DictEntry { key, key_meta, value, value_meta });
                None
            },
        };
        proof {
            assert(d.entries@ =~= dict_set_spec(*self, es, key, key_meta, value, value_meta));
            if keys_distinct(*self, es) {
                lemma_dict_set_distinct(*self, es, key, key_meta, value, value_meta);
            }
            assert forall|k: int| 0 <= k < d.entries@.len() implies value_ok(
                #[trigger] d.entries@[k].key,
                self.hlen(),
                self.ilen(),
            ) && value_ok(d.entries@[k].value, self.hlen(), self.ilen()) by {
                if k < es.len() {
                    assert(value_ok(es[k].key, self.hlen(), self.ilen()));
                }
            }
        }
        Ok(old_value)
    }

    /// Adds `item` to a set that is not on the heap, as
    /// [`set_add_with_meta`](Self::set_add_with_meta) does for one that is.
    pub fn set_add_local(&self, set: &mut PySet, item: Value, meta: MetadataId) -> (r: RunResult)
        requires
            old(set).items@.len() == old(set).meta@.len(),
            values_ok(old(set).items@, self.hlen(), self.ilen()),
            value_ok(item, self.hlen(), self.ilen()),
        ensures
            final(set).items@.len() == final(set).meta@.len(),
            values_ok(final(set).items@, self.hlen(), self.ilen()),
            self.key_view(item) is Unhashable ==> r == RunResult::Err(
                type_error(ErrorKind::Unhashable(self.type_of(item))),
            ) && final(set).items@ == old(set).items@ && final(set).meta@ == old(set).meta@,
            !(self.key_view(item) is Unhashable) ==> r is Ok && (if find_value(
                *self,
                old(set).items@,
                item,
                0,
            ) is Some {
                final(set).items@ == old(set).items@ && final(set).meta@ == old(set).meta@
            } else {
                final(set).items@ == old(set).items@.push(item) && final(set).meta@ == old(
                    set,
                ).meta@.push(meta)
            }),
    {
        if !self.is_hashable(&item) {
            let t = self.py_type(&item);
            return Err(new_type_error(ErrorKind::Unhashable(t)));
        }
        let ghost items0 = set.items@;
        let found = self.find_value_index(&set.items, &item);
        if found.is_none() {
            set.items.push(item);
            set.meta.push(meta);
        }
        proof {
            assert forall|k: int| 0 <= k < set.items@.len() implies value_ok(
                #[trigger] set.items@[k],
                self.hlen(),
                self.ilen(),
            ) by {
                if k < items0.len() {
                    assert(value_ok(items0[k], self.hlen(), self.ilen()));
                }
            }
        }
        Ok(())
    }
}

} // verus!

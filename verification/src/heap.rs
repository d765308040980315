//! The heap of the interpreter: containers and strings referenced by [`Value::Ref`].
use vstd::prelude::*;
use crate::metadata::MetadataId;
use crate::value::{Value, Type, HeapId, StringId, Builtins};

verus! {

/// A list: its elements and, in parallel, each element's metadata.
pub struct List {
    pub items: Vec<Value>,
    pub meta: Vec<MetadataId>,
}

/// A tuple: its elements and, in parallel, each element's metadata.
pub struct Tuple {
    pub items: Vec<Value>,
    pub meta: Vec<MetadataId>,
}

/// One entry of a dict, with the metadata of its key and of its value.
#[derive(Clone, Copy)]
pub struct DictEntry {
    pub key: Value,
    pub key_meta: MetadataId,
    pub value: Value,
    pub value_meta: MetadataId,
}

/// A dict: its entries in insertion order. In a well-formed VM its keys can be hashed and
/// no two are equal ([`dicts_distinct`](crate::vm::dicts_distinct)).
pub struct Dict {
    pub entries: Vec<DictEntry>,
}

/// A set: its elements in insertion order and, in parallel, each element's metadata.
pub struct PySet {
    pub items: Vec<Value>,
    pub meta: Vec<MetadataId>,
}

/// A slice object; each bound is `None` when omitted.
pub struct Slice {
    pub start: Option<i64>,
    pub stop: Option<i64>,
    pub step: Option<i64>,
}

/// Names known before any code runs: module names and module attribute names.
#[derive(Debug, Clone, Copy, PartialEq, Eq, Structural)]
pub enum StaticStrings {
    Datetime,
    Date,
    Timedelta,
    Timezone,
    Pathlib,
    PathClass,
}

/// A module object: its name and its attributes in the order they were set.
pub struct Module {
    pub name: StaticStrings,
    pub attrs: Vec<(StaticStrings, Value)>,
}

/// An iterator over `source`, which it reads afresh at each step: `index` items have been
/// taken. The characters of a string source carry `source_meta`, the string's metadata.
#[derive(Clone, Copy)]
pub struct PyIter {
    pub source: Value,
    pub source_meta: MetadataId,
    pub index: usize,
}

/// What a heap slot holds.
pub enum HeapData {
    List(List),
    Tuple(Tuple),
    Dict(Dict),
    PySet(PySet),
    Str(String),
    Slice(Slice),
    Module(Module),
    Iter(PyIter),
}

/// The heap: slot `i` is referenced by `Value::Ref(HeapId(i))`. Slots are never freed.
pub struct Heap {
    pub entries: Vec<HeapData>,
}

/// The interned strings: `Value::InternString(StringId(i))` is `strings[i]`.
pub struct Interns {
    pub strings: Vec<String>,
}

/// `v` refers only to existing heap slots and interned strings.
pub open spec fn value_ok(v: Value, hlen: int, ilen: int) -> bool {
    match v {
        Value::Ref(id) => id.0 < hlen,
        Value::InternString(s) => s.0 < ilen,
        _ => true,
    }
}

/// Every value of `vs` refers only to existing heap slots and interned strings.
pub open spec fn values_ok(vs: Seq<Value>, hlen: int, ilen: int) -> bool {
    forall|k: int| 0 <= k < vs.len() ==> value_ok(#[trigger] vs[k], hlen, ilen)
}

/// The keys and values of the entries refer only to existing slots and strings.
pub open spec fn entries_ok(es: Seq<DictEntry>, hlen: int, ilen: int) -> bool {
    forall|k: int|
        0 <= k < es.len() ==> value_ok(#[trigger] es[k].key, hlen, ilen) && value_ok(
            es[k].value,
            hlen,
            ilen,
        )
}

/// The attribute values refer only to existing slots and strings.
pub open spec fn attrs_ok(attrs: Seq<(StaticStrings, Value)>, hlen: int, ilen: int) -> bool {
    forall|k: int| 0 <= k < attrs.len() ==> value_ok(#[trigger] attrs[k].1, hlen, ilen)
}

/// A heap slot's contents are well formed: element and metadata vectors are parallel, and
/// every value refers to an existing slot or string.
pub open spec fn data_ok(d: HeapData, hlen: int, ilen: int) -> bool {
    match d {
        HeapData::List(l) => l.items@.len() == l.meta@.len() && values_ok(l.items@, hlen, ilen),
        HeapData::Tuple(t) => t.items@.len() == t.meta@.len() && values_ok(t.items@, hlen, ilen),
        HeapData::PySet(s) => s.items@.len() == s.meta@.len() && values_ok(s.items@, hlen, ilen),
        HeapData::Dict(d) => entries_ok(d.entries@, hlen, ilen),
        HeapData::Module(m) => attrs_ok(m.attrs@, hlen, ilen),
        HeapData::Str(_) => true,
        HeapData::Slice(_) => true,
        HeapData::Iter(it) => value_ok(it.source, hlen, ilen),
    }
}

/// The Python type of a heap slot's contents.
pub open spec fn data_type(d: HeapData) -> Type {
    match d {
        HeapData::List(_) => Type::List,
        HeapData::Tuple(_) => Type::Tuple,
        HeapData::Dict(_) => Type::Dict,
        HeapData::PySet(_) => Type::SetType,
        HeapData::Str(_) => Type::Str,
        HeapData::Slice(_) => Type::Slice,
        HeapData::Module(_) => Type::Module,
        HeapData::Iter(_) => Type::Iterator,
    }
}

/// The values held in a slot of `h` only refer to slots of `h` and to `ilen` strings.
pub open spec fn heap_ok(h: Seq<HeapData>, ilen: int) -> bool {
    forall|i: int| 0 <= i < h.len() ==> data_ok(#[trigger] h[i], h.len() as int, ilen)
}

/// Well-formedness is kept when the bounds grow.
pub proof fn lemma_data_ok_grow(d: HeapData, h1: int, h2: int, ilen: int)
    requires
        data_ok(d, h1, ilen),
        h1 <= h2,
    ensures
        data_ok(d, h2, ilen),
{
    match d {
        HeapData::List(l) => {
            assert(values_ok(l.items@, h2, ilen));
        },
        HeapData::Tuple(t) => {
            assert(values_ok(t.items@, h2, ilen));
        },
        HeapData::PySet(s) => {
            assert(values_ok(s.items@, h2, ilen));
        },
        HeapData::Dict(d) => {
            assert(entries_ok(d.entries@, h2, ilen));
        },
        HeapData::Module(m) => {
            assert(attrs_ok(m.attrs@, h2, ilen));
        },
        _ => {},
    }
}

/// Adding a well-formed slot keeps the heap well formed.
pub proof fn lemma_heap_push(h: Seq<HeapData>, d: HeapData, ilen: int)
    requires
        heap_ok(h, ilen),
        data_ok(d, h.len() + 1int, ilen),
    ensures
        heap_ok(h.push(d), ilen),
{
    let h2 = h.push(d);
    assert forall|i: int| 0 <= i < h2.len() implies data_ok(#[trigger] h2[i], h2.len() as int, ilen) by {
        if i < h.len() {
            assert(h2[i] == h[i]);
            lemma_data_ok_grow(h[i], h.len() as int, h2.len() as int, ilen);
        }
    }
}

/// Replacing a slot by well-formed contents keeps the heap well formed.
pub proof fn lemma_heap_update(h: Seq<HeapData>, i: int, d: HeapData, ilen: int)
    requires
        heap_ok(h, ilen),
        0 <= i < h.len(),
        data_ok(d, h.len() as int, ilen),
    ensures
        heap_ok(h.update(i, d), ilen),
{
    let h2 = h.update(i, d);
    assert forall|j: int| 0 <= j < h2.len() implies data_ok(#[trigger] h2[j], h2.len() as int, ilen) by {
        if j != i {
            assert(h2[j] == h[j]);
        }
    }
}

impl Heap {
    /// Stores `data` in a new slot and returns its id.
    pub fn allocate(&mut self, data: HeapData) -> (id: HeapId)
        ensures
            final(self).entries@ == old(self).entries@.push(data),
            id.0 == old(self).entries@.len(),
    {
        let id = HeapId(self.entries.len());
        self.entries.push(data);
        id
    }
}

impl Module {
    /// A module named `name`, with no attributes yet.
    pub fn new(name: StaticStrings) -> (m: Module)
        ensures
            m.name == name,
            m.attrs@.len() == 0,
    {
        Module { name, attrs: Vec::new() }
    }

    /// Sets the attribute `name` to `value`, replacing an earlier value of it.
    pub fn set_attr(&mut self, name: StaticStrings, value: Value)
        ensures
            final(self).name == old(self).name,
            (forall|i: int| 0 <= i < old(self).attrs@.len() ==> #[trigger] old(self).attrs@[i].0 != name)
                ==> final(self).attrs@ == old(self).attrs@.push((name, value)),
            forall|i: int|
                0 <= i < old(self).attrs@.len() && #[trigger] old(self).attrs@[i].0 == name
                    && (forall|j: int| 0 <= j < i ==> #[trigger] old(self).attrs@[j].0 != name)
                    ==> final(self).attrs@ == old(self).attrs@.update(i, (name, value)),
    {
        let mut i: usize = 0;
        while i < self.attrs.len()
            invariant
                i <= self.attrs@.len(),
                self.attrs@ == old(self).attrs@,
                self.name == old(self).name,
                forall|j: int| 0 <= j < i ==> #[trigger] self.attrs@[j].0 != name,
            decreases self.attrs@.len() - i,
        {
            if self.attrs[i].0 == name {
                self.attrs.set(i, (name, value));
                return;
            }
            i = i + 1;
        }
        self.attrs.push((name, value));
    }
}

impl Interns {
    /// The interned string `id`.
    pub fn get_str(&self, id: StringId) -> (s: &str)
        requires
            (id.0 as int) < self.strings@.len(),
        ensures
            s@ == self.strings@[id.0 as int]@,
    {
        self.strings[id.0 as usize].as_str()
    }
}

} // verus!

//! Tests of the boundary metadata type, and of metadata propagation through the
//! operations the interpreter performs for small programs.
//!
//! The interpreter loop itself is not part of this library. Each program test below writes
//! the program's steps out by hand (marked "steps by hand"): it loads the inputs, runs the
//! library's operations and the store's merge in the order the interpreter would, and
//! exports the result. What these tests check is those operations, not an interpreter.

use std::collections::BTreeSet;

use monty::heap::{Dict, DictEntry, HeapData, List, Tuple};
use monty::metadata::{AnnotatedObject, MetadataId, ObjectMetadata};
use monty::object::{AnnotatedDictPairs, MontyObject};
use monty::store::MetadataStore;
use monty::value::{HeapId, Value};
use monty::vm::VM;

// === ObjectMetadata construction helpers ===

/// Builds an `ObjectMetadata` from slices. Each field uses `Option`: `None` = universal,
/// `Some(slice)` = explicit set.
fn meta(producers: Option<&[&str]>, consumers: Option<&[&str]>, tags: Option<&[&str]>) -> ObjectMetadata {
    ObjectMetadata {
        producers: producers.map(|p| p.iter().map(ToString::to_string).collect()),
        consumers: consumers.map(|c| c.iter().map(ToString::to_string).collect()),
        tags: tags.map(|t| t.iter().map(ToString::to_string).collect()),
    }
}

fn empty_set() -> BTreeSet<String> {
    BTreeSet::new()
}

// === ObjectMetadata default ===

#[test]
fn object_metadata_default_is_empty() {
    let m = ObjectMetadata::default();
    assert_eq!(m.producers, Some(BTreeSet::new()));
    assert_eq!(m.consumers, None);
    assert_eq!(m.tags, Some(BTreeSet::new()));
}

// === ObjectMetadata equality ===

#[test]
fn object_metadata_equality() {
    let a = meta(Some(&["p1", "p2"]), Some(&["c1"]), Some(&["t1"]));
    let b = meta(Some(&["p1", "p2"]), Some(&["c1"]), Some(&["t1"]));
    assert_eq!(a, b);
}

#[test]
fn object_metadata_inequality_producers() {
    let a = meta(Some(&["p1"]), None, Some(&[]));
    let b = meta(Some(&["p2"]), None, Some(&[]));
    assert_ne!(a, b);
}

#[test]
fn object_metadata_inequality_consumers() {
    let a = meta(Some(&[]), Some(&["c1"]), Some(&[]));
    let b = meta(Some(&[]), Some(&["c2"]), Some(&[]));
    assert_ne!(a, b);
}

#[test]
fn object_metadata_inequality_tags() {
    let a = meta(Some(&[]), None, Some(&["t1"]));
    let b = meta(Some(&[]), None, Some(&["t2"]));
    assert_ne!(a, b);
}

// === BTreeSet ordering ===

#[test]
fn object_metadata_btreeset_deterministic_order() {
    // BTreeSet ensures deterministic order regardless of insertion order
    let a = meta(Some(&["z", "a", "m"]), Some(&["b", "a"]), Some(&["x", "c"]));
    let expected_producers: BTreeSet<String> = ["a", "m", "z"].iter().map(ToString::to_string).collect();
    let expected_consumers: BTreeSet<String> = ["a", "b"].iter().map(ToString::to_string).collect();
    let expected_tags: BTreeSet<String> = ["c", "x"].iter().map(ToString::to_string).collect();
    assert_eq!(a.producers, Some(expected_producers));
    assert_eq!(a.consumers, Some(expected_consumers));
    assert_eq!(a.tags, Some(expected_tags));
}

// === ObjectMetadata with empty set vs None (universal) ===

#[test]
fn object_metadata_none_consumers_vs_empty_consumers() {
    // None means universal (no restriction), empty set means no one can consume
    let universal = meta(Some(&[]), None, Some(&[]));
    let no_one = meta(Some(&[]), Some(&[]), Some(&[]));
    assert_ne!(universal, no_one);
    assert_eq!(universal.consumers, None);
    assert_eq!(no_one.consumers, Some(empty_set()));
}

#[test]
fn object_metadata_none_producers_vs_empty_producers() {
    // None means universal (every source), empty set means no known sources
    let universal = meta(None, None, Some(&[]));
    let empty = meta(Some(&[]), None, Some(&[]));
    assert_ne!(universal, empty);
    assert_eq!(universal.producers, None);
    assert_eq!(empty.producers, Some(BTreeSet::new()));
}

#[test]
fn object_metadata_none_tags_vs_empty_tags() {
    // None means universal (every label), empty set means no labels
    let universal = meta(Some(&[]), None, None);
    let empty = meta(Some(&[]), None, Some(&[]));
    assert_ne!(universal, empty);
    assert_eq!(universal.tags, None);
    assert_eq!(empty.tags, Some(BTreeSet::new()));
}

// === Metadata propagation through the interpreter's operations ===
//
// The interpreter keeps a metadata store beside its virtual machine. Inputs are loaded
// into the machine with their metadata interned in the store; each program below is
// carried out by the machine operations and store merges that the interpreter performs
// for it; the result is read back with its metadata resolved from the store.

/// The machine and the metadata store of one run.
struct Run {
    vm: VM,
    store: MetadataStore,
}

impl Run {
    fn new() -> Self {
        Run { vm: VM::new(Vec::new()), store: MetadataStore::new() }
    }

    /// Interns optional boundary metadata; `None` is the default metadata.
    fn intern(&mut self, m: &Option<ObjectMetadata>) -> MetadataId {
        match m {
            None => MetadataId::default(),
            Some(o) => self.store.intern_object_metadata(o),
        }
    }

    fn allocate(&mut self, data: HeapData) -> Value {
        Value::Ref(self.vm.allocate(data))
    }

    /// Loads an input value into the machine, each element with its own metadata.
    fn load(&mut self, obj: &AnnotatedObject) -> (Value, MetadataId) {
        let m = self.intern(&obj.metadata);
        let v = match &obj.value {
            MontyObject::NoneValue => Value::NoneValue,
            MontyObject::Bool(b) => Value::Bool(*b),
            MontyObject::Int(n) => Value::Int(*n),
            MontyObject::String(s) => self.allocate(HeapData::Str(s.clone())),
            MontyObject::List(items) => {
                let (items, meta) = self.load_all(items);
                self.allocate(HeapData::List(List { items, meta }))
            }
            MontyObject::Tuple(items) => {
                let (items, meta) = self.load_all(items);
                self.allocate(HeapData::Tuple(Tuple { items, meta }))
            }
            MontyObject::Dict(AnnotatedDictPairs(pairs)) => {
                let mut entries = Vec::new();
                for (k, v) in pairs {
                    let (key, key_meta) = self.load(k);
                    let (value, value_meta) = self.load(v);
                    entries.push(DictEntry { key, key_meta, value, value_meta });
                }
                self.allocate(HeapData::Dict(Dict { entries }))
            }
        };
        (v, m)
    }

    fn load_all(&mut self, items: &[AnnotatedObject]) -> (Vec<Value>, Vec<MetadataId>) {
        let mut values = Vec::new();
        let mut metas = Vec::new();
        for item in items {
            let (v, m) = self.load(item);
            values.push(v);
            metas.push(m);
        }
        (values, metas)
    }

    /// Reads a value of the machine back, each element with its metadata resolved.
    fn export(&self, v: Value, m: MetadataId) -> AnnotatedObject {
        let value = match v {
            Value::NoneValue => MontyObject::NoneValue,
            Value::Bool(b) => MontyObject::Bool(b),
            Value::Int(n) => MontyObject::Int(n),
            Value::InternString(id) => MontyObject::String(self.vm.interns.get_str(id).to_string()),
            Value::Ref(HeapId(i)) => match &self.vm.heap.entries[i] {
                HeapData::Str(s) => MontyObject::String(s.clone()),
                HeapData::List(l) => MontyObject::List(self.export_all(&l.items, &l.meta)),
                HeapData::Tuple(t) => MontyObject::Tuple(self.export_all(&t.items, &t.meta)),
                HeapData::Dict(d) => MontyObject::Dict(AnnotatedDictPairs(
                    d.entries
                        .iter()
                        .map(|e| (self.export(e.key, e.key_meta), self.export(e.value, e.value_meta)))
                        .collect(),
                )),
                _ => panic!("unexpected heap data"),
            },
            Value::Builtin(_) => panic!("unexpected builtin"),
        };
        AnnotatedObject::new(value, self.store.to_object_metadata(m))
    }

    fn export_all(&self, items: &[Value], metas: &[MetadataId]) -> Vec<AnnotatedObject> {
        items.iter().zip(metas).map(|(v, m)| self.export(*v, *m)).collect()
    }

    /// The element at `index` of the list or tuple `v`, with its metadata merged with the
    /// container's metadata `m`, as indexing does.
    fn index(&mut self, v: Value, m: MetadataId, index: i64) -> (Value, MetadataId) {
        let Value::Ref(HeapId(i)) = v else { panic!("expected a container") };
        let (items, metas) = match &self.vm.heap.entries[i] {
            HeapData::List(l) => (l.items.clone(), l.meta.clone()),
            HeapData::Tuple(t) => (t.items.clone(), t.meta.clone()),
            _ => panic!("expected a list or tuple"),
        };
        let k = if index < 0 { items.len() as i64 + index } else { index } as usize;
        let merged = self.store.merge(m, metas[k]);
        (items[k], merged)
    }

    /// The items of an iterable, each with its metadata merged with the iterable's, as a
    /// `for` loop yields them.
    fn iterate(&mut self, v: Value, m: MetadataId) -> Vec<(Value, MetadataId)> {
        let (items, metas) = monty::collections::extract_items_with_meta(
            &v,
            m,
            &mut self.vm,
            monty::collections::IterError::NotIterable,
        )
        .unwrap();
        items.into_iter().zip(metas).map(|(v, em)| (v, self.store.merge(m, em))).collect()
    }

    fn text(&self, v: Value) -> String {
        match self.export(v, MetadataId::default()).value {
            MontyObject::String(s) => s,
            other => panic!("expected a string, got {other:?}"),
        }
    }

    fn int_of(&self, v: Value) -> i64 {
        match v {
            Value::Int(n) => n,
            other => panic!("expected an int, got {other:?}"),
        }
    }
}

#[test]
fn metadata_passthrough_single_input() {
    // Steps by hand: the program's evaluation is written out below.
    // An input with metadata passed straight through should retain its metadata
    let input_meta = meta(Some(&["source_a"]), Some(&["consumer_x"]), Some(&["pii"]));
    let input = AnnotatedObject::new(MontyObject::Int(42), Some(input_meta.clone()));
    // x
    let mut run = Run::new();
    let (x, xm) = run.load(&input);
    let out = run.export(x, xm);
    assert_eq!(out.value, MontyObject::Int(42));
    assert_eq!(out.metadata, Some(input_meta));
}

#[test]
fn metadata_default_for_no_metadata_input() {
    // Steps by hand: the program's evaluation is written out below.
    // An input without explicit metadata should produce None metadata on output
    let input = AnnotatedObject::new(MontyObject::Int(42), None);
    let mut run = Run::new();
    let (x, xm) = run.load(&input);
    let out = run.export(x, xm);
    assert_eq!(out.value, MontyObject::Int(42));
    assert_eq!(out.metadata, None);
}

#[test]
fn metadata_merge_on_binary_op() {
    // Steps by hand: the program's evaluation is written out below.
    // a + b should merge metadata: producers union, consumers intersection, tags union
    let meta_a = meta(Some(&["src_a"]), Some(&["c1", "c2"]), Some(&["tag_a"]));
    let meta_b = meta(Some(&["src_b"]), Some(&["c2", "c3"]), Some(&["tag_b"]));
    let input_a = AnnotatedObject::new(MontyObject::Int(10), Some(meta_a));
    let input_b = AnnotatedObject::new(MontyObject::Int(20), Some(meta_b));

    // a + b
    let mut run = Run::new();
    let (a, am) = run.load(&input_a);
    let (b, bm) = run.load(&input_b);
    let sum = Value::Int(run.int_of(a) + run.int_of(b));
    let sum_meta = run.store.merge(am, bm);
    let out = run.export(sum, sum_meta);
    assert_eq!(out.value, MontyObject::Int(30));

    let out = out.metadata.expect("merged metadata should be present");
    // producers: union of {src_a} and {src_b}
    assert_eq!(
        out.producers,
        Some(BTreeSet::from(["src_a".to_string(), "src_b".to_string()]))
    );
    // consumers: intersection of {c1, c2} and {c2, c3} = {c2}
    assert_eq!(out.consumers, Some(BTreeSet::from(["c2".to_string()])));
    // tags: union of {tag_a} and {tag_b}
    assert_eq!(
        out.tags,
        Some(BTreeSet::from(["tag_a".to_string(), "tag_b".to_string()]))
    );
}

#[test]
fn metadata_propagates_through_function_call() {
    // Steps by hand: the program's evaluation is written out below.
    // Metadata should propagate through function arguments and returns
    let input_meta = meta(Some(&["secret"]), None, Some(&["classified"]));
    let input = AnnotatedObject::new(MontyObject::Int(5), Some(input_meta.clone()));
    // def double(n): return n * 2
    // double(x)
    let mut run = Run::new();
    let (x, xm) = run.load(&input);
    let (n, nm) = (x, xm);
    let result = Value::Int(run.int_of(n) * 2);
    let result_meta = run.store.merge(nm, MetadataId::default());
    let out = run.export(result, result_meta);
    assert_eq!(out.value, MontyObject::Int(10));
    // n * 2: merge(secret_meta, DEFAULT) = secret_meta
    assert_eq!(out.metadata, Some(input_meta));
}

#[test]
fn metadata_propagates_through_variable_assignment() {
    // Steps by hand: the program's evaluation is written out below.
    // a = x; b = a + 1; b should carry x's metadata
    let input_meta = meta(Some(&["origin"]), None, Some(&[]));
    let input = AnnotatedObject::new(MontyObject::Int(7), Some(input_meta.clone()));
    let mut run = Run::new();
    let (x, xm) = run.load(&input);
    let (a, am) = (x, xm);
    let b = Value::Int(run.int_of(a) + 1);
    let bm = run.store.merge(am, MetadataId::default());
    let out = run.export(b, bm);
    assert_eq!(out.value, MontyObject::Int(8));
    assert_eq!(out.metadata, Some(input_meta));
}

#[test]
fn metadata_merge_with_default_is_identity() {
    // Steps by hand: the program's evaluation is written out below.
    // x + 1: merge(x_meta, DEFAULT) should equal x_meta
    let input_meta = meta(Some(&["src"]), Some(&["viewer"]), Some(&["tag"]));
    let input = AnnotatedObject::new(MontyObject::Int(10), Some(input_meta.clone()));
    let mut run = Run::new();
    let (x, xm) = run.load(&input);
    let r = Value::Int(run.int_of(x) + 1);
    let rm = run.store.merge(xm, MetadataId::default());
    let out = run.export(r, rm);
    assert_eq!(out.value, MontyObject::Int(11));
    assert_eq!(out.metadata, Some(input_meta));
}

#[test]
fn metadata_propagates_through_fstring() {
    // Steps by hand: the program's evaluation is written out below.
    // f-string merges metadata from all interpolated values
    let meta_a = meta(Some(&["src_a"]), None, Some(&[]));
    let meta_b = meta(Some(&["src_b"]), None, Some(&[]));
    let input_a = AnnotatedObject::new(MontyObject::String("hello".to_string()), Some(meta_a));
    let input_b = AnnotatedObject::new(MontyObject::String("world".to_string()), Some(meta_b));
    // f'{a} {b}'
    let mut run = Run::new();
    let (a, am) = run.load(&input_a);
    let (b, bm) = run.load(&input_b);
    let text = format!("{} {}", run.text(a), run.text(b));
    let joined = run.store.merge(am, bm);
    let s = run.allocate(HeapData::Str(text));
    let out = run.export(s, joined);
    assert_eq!(out.value, MontyObject::String("hello world".to_string()));
    let out = out.metadata.expect("merged metadata from f-string parts");
    assert_eq!(
        out.producers,
        Some(BTreeSet::from(["src_a".to_string(), "src_b".to_string()]))
    );
}

#[test]
fn metadata_no_metadata_inputs_produce_none_output() {
    // Steps by hand: the program's evaluation is written out below.
    // When no inputs carry metadata, the output should have None metadata
    // 1 + 2
    let mut run = Run::new();
    let m = run.store.merge(MetadataId::default(), MetadataId::default());
    let out = run.export(Value::Int(1 + 2), m);
    assert_eq!(out.value, MontyObject::Int(3));
    assert_eq!(out.metadata, None);
}

// === Recursive element-level metadata tests ===

#[test]
fn metadata_list_input_preserves_element_metadata() {
    // Steps by hand: the program's evaluation is written out below.
    // A list input where each element has distinct metadata should preserve
    // per-element metadata through a round-trip: input -> interpreter -> output.
    let meta_a = meta(Some(&["src_a"]), None, Some(&[]));
    let meta_b = meta(Some(&["src_b"]), Some(&["admin"]), Some(&["pii"]));
    let input_list = MontyObject::List(vec![
        AnnotatedObject::new(MontyObject::Int(1), Some(meta_a.clone())),
        AnnotatedObject::new(MontyObject::Int(2), Some(meta_b.clone())),
    ]);
    let input = AnnotatedObject::from(input_list);

    let mut run = Run::new();
    let (x, xm) = run.load(&input);
    let value = run.export(x, xm).value;
    if let MontyObject::List(elements) = value {
        assert_eq!(elements.len(), 2);
        assert_eq!(elements[0].value, MontyObject::Int(1));
        assert_eq!(elements[0].metadata, Some(meta_a));
        assert_eq!(elements[1].value, MontyObject::Int(2));
        assert_eq!(elements[1].metadata, Some(meta_b));
    } else {
        panic!("expected List, got {value:?}");
    }
}

#[test]
fn metadata_list_element_no_metadata_roundtrips_as_none() {
    // Steps by hand: the program's evaluation is written out below.
    // Elements without metadata should round-trip as None (not Some(default)).
    let input_list = MontyObject::List(vec![
        AnnotatedObject::new(MontyObject::Int(1), None),
        AnnotatedObject::new(MontyObject::Int(2), None),
    ]);
    let input = AnnotatedObject::from(input_list);

    let mut run = Run::new();
    let (x, xm) = run.load(&input);
    let value = run.export(x, xm).value;
    if let MontyObject::List(elements) = value {
        assert_eq!(elements[0].metadata, None);
        assert_eq!(elements[1].metadata, None);
    } else {
        panic!("expected List");
    }
}

#[test]
fn metadata_list_mixed_some_none_element_metadata() {
    // Steps by hand: the program's evaluation is written out below.
    // A mix of elements with and without metadata should preserve each correctly.
    let meta_a = meta(Some(&["secret"]), Some(&["admin"]), Some(&["classified"]));
    let input_list = MontyObject::List(vec![
        AnnotatedObject::new(MontyObject::Int(1), Some(meta_a.clone())),
        AnnotatedObject::new(MontyObject::Int(2), None),
        AnnotatedObject::new(MontyObject::Int(3), Some(meta_a.clone())),
    ]);
    let input = AnnotatedObject::from(input_list);

    let mut run = Run::new();
    let (x, xm) = run.load(&input);
    let value = run.export(x, xm).value;
    if let MontyObject::List(elements) = value {
        assert_eq!(elements.len(), 3);
        assert_eq!(elements[0].metadata, Some(meta_a.clone()));
        assert_eq!(elements[1].metadata, None);
        assert_eq!(elements[2].metadata, Some(meta_a));
    } else {
        panic!("expected List");
    }
}

#[test]
fn metadata_tuple_input_preserves_element_metadata() {
    // Steps by hand: the program's evaluation is written out below.
    let meta_a = meta(Some(&["src_a"]), None, Some(&[]));
    let meta_b = meta(Some(&["src_b"]), None, Some(&["tag"]));
    let input_tuple = MontyObject::Tuple(vec![
        AnnotatedObject::new(MontyObject::Int(10), Some(meta_a.clone())),
        AnnotatedObject::new(MontyObject::String("hi".to_string()), Some(meta_b.clone())),
    ]);
    let input = AnnotatedObject::from(input_tuple);

    let mut run = Run::new();
    let (x, xm) = run.load(&input);
    let value = run.export(x, xm).value;
    if let MontyObject::Tuple(elements) = value {
        assert_eq!(elements.len(), 2);
        assert_eq!(elements[0].value, MontyObject::Int(10));
        assert_eq!(elements[0].metadata, Some(meta_a));
        assert_eq!(elements[1].value, MontyObject::String("hi".to_string()));
        assert_eq!(elements[1].metadata, Some(meta_b));
    } else {
        panic!("expected Tuple, got {value:?}");
    }
}

#[test]
fn metadata_dict_input_preserves_key_and_value_metadata() {
    // Steps by hand: the program's evaluation is written out below.
    let meta_key = meta(Some(&["key_src"]), None, Some(&[]));
    let meta_val = meta(Some(&["val_src"]), Some(&["viewer"]), Some(&["sensitive"]));
    let input_dict = MontyObject::Dict(AnnotatedDictPairs(vec![(
        AnnotatedObject::new(MontyObject::String("k".to_string()), Some(meta_key.clone())),
        AnnotatedObject::new(MontyObject::Int(42), Some(meta_val.clone())),
    )]));
    let input = AnnotatedObject::from(input_dict);

    let mut run = Run::new();
    let (x, xm) = run.load(&input);
    let value = run.export(x, xm).value;
    if let MontyObject::Dict(pairs) = value {
        let entries: Vec<_> = pairs.0.into_iter().collect();
        assert_eq!(entries.len(), 1);
        assert_eq!(entries[0].0.value, MontyObject::String("k".to_string()));
        assert_eq!(entries[0].0.metadata, Some(meta_key));
        assert_eq!(entries[0].1.value, MontyObject::Int(42));
        assert_eq!(entries[0].1.metadata, Some(meta_val));
    } else {
        panic!("expected Dict, got {value:?}");
    }
}

#[test]
fn metadata_nested_list_preserves_inner_element_metadata() {
    // Steps by hand: the program's evaluation is written out below.
    // A list containing a list: inner elements should preserve their metadata.
    let meta_inner = meta(Some(&["deep_source"]), None, Some(&["nested"]));
    let inner_list = MontyObject::List(vec![AnnotatedObject::new(
        MontyObject::Int(99),
        Some(meta_inner.clone()),
    )]);
    let input_list = MontyObject::List(vec![AnnotatedObject::new(inner_list, None)]);
    let input = AnnotatedObject::from(input_list);

    let mut run = Run::new();
    let (x, xm) = run.load(&input);
    let value = run.export(x, xm).value;
    if let MontyObject::List(outer) = value {
        assert_eq!(outer.len(), 1);
        assert_eq!(outer[0].metadata, None); // outer element has no metadata
        if let MontyObject::List(inner) = &outer[0].value {
            assert_eq!(inner.len(), 1);
            assert_eq!(inner[0].value, MontyObject::Int(99));
            assert_eq!(inner[0].metadata, Some(meta_inner));
        } else {
            panic!("expected inner List");
        }
    } else {
        panic!("expected outer List");
    }
}

#[test]
fn metadata_list_indexing_extracts_element_metadata() {
    // Steps by hand: the program's evaluation is written out below.
    // Extracting an element from a list via indexing should propagate that
    // element's metadata to the result, not the container's.
    let meta_elem = meta(Some(&["elem_src"]), None, Some(&["tagged"]));
    let input_list = MontyObject::List(vec![
        AnnotatedObject::new(MontyObject::Int(10), None),
        AnnotatedObject::new(MontyObject::Int(20), Some(meta_elem.clone())),
    ]);
    let input = AnnotatedObject::from(input_list);

    // x[1]
    let mut run = Run::new();
    let (x, xm) = run.load(&input);
    let (v, m) = run.index(x, xm, 1);
    let out = run.export(v, m);
    assert_eq!(out.value, MontyObject::Int(20));
    assert_eq!(out.metadata, Some(meta_elem));
}

#[test]
fn metadata_list_append_preserves_existing_element_metadata() {
    // Steps by hand: the program's evaluation is written out below.
    // Appending to a list should not disturb existing elements' metadata.
    let meta_a = meta(Some(&["src_a"]), None, Some(&[]));
    let expected_meta = meta_a.clone();
    let input_list = MontyObject::List(vec![AnnotatedObject::new(MontyObject::Int(1), Some(meta_a))]);
    let input = AnnotatedObject::from(input_list);

    // x.append(99)
    // x
    let mut run = Run::new();
    let (x, xm) = run.load(&input);
    let Value::Ref(id) = x else { panic!("expected a list") };
    run.vm.list_append_with_meta(id, Value::Int(99), MetadataId::default());
    let value = run.export(x, xm).value;
    if let MontyObject::List(elements) = value {
        assert_eq!(elements.len(), 2);
        // Original element keeps its metadata
        assert_eq!(elements[0].value, MontyObject::Int(1));
        assert_eq!(elements[0].metadata, Some(expected_meta));
        // Appended element has no provenance metadata (literal)
        assert_eq!(elements[1].value, MontyObject::Int(99));
        assert_eq!(elements[1].metadata, None);
    } else {
        panic!("expected List");
    }
}

#[test]
fn metadata_unpacking_preserves_element_metadata() {
    // Steps by hand: the program's evaluation is written out below.
    // Unpacking a list should propagate each element's metadata to its variable.
    let meta_a = meta(Some(&["src_a"]), None, Some(&[]));
    let meta_b = meta(Some(&["src_b"]), None, Some(&[]));
    let input_list = MontyObject::List(vec![
        AnnotatedObject::new(MontyObject::Int(1), Some(meta_a)),
        AnnotatedObject::new(MontyObject::Int(2), Some(meta_b.clone())),
    ]);
    let input = AnnotatedObject::from(input_list);

    // a, b = x
    // b
    let mut run = Run::new();
    let (x, xm) = run.load(&input);
    run.vm.push_with_meta(x, xm);
    run.vm.unpack_sequence(2).unwrap();
    let (_a, _am) = run.vm.pop_with_meta();
    let (b, bm) = run.vm.pop_with_meta();
    let out = run.export(b, bm);
    assert_eq!(out.value, MontyObject::Int(2));
    assert_eq!(out.metadata, Some(meta_b));
}

// === Star-args metadata propagation ===

#[test]
fn metadata_star_args_propagates_to_function_params() {
    // Steps by hand: the program's evaluation is written out below.
    // f(*args) should propagate per-element metadata from the args tuple to parameters
    let meta_a = meta(Some(&["src_a"]), None, Some(&[]));
    let meta_b = meta(Some(&["src_b"]), None, Some(&["tag"]));
    let input_a = AnnotatedObject::new(MontyObject::Int(10), Some(meta_a));
    let input_b = AnnotatedObject::new(MontyObject::Int(20), Some(meta_b));

    // def add(a, b): return a + b
    // add(*x): *args is built as a list, converted to a tuple, then unpacked into the
    // parameters
    let input_list = MontyObject::List(vec![input_a, input_b]);
    let input = AnnotatedObject::from(input_list);

    let mut run = Run::new();
    let (x, xm) = run.load(&input);
    run.vm.build_list(0).unwrap();
    run.vm.push_with_meta(x, xm);
    run.vm.list_extend().unwrap();
    run.vm.list_to_tuple().unwrap();
    run.vm.unpack_sequence(2).unwrap();
    let (a, am) = run.vm.pop_with_meta();
    let (b, bm) = run.vm.pop_with_meta();
    let sum = Value::Int(run.int_of(a) + run.int_of(b));
    let sum_meta = run.store.merge(am, bm);
    let out = run.export(sum, sum_meta);
    assert_eq!(out.value, MontyObject::Int(30));
    // result should merge meta_a + meta_b
    let out = out.metadata.expect("merged metadata from *args");
    assert_eq!(
        out.producers,
        Some(BTreeSet::from(["src_a".to_string(), "src_b".to_string()]))
    );
    assert_eq!(out.tags, Some(BTreeSet::from(["tag".to_string()])));
}

// === dict merge / dict_update metadata ===

#[test]
fn metadata_dict_update_preserves_value_metadata() {
    // Steps by hand: the program's evaluation is written out below.
    // {**d} should preserve per-key and per-value metadata from the source dict
    let meta_val = meta(Some(&["api"]), None, Some(&["sensitive"]));
    let input_dict = MontyObject::Dict(AnnotatedDictPairs(vec![(
        AnnotatedObject::new(MontyObject::String("key".to_string()), None),
        AnnotatedObject::new(MontyObject::Int(42), Some(meta_val.clone())),
    )]));
    let input = AnnotatedObject::from(input_dict);

    // d = {**x}: BuildDict(0) then DictUpdate
    // d['key']
    let mut run = Run::new();
    let (x, xm) = run.load(&input);
    run.vm.build_dict(0).unwrap();
    run.vm.push_with_meta(x, xm);
    run.vm.dict_update(0).unwrap();
    let (d, dm) = run.vm.pop_with_meta();
    let Value::Ref(HeapId(i)) = d else { panic!("expected a dict") };
    let HeapData::Dict(dict) = &run.vm.heap.entries[i] else { panic!("expected a dict") };
    let entry = *dict
        .entries
        .iter()
        .find(|e| run.text(e.key) == "key")
        .expect("key present");
    let value_meta = run.store.merge(dm, entry.value_meta);
    let out = run.export(entry.value, value_meta);
    assert_eq!(out.value, MontyObject::Int(42));
    assert_eq!(out.metadata, Some(meta_val));
}

// === list_extend / set_extend metadata ===

#[test]
fn metadata_list_extend_preserves_element_metadata() {
    // Steps by hand: the program's evaluation is written out below.
    // [*x] should preserve per-element metadata from the source list
    let meta_a = meta(Some(&["src_a"]), None, Some(&[]));
    let meta_b = meta(Some(&["src_b"]), None, Some(&[]));
    let input_list = MontyObject::List(vec![
        AnnotatedObject::new(MontyObject::Int(1), Some(meta_a.clone())),
        AnnotatedObject::new(MontyObject::Int(2), Some(meta_b.clone())),
    ]);
    let input = AnnotatedObject::from(input_list);

    // y = [*x]: BuildList(0) then ListExtend
    // y
    let mut run = Run::new();
    let (x, xm) = run.load(&input);
    run.vm.build_list(0).unwrap();
    run.vm.push_with_meta(x, xm);
    run.vm.list_extend().unwrap();
    let (y, ym) = run.vm.pop_with_meta();
    let value = run.export(y, ym).value;
    if let MontyObject::List(elements) = value {
        assert_eq!(elements.len(), 2);
        assert_eq!(elements[0].metadata, Some(meta_a));
        assert_eq!(elements[1].metadata, Some(meta_b));
    } else {
        panic!("expected List, got {value:?}");
    }
}

// === list_to_tuple metadata ===

#[test]
fn metadata_list_to_tuple_preserves_element_metadata() {
    // Steps by hand: the program's evaluation is written out below.
    // (*x,) goes through ListToTuple, element metadata should survive
    let meta_a = meta(Some(&["src"]), None, Some(&["tagged"]));
    let input_list = MontyObject::List(vec![
        AnnotatedObject::new(MontyObject::Int(1), Some(meta_a.clone())),
        AnnotatedObject::new(MontyObject::Int(2), None),
    ]);
    let input = AnnotatedObject::from(input_list);

    // y = (*x,)
    // y
    let mut run = Run::new();
    let (x, xm) = run.load(&input);
    run.vm.build_list(0).unwrap();
    run.vm.push_with_meta(x, xm);
    run.vm.list_extend().unwrap();
    run.vm.list_to_tuple().unwrap();
    let (y, ym) = run.vm.pop_with_meta();
    let value = run.export(y, ym).value;
    if let MontyObject::Tuple(elements) = value {
        assert_eq!(elements.len(), 2);
        assert_eq!(elements[0].metadata, Some(meta_a));
        assert_eq!(elements[1].metadata, None);
    } else {
        panic!("expected Tuple, got {value:?}");
    }
}

// === String unpacking metadata inheritance ===

#[test]
fn metadata_string_unpack_inherits_string_metadata() {
    // Steps by hand: the program's evaluation is written out below.
    // Unpacking a string should give each char the string's metadata
    let input_meta = meta(Some(&["api_response"]), None, Some(&["external"]));
    let input = AnnotatedObject::new(MontyObject::String("ab".to_string()), Some(input_meta.clone()));

    // a, b = x
    // a
    let mut run = Run::new();
    let (x, xm) = run.load(&input);
    run.vm.push_with_meta(x, xm);
    run.vm.unpack_sequence(2).unwrap();
    let (a, am) = run.vm.pop_with_meta();
    let out = run.export(a, am);
    assert_eq!(out.value, MontyObject::String("a".to_string()));
    assert_eq!(out.metadata, Some(input_meta));
}

#[test]
fn metadata_string_star_unpack_inherits_string_metadata() {
    // Steps by hand: the program's evaluation is written out below.
    // first, *rest = string should give each char the string's metadata
    let input_meta = meta(Some(&["src"]), None, Some(&[]));
    let input = AnnotatedObject::new(MontyObject::String("abc".to_string()), Some(input_meta.clone()));

    // first, *rest = x
    // first
    let mut run = Run::new();
    let (x, xm) = run.load(&input);
    run.vm.push_with_meta(x, xm);
    run.vm.unpack_ex(1, 0).unwrap();
    let (first, fm) = run.vm.pop_with_meta();
    let out = run.export(first, fm);
    assert_eq!(out.value, MontyObject::String("a".to_string()));
    assert_eq!(out.metadata, Some(input_meta));
}

// === Merge with one-sided metadata ===

#[test]
fn metadata_merge_only_one_operand_has_metadata() {
    // Steps by hand: the program's evaluation is written out below.
    // When only one operand has metadata, result should carry that metadata
    // (merge with DEFAULT is identity)
    let input_meta = meta(Some(&["src"]), Some(&["viewer"]), Some(&["tag"]));
    let input_a = AnnotatedObject::new(MontyObject::Int(10), Some(input_meta.clone()));
    let input_b = AnnotatedObject::new(MontyObject::Int(5), None);

    // a + b
    let mut run = Run::new();
    let (a, am) = run.load(&input_a);
    let (b, bm) = run.load(&input_b);
    let sum = Value::Int(run.int_of(a) + run.int_of(b));
    let sum_meta = run.store.merge(am, bm);
    let out = run.export(sum, sum_meta);
    assert_eq!(out.value, MontyObject::Int(15));
    assert_eq!(out.metadata, Some(input_meta));
}

// === Container-level metadata propagation through indexing ===

#[test]
fn metadata_container_level_propagates_through_indexing() {
    // Steps by hand: the program's evaluation is written out below.
    // When a list has container-level metadata but elements have DEFAULT per-element
    // metadata, indexing should propagate the container's metadata to the element.
    let container_meta = meta(Some(&["web_api"]), Some(&["admin"]), Some(&["untrusted"]));
    let input_list = MontyObject::List(vec![
        AnnotatedObject::new(MontyObject::Int(10), None),
        AnnotatedObject::new(MontyObject::Int(20), None),
    ]);
    let input = AnnotatedObject::new(input_list, Some(container_meta.clone()));

    // x[0]
    let mut run = Run::new();
    let (x, xm) = run.load(&input);
    let (v, m) = run.index(x, xm, 0);
    let out = run.export(v, m);
    assert_eq!(out.value, MontyObject::Int(10));
    assert_eq!(out.metadata, Some(container_meta));
}

#[test]
fn metadata_container_level_merges_with_element_metadata_on_indexing() {
    // Steps by hand: the program's evaluation is written out below.
    // When both the container and element have metadata, indexing should merge them:
    // producers = union, consumers = intersection, tags = union.
    let container_meta = meta(Some(&["api"]), Some(&["admin", "user"]), Some(&["external"]));
    let elem_meta = meta(Some(&["db"]), Some(&["admin"]), Some(&["pii"]));
    let input_list = MontyObject::List(vec![AnnotatedObject::new(MontyObject::Int(42), Some(elem_meta))]);
    let input = AnnotatedObject::new(input_list, Some(container_meta));

    // x[0]
    let mut run = Run::new();
    let (x, xm) = run.load(&input);
    let (v, m) = run.index(x, xm, 0);
    let out = run.export(v, m);
    assert_eq!(out.value, MontyObject::Int(42));
    let out = out.metadata.expect("merged metadata should be present");
    assert_eq!(
        out.producers,
        Some(BTreeSet::from(["api".to_string(), "db".to_string()]))
    );
    assert_eq!(out.consumers, Some(BTreeSet::from(["admin".to_string()])));
    assert_eq!(
        out.tags,
        Some(BTreeSet::from(["external".to_string(), "pii".to_string()]))
    );
}

#[test]
fn metadata_container_level_propagates_through_negative_indexing() {
    // Steps by hand: the program's evaluation is written out below.
    // Negative indexing (x[-1]) should also propagate container metadata.
    let container_meta = meta(Some(&["src"]), None, Some(&["tagged"]));
    let input_list = MontyObject::List(vec![
        AnnotatedObject::new(MontyObject::Int(1), None),
        AnnotatedObject::new(MontyObject::Int(2), None),
    ]);
    let input = AnnotatedObject::new(input_list, Some(container_meta.clone()));

    // x[-1]
    let mut run = Run::new();
    let (x, xm) = run.load(&input);
    let (v, m) = run.index(x, xm, -1);
    let out = run.export(v, m);
    assert_eq!(out.value, MontyObject::Int(2));
    assert_eq!(out.metadata, Some(container_meta));
}

// === Container-level metadata propagation through iteration ===

#[test]
fn metadata_container_level_propagates_through_for_loop() {
    // Steps by hand: the program's evaluation is written out below.
    // When iterating a list with container-level metadata, each yielded element
    // should carry the container's metadata.
    let container_meta = meta(Some(&["web_api"]), Some(&["admin"]), Some(&["untrusted"]));
    let input_list = MontyObject::List(vec![
        AnnotatedObject::new(MontyObject::Int(10), None),
        AnnotatedObject::new(MontyObject::Int(20), None),
    ]);
    let input = AnnotatedObject::new(input_list, Some(container_meta.clone()));

    // total = 0
    // for item in x:
    //     total = total + item
    // total
    let mut run = Run::new();
    let (x, xm) = run.load(&input);
    let (mut total, mut total_meta) = (0i64, MetadataId::default());
    for (item, item_meta) in run.iterate(x, xm) {
        total += run.int_of(item);
        total_meta = run.store.merge(total_meta, item_meta);
    }
    let out = run.export(Value::Int(total), total_meta);
    assert_eq!(out.value, MontyObject::Int(30));
    assert_eq!(out.metadata, Some(container_meta));
}

#[test]
fn metadata_container_level_propagates_through_iteration_single_element() {
    // Steps by hand: the program's evaluation is written out below.
    // Single-element iteration should also propagate container metadata.
    let container_meta = meta(Some(&["vault"]), Some(&["internal"]), Some(&["secret"]));
    let input_list = MontyObject::List(vec![AnnotatedObject::new(MontyObject::Int(42), None)]);
    let input = AnnotatedObject::new(input_list, Some(container_meta.clone()));

    // result = None
    // for item in x:
    //     result = item
    // result
    let mut run = Run::new();
    let (x, xm) = run.load(&input);
    let (mut result, mut result_meta) = (Value::NoneValue, MetadataId::default());
    for (item, item_meta) in run.iterate(x, xm) {
        result = item;
        result_meta = item_meta;
    }
    let out = run.export(result, result_meta);
    assert_eq!(out.value, MontyObject::Int(42));
    assert_eq!(out.metadata, Some(container_meta));
}

// === Container-level metadata propagates through indexing then further operations ===

#[test]
fn metadata_container_level_propagates_through_indexing_then_concatenation() {
    // Steps by hand: the program's evaluation is written out below.
    // x[0] + " world" should carry x's container metadata through the binary op.
    let container_meta = meta(Some(&["api"]), None, Some(&["non_executable"]));
    let input_list = MontyObject::List(vec![AnnotatedObject::new(
        MontyObject::String("hello".to_string()),
        None,
    )]);
    let input = AnnotatedObject::new(input_list, Some(container_meta.clone()));

    // x[0] + ' world'
    let mut run = Run::new();
    let (x, xm) = run.load(&input);
    let (v, m) = run.index(x, xm, 0);
    let text = run.text(v) + " world";
    let joined = run.store.merge(m, MetadataId::default());
    let s = run.allocate(HeapData::Str(text));
    let out = run.export(s, joined);
    assert_eq!(out.value, MontyObject::String("hello world".to_string()));
    assert_eq!(out.metadata, Some(container_meta));
}

// === Container-level metadata propagates through f-string after indexing ===

#[test]
fn metadata_container_level_propagates_through_indexing_then_fstring() {
    // Steps by hand: the program's evaluation is written out below.
    // f"info: {x[0]}" should carry x's container metadata.
    let container_meta = meta(Some(&["vault"]), Some(&["admin"]), Some(&["secret"]));
    let input_list = MontyObject::List(vec![AnnotatedObject::new(
        MontyObject::String("data".to_string()),
        None,
    )]);
    let input = AnnotatedObject::new(input_list, Some(container_meta.clone()));

    // f'info: {x[0]}'
    let mut run = Run::new();
    let (x, xm) = run.load(&input);
    let (v, m) = run.index(x, xm, 0);
    let text = format!("info: {}", run.text(v));
    let joined = run.store.merge(MetadataId::default(), m);
    let s = run.allocate(HeapData::Str(text));
    let out = run.export(s, joined);
    assert_eq!(out.value, MontyObject::String("info: data".to_string()));
    assert_eq!(out.metadata, Some(container_meta));
}

// === Tuple container-level metadata ===

#[test]
fn metadata_tuple_container_level_propagates_through_indexing() {
    // Steps by hand: the program's evaluation is written out below.
    // Same as list test but with a tuple container.
    let container_meta = meta(Some(&["src"]), None, Some(&["tagged"]));
    let input_tuple = MontyObject::Tuple(vec![
        AnnotatedObject::new(MontyObject::Int(1), None),
        AnnotatedObject::new(MontyObject::Int(2), None),
    ]);
    let input = AnnotatedObject::new(input_tuple, Some(container_meta.clone()));

    // x[1]
    let mut run = Run::new();
    let (x, xm) = run.load(&input);
    let (v, m) = run.index(x, xm, 1);
    let out = run.export(v, m);
    assert_eq!(out.value, MontyObject::Int(2));
    assert_eq!(out.metadata, Some(container_meta));
}

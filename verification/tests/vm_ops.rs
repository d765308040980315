//! Tests of the virtual machine's collection, unpacking and builtin operations, of the
//! modules, and of how values print.

use monty::args::ArgValues;
use monty::builtins::{builtin_all, builtin_enumerate, builtin_next};
use monty::collections::{extract_items_with_meta, value_to_option_i64, IterError};
use monty::display::{py_repr, py_str};
use monty::exceptions::{
    unpack_ex_too_few_error, unpack_size_error, unpack_type_error, ErrorKind, ExcType, InternalError, RunError,
    SimpleException,
};
use monty::heap::{Dict, DictEntry, HeapData, List, PySet, StaticStrings, Tuple};
use monty::exceptions::MontyException;
use monty::io::{choose_print_route, structured_parts, PrintRoute, PrintWriter, PrintWriterCallback};
use monty::metadata::{AnnotatedObject, MetadataId};
use monty::object::{AnnotatedDictPairs, MontyObject};
use monty::value::{Builtins, HeapId, StringId, Type, Value};
use monty::vm::VM;

fn m(n: u32) -> MetadataId {
    MetadataId(n)
}

fn vm_with(interns: &[&str]) -> VM {
    VM::new(interns.iter().map(|s| s.to_string()).collect())
}

fn list(vm: &mut VM, items: &[(Value, u32)]) -> Value {
    let data = HeapData::List(List {
        items: items.iter().map(|p| p.0).collect(),
        meta: items.iter().map(|p| m(p.1)).collect(),
    });
    Value::Ref(vm.allocate(data))
}

fn string(vm: &mut VM, s: &str) -> Value {
    Value::Ref(vm.allocate(HeapData::Str(s.to_string())))
}

fn dict(vm: &mut VM, entries: &[(Value, u32, Value, u32)]) -> Value {
    let data = HeapData::Dict(Dict {
        entries: entries
            .iter()
            .map(|e| DictEntry { key: e.0, key_meta: m(e.1), value: e.2, value_meta: m(e.3) })
            .collect(),
    });
    Value::Ref(vm.allocate(data))
}

fn text_of(vm: &VM, v: Value) -> String {
    match v {
        Value::Ref(HeapId(i)) => match &vm.heap.entries[i] {
            HeapData::Str(s) => s.clone(),
            _ => panic!("expected a string"),
        },
        Value::InternString(StringId(i)) => vm.interns.strings[i as usize].clone(),
        _ => panic!("expected a string"),
    }
}

fn kind(e: RunError) -> ErrorKind {
    match e {
        RunError::Exception(SimpleException { kind, .. }) => kind,
        RunError::Internal(i) => panic!("unexpected internal error {i:?}"),
    }
}

fn dict_entries(vm: &VM, v: Value) -> Vec<DictEntry> {
    let Value::Ref(HeapId(i)) = v else { panic!("expected a dict") };
    match &vm.heap.entries[i] {
        HeapData::Dict(d) => d.entries.clone(),
        _ => panic!("expected a dict"),
    }
}

fn list_parts(vm: &VM, v: Value) -> (Vec<Value>, Vec<MetadataId>) {
    let Value::Ref(HeapId(i)) = v else { panic!("expected a container") };
    match &vm.heap.entries[i] {
        HeapData::List(l) => (l.items.clone(), l.meta.clone()),
        HeapData::Tuple(t) => (t.items.clone(), t.meta.clone()),
        HeapData::PySet(s) => (s.items.clone(), s.meta.clone()),
        _ => panic!("expected a list, tuple or set"),
    }
}

// === Error constructors ===

#[test]
fn unpack_size_error_distinguishes_too_few_and_too_many() {
    assert_eq!(kind(unpack_size_error(3, 2)), ErrorKind::NotEnoughValues { expected: 3, actual: 2 });
    assert_eq!(kind(unpack_size_error(2, 3)), ErrorKind::TooManyValues { expected: 2, actual: 3 });
    match unpack_size_error(3, 2) {
        RunError::Exception(e) => assert_eq!(e.exc_type, ExcType::ValueError),
        _ => panic!("expected an exception"),
    }
}

#[test]
fn unpack_ex_too_few_error_names_the_minimum() {
    assert_eq!(
        kind(unpack_ex_too_few_error(3, 1)),
        ErrorKind::NotEnoughValuesAtLeast { min: 3, actual: 1 }
    );
}

#[test]
fn unpack_type_error_names_the_type() {
    assert_eq!(kind(unpack_type_error(Type::Int)), ErrorKind::CannotUnpack(Type::Int));
    assert_eq!(Type::Int.name(), "int");
    assert_eq!(Type::NoneType.name(), "NoneType");
    assert_eq!(Type::Path.name(), "Path");
}

// === Unpacking ===

#[test]
fn unpack_sequence_pushes_first_item_on_top() {
    let mut vm = vm_with(&[]);
    let l = list(&mut vm, &[(Value::Int(1), 5), (Value::Int(2), 6), (Value::Int(3), 7)]);
    vm.push_with_meta(l, m(9));
    vm.unpack_sequence(3).unwrap();
    assert_eq!(vm.stack, vec![Value::Int(3), Value::Int(2), Value::Int(1)]);
    assert_eq!(vm.meta_stack, vec![m(7), m(6), m(5)]);
}

#[test]
fn unpack_sequence_too_few_values() {
    let mut vm = vm_with(&[]);
    let l = list(&mut vm, &[(Value::Int(1), 0), (Value::Int(2), 0)]);
    vm.push_with_meta(l, m(0));
    let e = vm.unpack_sequence(3).unwrap_err();
    assert_eq!(kind(e), ErrorKind::NotEnoughValues { expected: 3, actual: 2 });
    assert!(vm.stack.is_empty());
}

#[test]
fn unpack_sequence_too_many_values() {
    let mut vm = vm_with(&[]);
    let l = list(&mut vm, &[(Value::Int(1), 0), (Value::Int(2), 0), (Value::Int(3), 0)]);
    vm.push_with_meta(l, m(0));
    let e = vm.unpack_sequence(2).unwrap_err();
    assert_eq!(kind(e), ErrorKind::TooManyValues { expected: 2, actual: 3 });
}

#[test]
fn unpack_sequence_of_int_is_type_error() {
    let mut vm = vm_with(&[]);
    vm.push_with_meta(Value::Int(5), m(0));
    let e = vm.unpack_sequence(1).unwrap_err();
    assert_eq!(kind(e), ErrorKind::CannotUnpack(Type::Int));
}

#[test]
fn unpack_sequence_of_dict_is_type_error() {
    let mut vm = vm_with(&[]);
    let d = dict(&mut vm, &[]);
    vm.push_with_meta(d, m(0));
    let e = vm.unpack_sequence(0).unwrap_err();
    assert_eq!(kind(e), ErrorKind::CannotUnpack(Type::Dict));
}

#[test]
fn unpack_sequence_of_interned_string_gives_characters_with_its_metadata() {
    let mut vm = vm_with(&["xy"]);
    vm.push_with_meta(Value::InternString(StringId(0)), m(4));
    vm.unpack_sequence(2).unwrap();
    assert_eq!(vm.meta_stack, vec![m(4), m(4)]);
    assert_eq!(text_of(&vm, vm.stack[1]), "x");
    assert_eq!(text_of(&vm, vm.stack[0]), "y");
}

#[test]
fn unpack_ex_collects_middle_into_list() {
    // first, *rest, last = [1, 2, 3, 4, 5]
    let mut vm = vm_with(&[]);
    let l = list(
        &mut vm,
        &[(Value::Int(1), 1), (Value::Int(2), 2), (Value::Int(3), 3), (Value::Int(4), 4), (Value::Int(5), 5)],
    );
    vm.push_with_meta(l, m(0));
    vm.unpack_ex(1, 1).unwrap();
    assert_eq!(vm.stack.len(), 3);
    assert_eq!(vm.stack[2], Value::Int(1));
    assert_eq!(vm.meta_stack[2], m(1));
    assert_eq!(vm.stack[0], Value::Int(5));
    assert_eq!(vm.meta_stack[0], m(5));
    assert_eq!(vm.meta_stack[1], m(0));
    let (items, metas) = list_parts(&vm, vm.stack[1]);
    assert_eq!(items, vec![Value::Int(2), Value::Int(3), Value::Int(4)]);
    assert_eq!(metas, vec![m(2), m(3), m(4)]);
}

#[test]
fn unpack_ex_too_few_values() {
    let mut vm = vm_with(&[]);
    let l = list(&mut vm, &[(Value::Int(1), 0)]);
    vm.push_with_meta(l, m(0));
    let e = vm.unpack_ex(1, 1).unwrap_err();
    assert_eq!(kind(e), ErrorKind::NotEnoughValuesAtLeast { min: 2, actual: 1 });
}

#[test]
fn unpack_ex_of_bool_is_type_error() {
    let mut vm = vm_with(&[]);
    vm.push_with_meta(Value::Bool(true), m(0));
    let e = vm.unpack_ex(0, 0).unwrap_err();
    assert_eq!(kind(e), ErrorKind::CannotUnpack(Type::Bool));
}

// === Building collections ===

#[test]
fn build_list_and_tuple_keep_stack_order_and_metadata() {
    let mut vm = vm_with(&[]);
    vm.push_with_meta(Value::Int(1), m(1));
    vm.push_with_meta(Value::Int(2), m(2));
    vm.build_list(2).unwrap();
    let (items, metas) = list_parts(&vm, vm.stack[0]);
    assert_eq!(items, vec![Value::Int(1), Value::Int(2)]);
    assert_eq!(metas, vec![m(1), m(2)]);
    assert_eq!(vm.meta_stack, vec![m(0)]);
    vm.push_with_meta(Value::Int(3), m(3));
    vm.build_tuple(2).unwrap();
    let (items, metas) = list_parts(&vm, vm.stack[0]);
    assert_eq!(items.len(), 2);
    assert_eq!(items[1], Value::Int(3));
    assert_eq!(metas[1], m(3));
}

#[test]
fn build_dict_later_key_replaces_value_keeps_key_metadata() {
    let mut vm = vm_with(&[]);
    for (v, meta) in [(Value::Int(1), 1), (Value::Int(10), 2), (Value::Bool(true), 3), (Value::Int(20), 4)] {
        vm.push_with_meta(v, m(meta));
    }
    vm.build_dict(2).unwrap();
    let entries = dict_entries(&vm, vm.stack[0]);
    // True == 1, so the second pair replaces the value of the first
    assert_eq!(entries.len(), 1);
    assert_eq!(entries[0].key, Value::Int(1));
    assert_eq!(entries[0].key_meta, m(1));
    assert_eq!(entries[0].value, Value::Int(20));
    assert_eq!(entries[0].value_meta, m(4));
}

#[test]
fn build_dict_unhashable_key_is_type_error() {
    let mut vm = vm_with(&[]);
    let l = list(&mut vm, &[]);
    vm.push_with_meta(l, m(0));
    vm.push_with_meta(Value::Int(1), m(0));
    let heap_before = vm.heap.entries.len();
    let e = vm.build_dict(1).unwrap_err();
    assert_eq!(kind(e), ErrorKind::Unhashable(Type::List));
    assert_eq!(vm.heap.entries.len(), heap_before);
    assert!(vm.stack.is_empty());
}

#[test]
fn build_set_skips_equal_elements() {
    let mut vm = vm_with(&["a"]);
    let a = string(&mut vm, "a");
    for (v, meta) in [(Value::InternString(StringId(0)), 1), (a, 2), (Value::Int(0), 3), (Value::Bool(false), 4)] {
        vm.push_with_meta(v, m(meta));
    }
    vm.build_set(4).unwrap();
    let (items, metas) = list_parts(&vm, vm.stack[0]);
    assert_eq!(items, vec![Value::InternString(StringId(0)), Value::Int(0)]);
    assert_eq!(metas, vec![m(1), m(3)]);
}

#[test]
fn build_slice_reads_bounds() {
    let mut vm = vm_with(&[]);
    vm.push(Value::Int(1));
    vm.push(Value::NoneValue);
    vm.push(Value::Bool(true));
    vm.build_slice().unwrap();
    let Value::Ref(HeapId(i)) = vm.stack[0] else { panic!("expected a slice") };
    let HeapData::Slice(s) = &vm.heap.entries[i] else { panic!("expected a slice") };
    assert_eq!((s.start, s.stop, s.step), (Some(1), None, Some(1)));
}

#[test]
fn build_slice_rejects_non_integer_bound() {
    let mut vm = vm_with(&["x"]);
    vm.push(Value::Int(1));
    vm.push(Value::InternString(StringId(0)));
    vm.push(Value::NoneValue);
    let e = vm.build_slice().unwrap_err();
    assert_eq!(kind(e), ErrorKind::SliceIndices);
    assert_eq!(value_to_option_i64(&Value::Int(-4)).unwrap(), Some(-4));
}

// === PEP 448 literals ===

#[test]
fn list_extend_of_non_iterable_is_type_error() {
    let mut vm = vm_with(&[]);
    vm.build_list(0).unwrap();
    vm.push_with_meta(Value::Int(3), m(0));
    let e = vm.list_extend().unwrap_err();
    assert_eq!(kind(e), ErrorKind::ValueAfterStar(Type::Int));
    assert!(vm.stack.is_empty());
}

#[test]
fn list_extend_from_string_gives_characters_with_its_metadata() {
    let mut vm = vm_with(&[]);
    vm.build_list(0).unwrap();
    let s = string(&mut vm, "hi");
    vm.push_with_meta(s, m(8));
    vm.list_extend().unwrap();
    let (items, metas) = list_parts(&vm, vm.stack[0]);
    assert_eq!(metas, vec![m(8), m(8)]);
    assert_eq!(text_of(&vm, items[0]), "h");
    assert_eq!(text_of(&vm, items[1]), "i");
}

#[test]
fn list_extend_from_dict_gives_keys_the_dict_metadata() {
    let mut vm = vm_with(&[]);
    vm.build_list(0).unwrap();
    let d = dict(&mut vm, &[(Value::Int(1), 3, Value::Int(10), 4), (Value::Int(2), 5, Value::Int(20), 6)]);
    vm.push_with_meta(d, m(9));
    vm.list_extend().unwrap();
    let (items, metas) = list_parts(&vm, vm.stack[0]);
    assert_eq!(items, vec![Value::Int(1), Value::Int(2)]);
    assert_eq!(metas, vec![m(9), m(9)]);
}

#[test]
fn extracting_dict_keys_gives_them_the_iterable_metadata() {
    let mut vm = vm_with(&[]);
    let d = dict(&mut vm, &[(Value::Int(1), 3, Value::Int(10), 4)]);
    let (items, metas) = extract_items_with_meta(&d, m(7), &mut vm, IterError::NotIterable).unwrap();
    assert_eq!((items, metas), (vec![Value::Int(1)], vec![m(7)]));
}

#[test]
fn list_to_tuple_of_non_list_is_internal_error() {
    let mut vm = vm_with(&[]);
    vm.push(Value::Int(1));
    assert_eq!(
        vm.list_to_tuple().unwrap_err(),
        RunError::Internal(InternalError::ListToTupleExpectedListRef)
    );
    let d = dict(&mut vm, &[]);
    vm.push(d);
    assert_eq!(
        vm.list_to_tuple().unwrap_err(),
        RunError::Internal(InternalError::ListToTupleExpectedList)
    );
}

#[test]
fn dict_update_overwrites_silently() {
    let mut vm = vm_with(&[]);
    let target = dict(&mut vm, &[(Value::Int(1), 1, Value::Int(10), 2)]);
    vm.push(target);
    let src = dict(&mut vm, &[(Value::Int(1), 3, Value::Int(11), 4), (Value::Int(2), 5, Value::Int(20), 6)]);
    vm.push(src);
    vm.dict_update(0).unwrap();
    let entries = dict_entries(&vm, vm.stack[0]);
    assert_eq!(entries.len(), 2);
    assert_eq!((entries[0].value, entries[0].value_meta, entries[0].key_meta), (Value::Int(11), m(4), m(1)));
    assert_eq!((entries[1].key, entries[1].value), (Value::Int(2), Value::Int(20)));
}

#[test]
fn dict_update_with_non_mapping_is_type_error() {
    let mut vm = vm_with(&[]);
    vm.build_dict(0).unwrap();
    let l = list(&mut vm, &[]);
    vm.push(l);
    let e = vm.dict_update(0).unwrap_err();
    assert_eq!(kind(e), ErrorKind::NotMapping(Type::List));
}

#[test]
fn set_extend_adds_new_items_only() {
    let mut vm = vm_with(&[]);
    vm.push_with_meta(Value::Int(1), m(1));
    vm.build_set(1).unwrap();
    let l = list(&mut vm, &[(Value::Int(1), 2), (Value::Int(2), 3)]);
    vm.push(l);
    vm.set_extend(0).unwrap();
    let (items, metas) = list_parts(&vm, vm.stack[0]);
    assert_eq!(items, vec![Value::Int(1), Value::Int(2)]);
    assert_eq!(metas, vec![m(1), m(3)]);
}

#[test]
fn set_extend_of_non_iterable_is_type_error() {
    let mut vm = vm_with(&[]);
    vm.build_set(0).unwrap();
    vm.push(Value::NoneValue);
    let e = vm.set_extend(0).unwrap_err();
    assert_eq!(kind(e), ErrorKind::NotIterable(Type::NoneType));
}

#[test]
fn set_extend_with_unhashable_item_keeps_earlier_items() {
    let mut vm = vm_with(&[]);
    vm.build_set(0).unwrap();
    let inner = list(&mut vm, &[]);
    let l = list(&mut vm, &[(Value::Int(7), 1), (inner, 2), (Value::Int(8), 3)]);
    vm.push(l);
    let e = vm.set_extend(0).unwrap_err();
    assert_eq!(kind(e), ErrorKind::Unhashable(Type::List));
    let (items, _) = list_parts(&vm, vm.stack[0]);
    assert_eq!(items, vec![Value::Int(7)]);
}

// === Comprehensions ===

#[test]
fn comprehension_appends_reach_the_container_below_the_iterators() {
    let mut vm = vm_with(&[]);
    vm.build_list(0).unwrap();
    vm.push(Value::NoneValue); // an iterator
    vm.push_with_meta(Value::Int(4), m(2));
    vm.list_append(1).unwrap();
    let (items, metas) = list_parts(&vm, vm.stack[0]);
    assert_eq!((items, metas), (vec![Value::Int(4)], vec![m(2)]));

    let mut vm = vm_with(&[]);
    vm.build_set(0).unwrap();
    vm.push_with_meta(Value::Int(4), m(2));
    vm.set_add(0).unwrap();
    vm.push_with_meta(Value::Int(4), m(3));
    vm.set_add(0).unwrap();
    let (items, metas) = list_parts(&vm, vm.stack[0]);
    assert_eq!((items, metas), (vec![Value::Int(4)], vec![m(2)]));

    let mut vm = vm_with(&[]);
    vm.build_dict(0).unwrap();
    vm.push_with_meta(Value::Int(1), m(1));
    vm.push_with_meta(Value::Int(2), m(2));
    vm.dict_set_item(0).unwrap();
    let entries = dict_entries(&vm, vm.stack[0]);
    assert_eq!((entries[0].key, entries[0].value, entries[0].value_meta), (Value::Int(1), Value::Int(2), m(2)));
}

#[test]
fn comprehension_errors() {
    let mut vm = vm_with(&[]);
    vm.push(Value::Int(0));
    vm.push(Value::Int(1));
    assert_eq!(
        vm.list_append(0).unwrap_err(),
        RunError::Internal(InternalError::ListAppendExpectedListRef)
    );
    let mut vm = vm_with(&[]);
    vm.build_set(0).unwrap();
    let l = list(&mut vm, &[]);
    vm.push(l);
    assert_eq!(kind(vm.set_add(0).unwrap_err()), ErrorKind::Unhashable(Type::List));
    let mut vm = vm_with(&[]);
    vm.build_list(0).unwrap();
    vm.push(Value::Int(1));
    vm.push(Value::Int(2));
    assert_eq!(
        vm.dict_set_item(0).unwrap_err(),
        RunError::Internal(InternalError::DictSetItemExpectedDict)
    );
}

// === **kwargs ===

#[test]
fn dict_merge_copies_entries() {
    let mut vm = vm_with(&["f", "a", "b"]);
    vm.build_dict(0).unwrap();
    let src = dict(
        &mut vm,
        &[(Value::InternString(StringId(1)), 1, Value::Int(1), 2), (Value::InternString(StringId(2)), 3, Value::Int(2), 4)],
    );
    vm.push(src);
    vm.dict_merge(0).unwrap();
    let entries = dict_entries(&vm, vm.stack[0]);
    assert_eq!(entries.len(), 2);
    assert_eq!((entries[1].value, entries[1].value_meta), (Value::Int(2), m(4)));
}

#[test]
fn dict_merge_rejects_duplicate_keyword() {
    let mut vm = vm_with(&["f", "a"]);
    let target = dict(&mut vm, &[(Value::InternString(StringId(1)), 0, Value::Int(1), 0)]);
    vm.push(target);
    let a = string(&mut vm, "a");
    let src = dict(&mut vm, &[(a, 0, Value::Int(2), 0)]);
    vm.push(src);
    let e = vm.dict_merge(0).unwrap_err();
    assert_eq!(kind(e), ErrorKind::MultipleValues { func: "f".to_string(), key: "a".to_string() });
    assert!(vm.stack.is_empty());
}

#[test]
fn dict_merge_rejects_non_string_key_and_non_mapping() {
    let mut vm = vm_with(&[]);
    vm.build_dict(0).unwrap();
    let src = dict(&mut vm, &[(Value::Int(1), 0, Value::Int(2), 0)]);
    vm.push(src);
    assert_eq!(kind(vm.dict_merge(0xFFFF).unwrap_err()), ErrorKind::KwargsNonStringKey);

    let mut vm = vm_with(&[]);
    vm.build_dict(0).unwrap();
    vm.push(Value::Int(3));
    assert_eq!(
        kind(vm.dict_merge(0xFFFF).unwrap_err()),
        ErrorKind::KwargsNotMapping { func: "<unknown>".to_string(), ty: Type::Int }
    );
}

// === Iteration ===

#[test]
fn extract_items_reports_the_requested_error() {
    let mut vm = vm_with(&[]);
    let e = extract_items_with_meta(&Value::Int(1), m(0), &mut vm, IterError::ValueAfterStar).unwrap_err();
    assert_eq!(kind(e), ErrorKind::ValueAfterStar(Type::Int));
    let e = extract_items_with_meta(&Value::Int(1), m(0), &mut vm, IterError::NotIterable).unwrap_err();
    assert_eq!(kind(e), ErrorKind::NotIterable(Type::Int));
}

#[test]
fn extract_items_of_set_keep_element_metadata() {
    let mut vm = vm_with(&[]);
    let s = Value::Ref(vm.allocate(HeapData::PySet(PySet { items: vec![Value::Int(3)], meta: vec![m(6)] })));
    let (items, metas) = extract_items_with_meta(&s, m(1), &mut vm, IterError::NotIterable).unwrap();
    assert_eq!((items, metas), (vec![Value::Int(3)], vec![m(6)]));
}

// === Builtins ===

#[test]
fn builtin_all_checks_truthiness() {
    let mut vm = vm_with(&[""]);
    let l = list(&mut vm, &[(Value::Int(1), 0), (Value::Bool(true), 0)]);
    assert_eq!(builtin_all(&mut vm, ArgValues { positional: vec![l] }).unwrap(), Value::Bool(true));
    let l = list(&mut vm, &[(Value::Int(1), 0), (Value::InternString(StringId(0)), 0)]);
    assert_eq!(builtin_all(&mut vm, ArgValues { positional: vec![l] }).unwrap(), Value::Bool(false));
    let empty = list(&mut vm, &[]);
    assert_eq!(builtin_all(&mut vm, ArgValues { positional: vec![empty] }).unwrap(), Value::Bool(true));
    let inner = list(&mut vm, &[]);
    let l = list(&mut vm, &[(inner, 0)]);
    assert_eq!(builtin_all(&mut vm, ArgValues { positional: vec![l] }).unwrap(), Value::Bool(false));
}

#[test]
fn builtin_all_errors() {
    let mut vm = vm_with(&[]);
    let e = builtin_all(&mut vm, ArgValues { positional: vec![] }).unwrap_err();
    assert_eq!(kind(e), ErrorKind::ExactlyOneArgument { func: "all".to_string(), given: 0 });
    let e = builtin_all(&mut vm, ArgValues { positional: vec![Value::Int(1)] }).unwrap_err();
    assert_eq!(kind(e), ErrorKind::NotIterable(Type::Int));
}

#[test]
fn builtin_enumerate_pairs_indexes_with_items() {
    let mut vm = vm_with(&[]);
    vm.pending_arg_metadata = vec![m(9)];
    let l = list(&mut vm, &[(Value::Int(10), 4), (Value::Int(20), 5)]);
    let r = builtin_enumerate(&mut vm, ArgValues { positional: vec![l, Value::Int(3)] }).unwrap();
    let (pairs, pair_metas) = list_parts(&vm, r);
    assert_eq!(pair_metas, vec![m(0), m(0)]);
    let (t0, t0m) = list_parts(&vm, pairs[0]);
    let (t1, t1m) = list_parts(&vm, pairs[1]);
    assert_eq!((t0, t0m), (vec![Value::Int(3), Value::Int(10)], vec![m(0), m(4)]));
    assert_eq!((t1, t1m), (vec![Value::Int(4), Value::Int(20)], vec![m(0), m(5)]));
}

#[test]
fn builtin_enumerate_of_string_gives_string_metadata_to_characters() {
    let mut vm = vm_with(&[]);
    vm.pending_arg_metadata = vec![m(7)];
    let s = string(&mut vm, "ab");
    let r = builtin_enumerate(&mut vm, ArgValues { positional: vec![s] }).unwrap();
    let (pairs, _) = list_parts(&vm, r);
    let (t1, t1m) = list_parts(&vm, pairs[1]);
    assert_eq!(t1[0], Value::Int(1));
    assert_eq!(text_of(&vm, t1[1]), "b");
    assert_eq!(t1m, vec![m(0), m(7)]);
}

#[test]
fn builtin_enumerate_errors() {
    let mut vm = vm_with(&[]);
    let e = builtin_enumerate(&mut vm, ArgValues { positional: vec![] }).unwrap_err();
    assert_eq!(kind(e), ErrorKind::OneOrTwoArguments { func: "enumerate".to_string(), given: 0 });
    let e = builtin_enumerate(&mut vm, ArgValues { positional: vec![Value::Int(1), Value::Int(0)] }).unwrap_err();
    assert_eq!(kind(e), ErrorKind::NotIterable(Type::Int));
    let l = list(&mut vm, &[]);
    let e = builtin_enumerate(&mut vm, ArgValues { positional: vec![l, Value::NoneValue] }).unwrap_err();
    assert_eq!(kind(e), ErrorKind::NotAnInteger(Type::NoneType));
}

fn next_of(vm: &mut VM, args: Vec<Value>) -> Result<Value, RunError> {
    builtin_next(vm, ArgValues { positional: args })
}

fn iter_over(vm: &mut VM, v: Value, meta: u32) -> Value {
    vm.push_with_meta(v, m(meta));
    vm.get_iter().unwrap();
    vm.meta_stack.pop();
    vm.stack.pop().unwrap()
}

#[test]
fn get_iter_wraps_iterables_and_keeps_iterators() {
    let mut vm = vm_with(&[]);
    let l = list(&mut vm, &[(Value::Int(1), 2)]);
    vm.push_with_meta(l, m(5));
    vm.get_iter().unwrap();
    let it = *vm.stack.last().unwrap();
    assert_eq!(vm.meta_stack, vec![m(5)]);
    let Value::Ref(HeapId(i)) = it else { panic!("expected an iterator") };
    let HeapData::Iter(state) = &vm.heap.entries[i] else { panic!("expected an iterator") };
    assert_eq!((state.source, state.source_meta, state.index), (l, m(5), 0));
    let slots = vm.heap.entries.len();
    vm.get_iter().unwrap();
    assert_eq!(vm.stack, vec![it]);
    assert_eq!(vm.heap.entries.len(), slots);
    vm.push(Value::Int(3));
    assert_eq!(kind(vm.get_iter().unwrap_err()), ErrorKind::NotIterable(Type::Int));
    assert_eq!(vm.stack, vec![it]);
}

#[test]
fn builtin_next_walks_a_list_with_element_metadata() {
    let mut vm = vm_with(&[]);
    let l = list(&mut vm, &[(Value::Int(10), 3), (Value::Int(20), 4)]);
    let it = iter_over(&mut vm, l, 1);
    assert_eq!(next_of(&mut vm, vec![it]).unwrap(), Value::Int(10));
    assert_eq!(vm.pending_result_metadata, m(3));
    assert_eq!(next_of(&mut vm, vec![it]).unwrap(), Value::Int(20));
    assert_eq!(vm.pending_result_metadata, m(4));
    let e = next_of(&mut vm, vec![it]).unwrap_err();
    assert_eq!(
        e,
        RunError::Exception(SimpleException { exc_type: ExcType::StopIteration, kind: ErrorKind::StopIteration })
    );
    assert_eq!(vm.pending_result_metadata, m(4));
}

#[test]
fn builtin_next_default_carries_its_own_metadata() {
    let mut vm = vm_with(&[]);
    let l = list(&mut vm, &[]);
    let it = iter_over(&mut vm, l, 0);
    vm.pending_arg_metadata = vec![m(1), m(8)];
    assert_eq!(next_of(&mut vm, vec![it, Value::NoneValue]).unwrap(), Value::NoneValue);
    assert_eq!(vm.pending_result_metadata, m(8));
}

#[test]
fn builtin_next_sees_items_appended_later() {
    let mut vm = vm_with(&[]);
    let l = list(&mut vm, &[(Value::Int(1), 0)]);
    let it = iter_over(&mut vm, l, 0);
    assert_eq!(next_of(&mut vm, vec![it]).unwrap(), Value::Int(1));
    let Value::Ref(HeapId(i)) = l else { panic!("expected a list") };
    if let HeapData::List(lst) = &mut vm.heap.entries[i] {
        lst.items.push(Value::Int(2));
        lst.meta.push(m(6));
    }
    assert_eq!(next_of(&mut vm, vec![it]).unwrap(), Value::Int(2));
    assert_eq!(vm.pending_result_metadata, m(6));
}

#[test]
fn builtin_next_of_string_and_dict() {
    let mut vm = vm_with(&["xy"]);
    let it = iter_over(&mut vm, Value::InternString(StringId(0)), 7);
    let c = next_of(&mut vm, vec![it]).unwrap();
    assert_eq!(text_of(&vm, c), "x");
    assert_eq!(vm.pending_result_metadata, m(7));
    let d = dict(&mut vm, &[(Value::Int(5), 2, Value::Int(50), 3)]);
    let it = iter_over(&mut vm, d, 6);
    assert_eq!(next_of(&mut vm, vec![it]).unwrap(), Value::Int(5));
    assert_eq!(vm.pending_result_metadata, m(6));
}

#[test]
fn builtin_all_of_iterator_stops_after_first_false_item() {
    let mut vm = vm_with(&[]);
    let l = list(&mut vm, &[(Value::Int(1), 0), (Value::Int(0), 0), (Value::Int(2), 5)]);
    let it = iter_over(&mut vm, l, 0);
    assert_eq!(builtin_all(&mut vm, ArgValues { positional: vec![it] }).unwrap(), Value::Bool(false));
    assert_eq!(next_of(&mut vm, vec![it]).unwrap(), Value::Int(2));
    assert_eq!(vm.pending_result_metadata, m(5));
    assert_eq!(builtin_all(&mut vm, ArgValues { positional: vec![it] }).unwrap(), Value::Bool(true));
}

#[test]
fn builtin_enumerate_of_iterator_takes_what_is_left() {
    let mut vm = vm_with(&[]);
    let l = list(&mut vm, &[(Value::Int(10), 1), (Value::Int(20), 2), (Value::Int(30), 3)]);
    let it = iter_over(&mut vm, l, 0);
    assert_eq!(next_of(&mut vm, vec![it]).unwrap(), Value::Int(10));
    let r = builtin_enumerate(&mut vm, ArgValues { positional: vec![it, Value::Int(5)] }).unwrap();
    let (pairs, _) = list_parts(&vm, r);
    assert_eq!(pairs.len(), 2);
    let (t0, t0m) = list_parts(&vm, pairs[0]);
    let (t1, t1m) = list_parts(&vm, pairs[1]);
    assert_eq!((t0, t0m), (vec![Value::Int(5), Value::Int(20)], vec![m(0), m(2)]));
    assert_eq!((t1, t1m), (vec![Value::Int(6), Value::Int(30)], vec![m(0), m(3)]));
    let e = next_of(&mut vm, vec![it]).unwrap_err();
    assert_eq!(kind(e), ErrorKind::StopIteration);
}

#[test]
fn builtin_enumerate_of_iterator_checks_start_before_moving_it() {
    let mut vm = vm_with(&[]);
    let l = list(&mut vm, &[(Value::Int(10), 1)]);
    let it = iter_over(&mut vm, l, 0);
    let e = builtin_enumerate(&mut vm, ArgValues { positional: vec![it, Value::NoneValue] }).unwrap_err();
    assert_eq!(kind(e), ErrorKind::NotAnInteger(Type::NoneType));
    assert_eq!(next_of(&mut vm, vec![it]).unwrap(), Value::Int(10));
}

#[test]
fn builtin_enumerate_of_string_iterator_gives_characters_its_metadata() {
    let mut vm = vm_with(&["ab"]);
    let it = iter_over(&mut vm, Value::InternString(StringId(0)), 4);
    let r = builtin_enumerate(&mut vm, ArgValues { positional: vec![it] }).unwrap();
    let (pairs, _) = list_parts(&vm, r);
    let (t1, t1m) = list_parts(&vm, pairs[1]);
    assert_eq!(text_of(&vm, t1[1]), "b");
    assert_eq!(t1m, vec![m(0), m(4)]);
}

#[test]
fn star_extend_takes_what_an_iterator_has_left() {
    let mut vm = vm_with(&[]);
    let l = list(&mut vm, &[(Value::Int(1), 1), (Value::Int(2), 2), (Value::Int(3), 3)]);
    let it = iter_over(&mut vm, l, 0);
    assert_eq!(next_of(&mut vm, vec![it]).unwrap(), Value::Int(1));
    vm.build_list(0).unwrap();
    vm.push_with_meta(it, m(0));
    vm.list_extend().unwrap();
    let (items, metas) = list_parts(&vm, vm.stack[0]);
    assert_eq!((items, metas), (vec![Value::Int(2), Value::Int(3)], vec![m(2), m(3)]));
    assert_eq!(kind(next_of(&mut vm, vec![it]).unwrap_err()), ErrorKind::StopIteration);
    vm.build_set(0).unwrap();
    let l2 = list(&mut vm, &[(Value::Int(4), 4)]);
    let it2 = iter_over(&mut vm, l2, 0);
    vm.push_with_meta(it2, m(0));
    vm.set_extend(0).unwrap();
    let (items, metas) = list_parts(&vm, *vm.stack.last().unwrap());
    assert_eq!((items, metas), (vec![Value::Int(4)], vec![m(4)]));
}

#[test]
fn builtin_next_errors() {
    let mut vm = vm_with(&[]);
    let e = next_of(&mut vm, vec![]).unwrap_err();
    assert_eq!(kind(e), ErrorKind::OneOrTwoArguments { func: "next".to_string(), given: 0 });
    let l = list(&mut vm, &[]);
    let e = next_of(&mut vm, vec![l]).unwrap_err();
    assert_eq!(kind(e), ErrorKind::NotAnIterator(Type::List));
    let e = next_of(&mut vm, vec![Value::Int(1), Value::Int(2), Value::Int(3)]).unwrap_err();
    assert_eq!(kind(e), ErrorKind::OneOrTwoArguments { func: "next".to_string(), given: 3 });
}

fn message(e: RunError) -> String {
    match e {
        RunError::Exception(ex) => ex.message(),
        RunError::Internal(i) => panic!("unexpected internal error {i:?}"),
    }
}

#[test]
fn error_messages_read_as_python_writes_them() {
    assert_eq!(message(unpack_size_error(3, 2)), "not enough values to unpack (expected 3, got 2)");
    assert_eq!(message(unpack_size_error(2, 13)), "too many values to unpack (expected 2, got 13)");
    assert_eq!(message(unpack_ex_too_few_error(2, 0)), "not enough values to unpack (expected at least 2, got 0)");
    assert_eq!(message(unpack_type_error(Type::Int)), "cannot unpack non-iterable int object");
    let kinds = vec![
        (ErrorKind::NotMapping(Type::List), "'list' object is not a mapping"),
        (
            ErrorKind::KwargsNotMapping { func: "f".to_string(), ty: Type::Int },
            "f() argument after ** must be a mapping, not int",
        ),
        (ErrorKind::KwargsNonStringKey, "keywords must be strings"),
        (
            ErrorKind::MultipleValues { func: "g".to_string(), key: "x".to_string() },
            "g() got multiple values for keyword argument 'x'",
        ),
        (ErrorKind::ValueAfterStar(Type::NoneType), "Value after * must be an iterable, not NoneType"),
        (ErrorKind::NotIterable(Type::Bool), "'bool' object is not iterable"),
        (ErrorKind::NotAnIterator(Type::Tuple), "'tuple' object is not an iterator"),
        (ErrorKind::Unhashable(Type::Dict), "unhashable type: 'dict'"),
        (ErrorKind::SliceIndices, "slice indices must be integers or None or have an __index__ method"),
        (ErrorKind::NotAnInteger(Type::Str), "'str' object cannot be interpreted as an integer"),
        (
            ErrorKind::ExactlyOneArgument { func: "all".to_string(), given: 2 },
            "all() takes exactly one argument (2 given)",
        ),
        (
            ErrorKind::OneOrTwoArguments { func: "next".to_string(), given: 0 },
            "next expected at least 1 argument, got 0",
        ),
        (
            ErrorKind::OneOrTwoArguments { func: "enumerate".to_string(), given: 3 },
            "enumerate expected at most 2 arguments, got 3",
        ),
        (ErrorKind::StopIteration, ""),
    ];
    for (kind, text) in kinds {
        let ex = SimpleException { exc_type: ExcType::TypeError, kind };
        assert_eq!(ex.message(), text);
        let public = ex.to_monty_exception();
        assert_eq!((public.exc_type, public.message.as_str()), (ExcType::TypeError, text));
    }
}

// === Modules ===

#[test]
fn datetime_module_has_its_types() {
    let mut vm = vm_with(&[]);
    let id = monty::modules::datetime::create_module(&mut vm).unwrap();
    let HeapData::Module(module) = &vm.heap.entries[id.0] else { panic!("expected a module") };
    assert_eq!(module.name, StaticStrings::Datetime);
    assert_eq!(
        module.attrs,
        vec![
            (StaticStrings::Date, Value::Builtin(Builtins::Type(Type::Date))),
            (StaticStrings::Datetime, Value::Builtin(Builtins::Type(Type::DateTime))),
            (StaticStrings::Timedelta, Value::Builtin(Builtins::Type(Type::TimeDelta))),
            (StaticStrings::Timezone, Value::Builtin(Builtins::Type(Type::TimeZone))),
        ]
    );
}

#[test]
fn pathlib_module_has_path() {
    let mut vm = vm_with(&[]);
    let id = monty::modules::pathlib::create_module(&mut vm).unwrap();
    let HeapData::Module(module) = &vm.heap.entries[id.0] else { panic!("expected a module") };
    assert_eq!(module.name, StaticStrings::Pathlib);
    assert_eq!(module.attrs, vec![(StaticStrings::PathClass, Value::Builtin(Builtins::Type(Type::Path)))]);
}

// === Printing ===

fn plain(value: MontyObject) -> AnnotatedObject {
    AnnotatedObject::new(value, None)
}

#[test]
fn repr_and_str_of_objects() {
    assert_eq!(py_repr(&MontyObject::NoneValue), "None");
    assert_eq!(py_repr(&MontyObject::Bool(false)), "False");
    assert_eq!(py_repr(&MontyObject::Int(-120)), "-120");
    assert_eq!(py_repr(&MontyObject::Int(i64::MIN)), "-9223372036854775808");
    assert_eq!(py_repr(&MontyObject::String("it's".to_string())), "\"it's\"");
    assert_eq!(py_repr(&MontyObject::String("a'b\"\n".to_string())), "'a\\'b\"\\n'");
    assert_eq!(py_str(&MontyObject::String("plain".to_string())), "plain");
    let list = MontyObject::List(vec![plain(MontyObject::Int(1)), plain(MontyObject::String("x".to_string()))]);
    assert_eq!(py_str(&list), "[1, 'x']");
    assert_eq!(py_repr(&MontyObject::Tuple(vec![plain(MontyObject::Int(1))])), "(1,)");
    assert_eq!(py_repr(&MontyObject::Tuple(vec![])), "()");
    let dict = MontyObject::Dict(AnnotatedDictPairs(vec![(
        plain(MontyObject::String("k".to_string())),
        plain(MontyObject::Bool(true)),
    )]));
    assert_eq!(py_repr(&dict), "{'k': True}");
}

#[test]
fn structured_parts_interleave_separator() {
    let objects = vec![plain(MontyObject::Int(1)), plain(MontyObject::String("a".to_string()))];
    assert_eq!(structured_parts(&objects, ", ", "!\n"), vec!["1", ", ", "a", "!\n"]);
    assert_eq!(structured_parts(&vec![], " ", "\n"), vec!["\n"]);
}

/// A callback that records what it is handed, and can refuse to write.
struct Recorder {
    log: Vec<String>,
    structured: bool,
    refuse: bool,
}

impl PrintWriterCallback for Recorder {
    fn stdout_write(&mut self, output: &str) -> Result<(), MontyException> {
        if self.refuse {
            return Err(MontyException { exc_type: ExcType::ValueError, message: "closed".to_string() });
        }
        self.log.push(output.to_string());
        Ok(())
    }

    fn stdout_push(&mut self, end: char) -> Result<(), MontyException> {
        self.log.push(end.to_string());
        Ok(())
    }

    fn wants_structured(&self) -> bool {
        self.structured
    }
}

/// A callback that accepts a number of writes and refuses the rest.
struct FailAfter {
    log: Vec<String>,
    left: usize,
}

impl PrintWriterCallback for FailAfter {
    fn stdout_write(&mut self, output: &str) -> Result<(), MontyException> {
        if self.left == 0 {
            return Err(MontyException { exc_type: ExcType::ValueError, message: format!("refused {output}") });
        }
        self.left -= 1;
        self.log.push(output.to_string());
        Ok(())
    }

    fn stdout_push(&mut self, end: char) -> Result<(), MontyException> {
        self.log.push(end.to_string());
        Ok(())
    }
}

#[test]
fn default_structured_write_stops_at_first_error() {
    let objects = vec![plain(MontyObject::Int(1)), plain(MontyObject::Int(2))];
    let mut cb = FailAfter { log: vec![], left: 2 };
    let e = cb.stdout_write_structured(objects, "-", "\n").unwrap_err();
    assert_eq!(e.message, "refused 2");
    assert_eq!(cb.log, vec!["1", "-"]);
    let mut cb = FailAfter { log: vec![], left: 10 };
    cb.stdout_write_structured(vec![plain(MontyObject::Int(1)), plain(MontyObject::Int(2))], "-", "\n").unwrap();
    assert_eq!(cb.log, vec!["1", "-", "2", "\n"]);
}

#[test]
fn print_route_refuses_both_callbacks() {
    assert_eq!(
        choose_print_route(true, true),
        Err("cannot specify both 'print_callback' and 'structured_print_callback'".to_string())
    );
    assert_eq!(choose_print_route(false, true), Ok(PrintRoute::Structured));
    assert_eq!(choose_print_route(true, false), Ok(PrintRoute::Plain));
    assert_eq!(choose_print_route(false, false), Ok(PrintRoute::Plain));
}

#[test]
fn collect_writer_appends_text_and_characters() {
    let mut out = String::from(">");
    {
        let mut w: PrintWriter<Recorder> = PrintWriter::Collect(&mut out);
        w.stdout_write("a").unwrap();
        w.stdout_push(' ').unwrap();
        {
            let mut again = w.reborrow();
            again.stdout_write("b").unwrap();
        }
        w.stdout_push('\n').unwrap();
        assert!(!w.wants_structured());
    }
    assert_eq!(out, ">a b\n");
}

#[test]
fn disabled_writer_discards_output() {
    let mut w: PrintWriter<Recorder> = PrintWriter::Disabled;
    assert!(w.stdout_write("x").is_ok());
    assert!(w.stdout_push('y').is_ok());
    assert!(matches!(w.reborrow(), PrintWriter::Disabled));
}

#[test]
fn callback_writer_delegates() {
    let mut rec = Recorder { log: vec![], structured: true, refuse: false };
    {
        let mut w = PrintWriter::Callback(&mut rec);
        assert!(w.wants_structured());
        w.stdout_write("hi").unwrap();
        w.stdout_push('!').unwrap();
        let objects = vec![plain(MontyObject::Int(1)), plain(MontyObject::String("a".to_string()))];
        w.stdout_write_structured(objects, "-", ".").unwrap();
    }
    assert_eq!(rec.log, vec!["hi", "!", "1", "-", "a", "."]);
    let mut refusing = Recorder { log: vec![], structured: false, refuse: true };
    let mut w = PrintWriter::Callback(&mut refusing);
    assert_eq!(w.stdout_write("z").unwrap_err().message, "closed");
    assert!(w.stdout_write_structured(vec![plain(MontyObject::Int(1))], " ", "\n").is_err());
}

#[test]
fn build_then_unpack_gives_values_back_with_their_metadata() {
    let mut vm = vm_with(&[]);
    vm.push_with_meta(Value::Int(7), m(0));
    vm.push_with_meta(Value::Int(1), m(3));
    vm.push_with_meta(Value::Bool(true), m(4));
    vm.build_list(2).unwrap();
    vm.unpack_sequence(2).unwrap();
    assert_eq!(vm.stack, vec![Value::Int(7), Value::Bool(true), Value::Int(1)]);
    assert_eq!(vm.meta_stack, vec![m(0), m(4), m(3)]);
    vm.build_tuple(3).unwrap();
    vm.unpack_sequence(3).unwrap();
    assert_eq!(vm.stack, vec![Value::Int(1), Value::Bool(true), Value::Int(7)]);
    assert_eq!(vm.meta_stack, vec![m(3), m(4), m(0)]);
}

#[test]
fn tuple_builder_accepts_tuples() {
    let mut vm = vm_with(&[]);
    let t = Value::Ref(vm.allocate(HeapData::Tuple(Tuple { items: vec![Value::Int(1)], meta: vec![m(2)] })));
    vm.push_with_meta(t, m(0));
    vm.unpack_sequence(1).unwrap();
    assert_eq!((vm.stack[0], vm.meta_stack[0]), (Value::Int(1), m(2)));
}

//! The `pathlib` module: the `Path` class.
use vstd::prelude::*;
use crate::heap::{HeapData, Module, StaticStrings};
use crate::value::{Value, Builtins, Type, HeapId};
use crate::vm::VM;
use crate::modules::datetime::ModuleResult;

verus! {

/// The attributes of the `pathlib` module.
pub open spec fn pathlib_attrs() -> Seq<(StaticStrings, Value)> {
    seq![(StaticStrings::PathClass, Value::Builtin(Builtins::Type(Type::Path)))]
}

/// Creates the `pathlib` module and allocates it on the heap.
pub fn create_module(vm: &mut VM) -> (r: ModuleResult)
    requires
        old(vm).wf(),
    ensures
        final(vm).wf(),
        r == ModuleResult::Ok(HeapId(old(vm).hlen() as usize)),
        final(vm).heap.entries@.len() == old(vm).hlen() + 1,
        final(vm).heap.entries@.subrange(0, old(vm).hlen()) == old(vm).heap.entries@,
        final(vm).heap.entries@.last() is Module,
        final(vm).heap.entries@.last()->Module_0.name == StaticStrings::Pathlib,
        final(vm).heap.entries@.last()->Module_0.attrs@ == pathlib_attrs(),
        final(vm).stack == old(vm).stack,
        final(vm).meta_stack == old(vm).meta_stack,
        final(vm).interns == old(vm).interns,
{
    let mut module = Module::new(StaticStrings::Pathlib);
    module.set_attr(StaticStrings::PathClass, Value::Builtin(Builtins::Type(Type::Path)));
    proof {
        assert(module.attrs@ =~= pathlib_attrs());
    }
    let id = vm.allocate(HeapData::Module(module));
    proof {
        assert(vm.heap.entries@.subrange(0, old(vm).hlen()) =~= old(vm).heap.entries@);
    }
    Ok(id)
}

} // verus!

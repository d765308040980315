//! The `datetime` module: `date`, `datetime`, `timedelta` and `timezone`.
use vstd::prelude::*;
use crate::heap::{HeapData, Module, StaticStrings};
use crate::value::{Value, Builtins, Type, HeapId};
use crate::vm::VM;
use crate::exceptions::RunError;

verus! {

/// The result of creating a module: the heap slot holding it.
pub type ModuleResult = Result<HeapId, RunError>;

/// The attributes of the `datetime` module, in the order they are set.
pub open spec fn datetime_attrs() -> Seq<(StaticStrings, Value)> {
    seq![
        (StaticStrings::Date, Value::Builtin(Builtins::Type(Type::Date))),
        (StaticStrings::Datetime, Value::Builtin(Builtins::Type(Type::DateTime))),
        (StaticStrings::Timedelta, Value::Builtin(Builtins::Type(Type::TimeDelta))),
        (StaticStrings::Timezone, Value::Builtin(Builtins::Type(Type::TimeZone))),
    ]
}

/// Creates the `datetime` module and allocates it on the heap.
pub fn create_module(vm: &mut VM) -> (r: ModuleResult)
    requires
        old(vm).wf(),
    ensures
        final(vm).wf(),
        r == ModuleResult::Ok(HeapId(old(vm).hlen() as usize)),
        final(vm).heap.entries@.len() == old(vm).hlen() + 1,
        final(vm).heap.entries@.subrange(0, old(vm).hlen()) == old(vm).heap.entries@,
        final(vm).heap.entries@.last() is Module,
        final(vm).heap.entries@.last()->Module_0.name == StaticStrings::Datetime,
        final(vm).heap.entries@.last()->Module_0.attrs@ == datetime_attrs(),
        final(vm).stack == old(vm).stack,
        final(vm).meta_stack == old(vm).meta_stack,
        final(vm).interns == old(vm).interns,
{
    let mut module = Module::new(StaticStrings::Datetime);
    module.set_attr(StaticStrings::Date, Value::Builtin(Builtins::Type(Type::Date)));
    module.set_attr(StaticStrings::Datetime, Value::Builtin(Builtins::Type(Type::DateTime)));
    module.set_attr(StaticStrings::Timedelta, Value::Builtin(Builtins::Type(Type::TimeDelta)));
    module.set_attr(StaticStrings::Timezone, Value::Builtin(Builtins::Type(Type::TimeZone)));
    proof {
        assert(module.attrs@ =~= datetime_attrs());
    }
    let id = vm.allocate(HeapData::Module(module));
    proof {
        assert(vm.heap.entries@.subrange(0, old(vm).hlen()) =~= old(vm).heap.entries@);
    }
    Ok(id)
}

} // verus!

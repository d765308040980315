//! Values of the interpreter: what sits on the operand stack and inside containers.
use vstd::prelude::*;

verus! {

/// An index into the table of interned strings.
#[derive(Debug, Clone, Copy, PartialEq, Eq, Structural)]
pub struct StringId(pub u32);

/// An index into the heap.
#[derive(Debug, Clone, Copy, PartialEq, Eq, Structural)]
pub struct HeapId(pub usize);

/// The Python type of a value, as reported in error messages.
#[derive(Debug, Clone, Copy, PartialEq, Eq, Structural)]
pub enum Type {
    NoneType,
    Bool,
    Int,
    Str,
    List,
    Tuple,
    Dict,
    SetType,
    Slice,
    Module,
    Iterator,
    Type,
    Date,
    DateTime,
    TimeDelta,
    TimeZone,
    Path,
}

/// Built-in callables that can be held as values.
#[derive(Debug, Clone, Copy, PartialEq, Eq, Structural)]
pub enum Builtins {
    /// A type object, callable as a constructor.
    Type(Type),
}

/// A value: immediate data, an interned string, a reference to the heap, or a builtin.
#[derive(Debug, Clone, Copy, PartialEq, Eq, Structural)]
pub enum Value {
    /// Python's `None` (named so to keep the word `None` for `Option`).
    NoneValue,
    /// A boolean.
    Bool(bool),
    /// An integer.
    Int(i64),
    /// A string literal stored in the intern table.
    InternString(StringId),
    /// A heap-allocated object.
    Ref(HeapId),
    /// A builtin callable.
    Builtin(Builtins),
}

impl Type {
    /// The type's name as Python prints it.
    pub open spec fn spec_name(self) -> Seq<char> {
        match self {
            Type::NoneType => "NoneType"@,
            Type::Bool => "bool"@,
            Type::Int => "int"@,
            Type::Str => "str"@,
            Type::List => "list"@,
            Type::Tuple => "tuple"@,
            Type::Dict => "dict"@,
            Type::SetType => "set"@,
            Type::Slice => "slice"@,
            Type::Module => "module"@,
            Type::Iterator => "iterator"@,
            Type::Type => "type"@,
            Type::Date => "date"@,
            Type::DateTime => "datetime"@,
            Type::TimeDelta => "timedelta"@,
            Type::TimeZone => "timezone"@,
            Type::Path => "Path"@,
        }
    }

    /// The type's name as Python prints it.
    pub fn name(self) -> (r: &'static str)
        ensures
            r@ == self.spec_name(),
    {
        match self {
            Type::NoneType => "NoneType",
            Type::Bool => "bool",
            Type::Int => "int",
            Type::Str => "str",
            Type::List => "list",
            Type::Tuple => "tuple",
            Type::Dict => "dict",
            Type::SetType => "set",
            Type::Slice => "slice",
            Type::Module => "module",
            Type::Iterator => "iterator",
            Type::Type => "type",
            Type::Date => "date",
            Type::DateTime => "datetime",
            Type::TimeDelta => "timedelta",
            Type::TimeZone => "timezone",
            Type::Path => "Path",
        }
    }
}

} // verus!

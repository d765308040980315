//! Errors raised by the interpreter's operations.
use vstd::prelude::*;
use crate::value::Type;
use crate::display::{nat_text, push_nat};

verus! {

/// The Python exception class of an error.
#[derive(Debug, Clone, Copy, PartialEq, Eq, Structural)]
pub enum ExcType {
    TypeError,
    ValueError,
    StopIteration,
}

/// What went wrong, with the values the message is built from.
#[derive(Debug, PartialEq, Eq)]
pub enum ErrorKind {
    /// `not enough values to unpack (expected {expected}, got {actual})`
    NotEnoughValues { expected: usize, actual: usize },
    /// `too many values to unpack (expected {expected}, got {actual})`
    TooManyValues { expected: usize, actual: usize },
    /// `not enough values to unpack (expected at least {min}, got {actual})`
    NotEnoughValuesAtLeast { min: usize, actual: usize },
    /// `cannot unpack non-iterable {type} object`
    CannotUnpack(Type),
    /// `'{type}' object is not a mapping`
    NotMapping(Type),
    /// `{func}() argument after ** must be a mapping, not {type}`
    KwargsNotMapping { func: String, ty: Type },
    /// `keywords must be strings`
    KwargsNonStringKey,
    /// `{func}() got multiple values for keyword argument '{key}'`
    MultipleValues { func: String, key: String },
    /// `Value after * must be an iterable, not {type}`
    ValueAfterStar(Type),
    /// `'{type}' object is not iterable`
    NotIterable(Type),
    /// `'{type}' object is not an iterator`
    NotAnIterator(Type),
    /// `unhashable type: '{type}'`
    Unhashable(Type),
    /// `slice indices must be integers or None or have an __index__ method`
    SliceIndices,
    /// `'{type}' object cannot be interpreted as an integer`
    NotAnInteger(Type),
    /// `{func}() takes exactly one argument ({given} given)`
    ExactlyOneArgument { func: String, given: usize },
    /// `{func} expected at least 1 argument, got 0` / `{func} expected at most 2 arguments, got {given}`
    OneOrTwoArguments { func: String, given: usize },
    /// Raised by `next()` on an exhausted iterator with no default.
    StopIteration,
}

/// A Python exception: its class and what went wrong.
#[derive(Debug, PartialEq, Eq)]
pub struct SimpleException {
    pub exc_type: ExcType,
    pub kind: ErrorKind,
}

/// A broken invariant of the virtual machine; reaching one is a compiler bug.
#[derive(Debug, Clone, Copy, PartialEq, Eq, Structural)]
pub enum InternalError {
    ListToTupleExpectedListRef,
    ListToTupleExpectedList,
    DictMergeExpectedDictRef,
    ListAppendExpectedListRef,
    ListAppendExpectedList,
    SetAddExpectedSetRef,
    SetAddExpectedSet,
    DictSetItemExpectedDictRef,
    DictSetItemExpectedDict,
}

/// The error of an operation of the virtual machine.
#[derive(Debug, PartialEq, Eq)]
pub enum RunError {
    /// A Python exception, to be raised in the running code.
    Exception(SimpleException),
    /// A broken invariant of the virtual machine.
    Internal(InternalError),
}

/// The result of an operation that yields nothing.
pub type RunResult = Result<(), RunError>;

/// A `TypeError` of the given kind.
pub open spec fn type_error(kind: ErrorKind) -> RunError {
    RunError::Exception(SimpleException { exc_type: ExcType::TypeError, kind })
}

/// A `ValueError` of the given kind.
pub open spec fn value_error(kind: ErrorKind) -> RunError {
    RunError::Exception(SimpleException { exc_type: ExcType::ValueError, kind })
}

/// The error for star unpacking when there are fewer than `min_needed` values.
pub fn unpack_ex_too_few_error(min_needed: usize, actual: usize) -> (e: RunError)
    ensures
        e == value_error(ErrorKind::NotEnoughValuesAtLeast { min: min_needed, actual }),
{
    RunError::Exception(
        SimpleException {
            exc_type: ExcType::ValueError,
            kind: ErrorKind::NotEnoughValuesAtLeast { min: min_needed, actual },
        },
    )
}

/// The error for unpacking `actual` values into `expected` targets: Python words it
/// differently for too few and too many values.
pub fn unpack_size_error(expected: usize, actual: usize) -> (e: RunError)
    ensures
        actual < expected ==> e == value_error(ErrorKind::NotEnoughValues { expected, actual }),
        actual >= expected ==> e == value_error(ErrorKind::TooManyValues { expected, actual }),
{
    let kind = if actual < expected {
        ErrorKind::NotEnoughValues { expected, actual }
    } else {
        ErrorKind::TooManyValues { expected, actual }
    };
    RunError::Exception(SimpleException { exc_type: ExcType::ValueError, kind })
}

/// The error for unpacking a value of a non-iterable type.
pub fn unpack_type_error(ty: Type) -> (e: RunError)
    ensures
        e == type_error(ErrorKind::CannotUnpack(ty)),
{
    RunError::Exception(
        SimpleException { exc_type: ExcType::TypeError, kind: ErrorKind::CannotUnpack(ty) },
    )
}

/// A `TypeError` of the given kind.
pub fn new_type_error(kind: ErrorKind) -> (e: RunError)
    ensures
        e == type_error(kind),
{
    RunError::Exception(SimpleException { exc_type: ExcType::TypeError, kind })
}

/// An exception reported to the host: its class and its message.
#[derive(Debug, PartialEq, Eq)]
pub struct MontyException {
    pub exc_type: ExcType,
    pub message: String,
}

/// The message Python shows for an error of the given kind.
pub open spec fn message_text(kind: ErrorKind) -> Seq<char> {
    match kind {
        ErrorKind::NotEnoughValues { expected, actual } => "not enough values to unpack (expected "@
            + nat_text(expected as nat) + ", got "@ + nat_text(actual as nat) + ")"@,
        ErrorKind::TooManyValues { expected, actual } => "too many values to unpack (expected "@
            + nat_text(expected as nat) + ", got "@ + nat_text(actual as nat) + ")"@,
        ErrorKind::NotEnoughValuesAtLeast { min, actual } => "not enough values to unpack (expected at least "@
            + nat_text(min as nat) + ", got "@ + nat_text(actual as nat) + ")"@,
        ErrorKind::CannotUnpack(t) => "cannot unpack non-iterable "@ + t.spec_name() + " object"@,
        ErrorKind::NotMapping(t) => "'"@ + t.spec_name() + "' object is not a mapping"@,
        ErrorKind::KwargsNotMapping { func, ty } => func@ + "() argument after ** must be a mapping, not "@
            + ty.spec_name(),
        ErrorKind::KwargsNonStringKey => "keywords must be strings"@,
        ErrorKind::MultipleValues { func, key } => func@ + "() got multiple values for keyword argument '"@
            + key@ + "'"@,
        ErrorKind::ValueAfterStar(t) => "Value after * must be an iterable, not "@ + t.spec_name(),
        ErrorKind::NotIterable(t) => "'"@ + t.spec_name() + "' object is not iterable"@,
        ErrorKind::NotAnIterator(t) => "'"@ + t.spec_name() + "' object is not an iterator"@,
        ErrorKind::Unhashable(t) => "unhashable type: '"@ + t.spec_name() + "'"@,
        ErrorKind::SliceIndices => "slice indices must be integers or None or have an __index__ method"@,
        ErrorKind::NotAnInteger(t) => "'"@ + t.spec_name() + "' object cannot be interpreted as an integer"@,
        ErrorKind::ExactlyOneArgument { func, given } => func@ + "() takes exactly one argument ("@
            + nat_text(given as nat) + " given)"@,
        ErrorKind::OneOrTwoArguments { func, given } => if given == 0 {
            func@ + " expected at least 1 argument, got 0"@
        } else {
            func@ + " expected at most 2 arguments, got "@ + nat_text(given as nat)
        },
        ErrorKind::StopIteration => Seq::empty(),
    }
}

impl SimpleException {
    /// The message Python shows for this exception.
    pub fn message(&self) -> (m: String)
        ensures
            m@ == message_text(self.kind),
    {
        let mut out = String::new();
        match &self.kind {
            ErrorKind::NotEnoughValues { expected, actual } => {
                out.append("not enough values to unpack (expected ");
                push_nat(&mut out, *expected as u64);
                out.append(", got ");
                push_nat(&mut out, *actual as u64);
                out.append(")");
            },
            ErrorKind::TooManyValues { expected, actual } => {
                out.append("too many values to unpack (expected ");
                push_nat(&mut out, *expected as u64);
                out.append(", got ");
                push_nat(&mut out, *actual as u64);
                out.append(")");
            },
            ErrorKind::NotEnoughValuesAtLeast { min, actual } => {
                out.append("not enough values to unpack (expected at least ");
                push_nat(&mut out, *min as u64);
                out.append(", got ");
                push_nat(&mut out, *actual as u64);
                out.append(")");
            },
            ErrorKind::CannotUnpack(t) => {
                out.append("cannot unpack non-iterable ");
                out.append(t.name());
                out.append(" object");
            },
            ErrorKind::NotMapping(t) => {
                out.append("'");
                out.append(t.name());
                out.append("' object is not a mapping");
            },
            ErrorKind::KwargsNotMapping { func, ty } => {
                out.append(func.as_str());
                out.append("() argument after ** must be a mapping, not ");
                out.append(ty.name());
            },
            ErrorKind::KwargsNonStringKey => {
                out.append("keywords must be strings");
            },
            ErrorKind::MultipleValues { func, key } => {
                out.append(func.as_str());
                out.append("() got multiple values for keyword argument '");
                out.append(key.as_str());
                out.append("'");
            },
            ErrorKind::ValueAfterStar(t) => {
                out.append("Value after * must be an iterable, not ");
                out.append(t.name());
            },
            ErrorKind::NotIterable(t) => {
                out.append("'");
                out.append(t.name());
                out.append("' object is not iterable");
            },
            ErrorKind::NotAnIterator(t) => {
                out.append("'");
                out.append(t.name());
                out.append("' object is not an iterator");
            },
            ErrorKind::Unhashable(t) => {
                out.append("unhashable type: '");
                out.append(t.name());
                out.append("'");
            },
            ErrorKind::SliceIndices => {
                out.append("slice indices must be integers or None or have an __index__ method");
            },
            ErrorKind::NotAnInteger(t) => {
                out.append("'");
                out.append(t.name());
                out.append("' object cannot be interpreted as an integer");
            },
            ErrorKind::ExactlyOneArgument { func, given } => {
                out.append(func.as_str());
                out.append("() takes exactly one argument (");
                push_nat(&mut out, *given as u64);
                out.append(" given)");
            },
            ErrorKind::OneOrTwoArguments { func, given } => {
                out.append(func.as_str());
                if *given == 0 {
                    out.append(" expected at least 1 argument, got 0");
                } else {
                    out.append(" expected at most 2 arguments, got ");
                    push_nat(&mut out, *given as u64);
                }
            },
            ErrorKind::StopIteration => {},
        }
        proof {
            assert(out@ =~= message_text(self.kind));
        }
        out
    }

    /// The exception as the host sees it: its class and its message.
    pub fn to_monty_exception(&self) -> (e: MontyException)
        ensures
            e.exc_type == self.exc_type,
            e.message@ == message_text(self.kind),
    {
        MontyException { exc_type: self.exc_type, message: self.message() }
    }
}

} // verus!

//! The positional arguments of a builtin call.
use vstd::prelude::*;
use crate::value::Value;
use crate::exceptions::{RunError, ErrorKind, ExcType, SimpleException, type_error};

verus! {

/// The positional arguments passed to a builtin function.
pub struct ArgValues {
    pub positional: Vec<Value>,
}

/// The result of taking exactly one argument.
pub type OneArgResult = Result<Value, RunError>;

/// The result of taking one or two arguments.
pub type OneTwoArgsResult = Result<(Value, Option<Value>), RunError>;

impl ArgValues {
    /// The single argument of a call to `name`; any other number of arguments raises
    /// `TypeError: {name}() takes exactly one argument ({n} given)`.
    pub fn get_one_arg(self, name: &str) -> (r: OneArgResult)
        ensures
            self.positional@.len() == 1 ==> r == OneArgResult::Ok(self.positional@[0]),
            self.positional@.len() != 1 ==> (r matches Err(RunError::Exception(e))
                && e.exc_type == ExcType::TypeError && e.kind is ExactlyOneArgument
                && e.kind->ExactlyOneArgument_func@ == name@
                && e.kind->ExactlyOneArgument_given == self.positional@.len()),
    {
        if self.positional.len() == 1 {
            Ok(self.positional[0])
        } else {
            Err(
                RunError::Exception(
                    SimpleException {
                        exc_type: ExcType::TypeError,
                        kind: ErrorKind::ExactlyOneArgument {
                            func: String::from_str(name),
                            given: self.positional.len(),
                        },
                    },
                ),
            )
        }
    }

    /// The one or two arguments of a call to `name`; none, or more than two, raises
    /// `TypeError`.
    pub fn get_one_two_args(self, name: &str) -> (r: OneTwoArgsResult)
        ensures
            self.positional@.len() == 1 ==> r == OneTwoArgsResult::Ok((self.positional@[0], None)),
            self.positional@.len() == 2 ==> r == OneTwoArgsResult::Ok(
                (self.positional@[0], Some(self.positional@[1])),
            ),
            (self.positional@.len() == 0 || self.positional@.len() > 2) ==> (r matches Err(
                RunError::Exception(e),
            ) && e.exc_type == ExcType::TypeError && e.kind is OneOrTwoArguments
                && e.kind->OneOrTwoArguments_func@ == name@
                && e.kind->OneOrTwoArguments_given == self.positional@.len()),
    {
        let n = self.positional.len();
        if n == 1 {
            Ok((self.positional[0], None))
        } else if n == 2 {
            Ok((self.positional[0], Some(self.positional[1])))
        } else {
            Err(
                RunError::Exception(
                    SimpleException {
                        exc_type: ExcType::TypeError,
                        kind: ErrorKind::OneOrTwoArguments { func: String::from_str(name), given: n },
                    },
                ),
            )
        }
    }
}

} // verus!

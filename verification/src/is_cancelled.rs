//! Telling a cancellation apart from other failures.
use vstd::prelude::*;

verus! {

/// An error that can stand for a cancellation.
pub trait IsCancelled {
    /// The error stands for a cancellation.
    spec fn cancelled(&self) -> bool;

    /// Whether the error stands for a cancellation.
    fn is_cancelled(&self) -> (b: bool)
        ensures
            b == self.cancelled(),
    ;
}

/// A result whose error can stand for a cancellation.
pub trait IsErrorCancelled {
    /// The result is an error that stands for a cancellation.
    spec fn error_cancelled(&self) -> bool;

    /// Whether the result is an error that stands for a cancellation.
    fn is_error_cancelled(&self) -> (b: bool)
        ensures
            b == self.error_cancelled(),
    ;
}

impl<T, E: IsCancelled> IsErrorCancelled for Result<T, E> {
    open spec fn error_cancelled(&self) -> bool {
        match self {
            Ok(_) => false,
            Err(e) => e.cancelled(),
        }
    }

    fn is_error_cancelled(&self) -> (b: bool) {
        match self {
            Ok(_) => false,
            Err(e) => e.is_cancelled(),
        }
    }
}

} // verus!

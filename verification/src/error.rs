//! The driver's error kinds, mirroring the error classes Toasty distinguishes.

use vstd::prelude::*;

verus! {

/// The class of a driver error.
#[derive(Clone, Copy, PartialEq, Eq, Structural, Debug)]
pub enum ErrorKind {
    /// A transaction conflict or a value that cannot be (de)serialized.
    SerializationFailure,
    /// A conditional write whose condition did not hold, or a duplicate.
    ConditionFailed,
    /// A malformed statement or an operation that is invalid in this state.
    InvalidStatement,
    /// Something this driver does not support.
    UnsupportedFeature,
    /// A write attempted inside a read-only transaction.
    ReadOnlyTransaction,
    /// Any other failure reported by the database.
    DriverOperationFailed,
}

/// A driver error: its class and a message.
#[derive(Debug)]
pub struct DriverError {
    pub kind: ErrorKind,
    pub message: String,
}

impl DriverError {
    /// An error of the given kind with a literal message.
    pub fn new(kind: ErrorKind, message: &str) -> (r: DriverError)
        ensures
            r.kind == kind,
            r.message@ == message@,
    {
        DriverError { kind, message: message.to_owned() }
    }
}

} // verus!

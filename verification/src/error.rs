//! Errors of the database: a code that callers match on, and a message for people.
use vstd::prelude::*;

verus! {

/// What kind of failure an operation met.
#[derive(Clone, Copy, Debug, PartialEq, Eq, Structural)]
pub enum Code {
    /// A request or a stored record could not be parsed or failed validation.
    ParseError,
    /// Stored data is corrupt or an internal assumption was broken.
    FatalError,
    /// The thing to create exists already.
    Exists,
    /// The thing asked for does not exist.
    NotFound,
    /// The collection is loading or being deleted.
    NotReady,
    /// No document is stored under the key.
    DocumentNotFound,
    /// No collection has the id.
    CollectionNotFound,
    /// The flush queue is full; a later insert triggers the flush.
    PoolQueueFull,
    /// A failure of the system underneath.
    SystemError,
}

/// An error with its code and a message.
#[derive(Debug)]
pub struct VixError {
    pub code: Code,
    pub message: String,
}

impl VixError {
    /// An error with the given code and message.
    pub fn new(code: Code, message: &str) -> (r: VixError)
        ensures
            r.code == code,
            r.message@ == message@,
    {
        VixError { code, message: message.to_owned() }
    }
}

/// The configuration errors of the program: a value that cannot be parsed, or a failure
/// of the system.
#[derive(Debug)]
pub enum Error {
    Parse { name: String, value: String },
    System { message: String },
}

} // verus!

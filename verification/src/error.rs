//! The ways in which a run fails.

use vstd::prelude::*;

verus! {

/// An error that ends the run at once.
#[derive(Debug, Clone, Copy, PartialEq, Eq, Structural)]
pub enum Fatal {
    /// The input ended or was broken inside a structure, or closed more
    /// brackets than it had opened.
    MalformedInput,
    /// A number used as an identifier is no unsigned 64-bit integer.
    BadNumber,
    /// A string or a number came where no key had announced one.
    UndefinedState,
    /// The document closed without `provider_references` or `in_network`.
    MissingArray,
    /// The compressed data could not be decoded.
    BadCompression,
}

/// Used to incur a non-zero exit code while continuing to process data.
#[derive(Debug)]
pub struct NonFatalError(pub String);

impl NonFatalError {
    /// The text of the error: the message behind the words `Non-fatal: `.
    pub fn message(&self) -> (r: String)
        ensures
            r@ == "Non-fatal: "@ + self.0@,
    {
        let mut r = String::from_str("Non-fatal: ");
        r.append(self.0.as_str());
        r
    }
}

/// Why a run did not end well.
#[derive(Debug)]
pub enum Failure {
    Fatal(Fatal),
    NonFatal(NonFatalError),
}

} // verus!

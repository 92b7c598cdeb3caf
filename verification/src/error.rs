//! Errors surfaced by the gateway. Every failing operation aborts and leaves
//! the state unchanged; the error carries a kind and a human-readable message.
use vstd::prelude::*;

verus! {

/// The kinds of failure the gateway distinguishes.
#[derive(Debug)]
pub enum Error {
    /// A malformed or unacceptable input.
    IllegalArgument(&'static str),
    /// An operation that would violate a state invariant.
    IllegalState(&'static str),
    /// A lookup that found nothing.
    NotFound(&'static str),
    /// A persisted record whose bytes could not be decoded.
    SerializationError(&'static str),
}

impl Error {
    /// The human-readable message attached to the error.
    pub fn msg(&self) -> (r: &'static str)
        ensures
            r@ == self.spec_msg(),
    {
        match self {
            Error::IllegalArgument(m) => m,
            Error::IllegalState(m) => m,
            Error::NotFound(m) => m,
            Error::SerializationError(m) => m,
        }
    }

    /// The message as a sequence of characters.
    pub open spec fn spec_msg(&self) -> Seq<char> {
        match self {
            Error::IllegalArgument(m) => m@,
            Error::IllegalState(m) => m@,
            Error::NotFound(m) => m@,
            Error::SerializationError(m) => m@,
        }
    }
}

} // verus!

//! Errors of the library.
use vstd::prelude::*;
use crate::codec::DecodeError;

verus! {

/// What went wrong.
#[derive(Clone, Copy, Debug, PartialEq, Eq, Structural)]
pub enum Error {
    /// A transport-level failure.
    Io,
    /// A malformed wire frame.
    Decode(DecodeError),
    /// A peer broke the protocol.
    ProtocolViolation,
    /// A peer could not be reached.
    NodeUnreachable,
    /// The node is not listening yet.
    NotListening,
}

/// An error with a description for people.
#[derive(Clone, Debug, PartialEq, Eq)]
pub struct GossipError {
    pub message: String,
    pub error: Error,
}

impl GossipError {
    /// An error of kind `error` described by `message`.
    pub fn new(message: &str, error: Error) -> (r: GossipError)
        ensures
            r.message@ == message@,
            r.error == error,
    {
        GossipError { message: message.to_owned(), error }
    }
}

} // verus!

//! Error kinds surfaced by the message handlers.
//!
//! Every condition is a recoverable per-message failure except
//! `LockUnavailable`, which the embedding process treats as fatal.

use vstd::prelude::*;

verus! {

/// The typed failure kinds of the engine.
#[derive(Clone, Copy, Debug, PartialEq, Eq, Structural)]
pub enum Error {
    /// Malformed record or a violation of a structural invariant
    /// (for example a duplicate node registration).
    ProtocolError,
    /// A required field is absent from a body whose type mandates it;
    /// the reply is suppressed and the record dropped.
    MissingField,
    /// The addressed node id is not present in the registry.
    UnknownNode,
    /// The shared registry lock cannot be acquired; raised only by the
    /// embedding process, never by the library itself.
    LockUnavailable,
}

} // verus!

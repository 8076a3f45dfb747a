//! The decode-stage error taxonomy. Every error is local to one message:
//! the caller logs it and drops that message, nothing else is affected.

use vstd::prelude::*;

verus! {

#[derive(Clone, Copy, Debug, PartialEq, Eq, Structural)]
pub enum DecodeError {
    /// The frame's kind tag is missing or out of range.
    UnknownKind,
    /// The method or action name resolves to no schema in the pool.
    UnknownMethod,
    /// A response arrived whose id was never seen as a request.
    UnknownCorrelation(u16),
    /// The payload bytes are not a well-formed message.
    Malformed,
    /// A field needed by the named-action extraction is not in the schema.
    MissingField,
}

} // verus!

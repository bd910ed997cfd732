use vstd::prelude::*;

use crate::packet::When;

verus! {

/// Failure of the variable-length integer decoder.
#[derive(Debug, Clone, Copy, PartialEq, Eq, Structural)]
pub enum VarIntError {
    /// More than five bytes carried the continuation bit.
    TooBig,
}

/// Every way in which encoding or decoding of wire data can fail.
#[derive(Debug)]
pub enum CodecError {
    /// The input ended before the value was complete.
    UnexpectedEof,
    /// The input held data that no valid encoding produces (a compressed
    /// payload that does not inflate, or inflates to the wrong length).
    InvalidData,
    VarInt(VarIntError),
    /// A length-prefixed string was not valid UTF-8.
    Utf8,
    /// Decoding a named field of a packet failed.
    CantParseField { field: &'static str, source: Box<CodecError> },
    /// No packet is registered under this id for the phase.
    IllegalPacket(u32, When),
    /// The packet is only ever sent by a server and has no client encoder.
    Unsupported,
}

} // verus!

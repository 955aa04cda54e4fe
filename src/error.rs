use vstd::prelude::*;

verus! {

/// A value on the wire breaks the format rules.
#[derive(Debug, Clone, Copy, PartialEq, Eq, Structural)]
pub enum ProtocolViolation {
    /// A VarInt whose continuation chain runs past five bytes.
    VarIntTooLong,
    /// A VarLong whose continuation chain runs past ten bytes.
    VarLongTooLong,
    /// A UVarInt that decodes to a negative number.
    NegativeUnsigned,
    /// A packet discriminant with no meaning in the current stage and direction.
    UnknownPacketKind,
}

/// Why a value could not be decoded.
#[derive(Debug, Clone, Copy, PartialEq, Eq, Structural)]
pub enum ProtocolError {
    /// The byte stream ended before the value did.
    Io,
    /// The bytes break the format rules.
    ProtocolViolation(ProtocolViolation),
    /// A string payload is not valid UTF-8.
    Utf8,
}

} // verus!

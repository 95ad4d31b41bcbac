//! Error types surfaced by the codecs and by the ping operation.

use vstd::prelude::*;

verus! {

/// A failure while encoding or decoding wire data.
#[derive(Clone, Copy, Debug, PartialEq, Eq, Structural)]
pub enum EncodingError {
    /// A VarInt ran past its maximum byte length without terminating.
    VarIntTooLong,
    /// A string's UTF-16 length exceeds the protocol ceiling of 32767.
    StringTooLong,
    /// A read would go past the end of the buffer.
    UnexpectedEof,
    /// Decoded string bytes are not valid UTF-8.
    InvalidEncoding,
}

/// A failure of one ping operation. Every variant is terminal for the
/// call that produced it; no retries happen below this level.
#[derive(Clone, Copy, Debug, PartialEq, Eq, Structural)]
pub enum PingError {
    /// The SRV query ran but returned no usable record.
    SrvResolutionFailed,
    /// Forward address resolution failed or returned no addresses.
    HostResolutionFailed,
    /// The connection attempt was refused, reset or unreachable.
    ConnectFailed,
    /// The connection attempt exceeded its time budget.
    ConnectTimeout,
    /// The response packet carried an ID other than the status-response ID.
    UnexpectedPacketId(i32),
    /// The response frame could not be decoded.
    Encoding(EncodingError),
    /// The status payload is not valid JSON or has the wrong shape.
    JsonError,
}

} // verus!

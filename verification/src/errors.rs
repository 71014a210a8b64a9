//! The error outcomes of decoding and encoding.

use vstd::prelude::*;

verus! {

/// Everything that can go wrong while decoding a PDU or constructing a
/// submission.
///
/// `Incomplete` is kept distinct from the format violations: it means a fixed-
/// or length-prefixed field needed more bytes than the buffer still held, so a
/// caller that streams partial PDUs can retry with more input.
#[derive(Debug, Clone, Copy, PartialEq, Eq, Structural)]
pub enum Error {
    /// A character that had to be an ASCII hex digit (or, inside an address,
    /// an ASCII decimal digit) was something else.
    MalformedHex,
    /// An address type octet other than 145 (international) or 201 (short code).
    InvalidAddressType,
    /// A command-type bit pattern the deliver decoder does not recognize.
    UnsupportedMessageType,
    /// A data-coding-scheme octet other than 0 (packed 7-bit) or 8 (16-bit).
    UnsupportedEncoding,
    /// The six timestamp digit groups do not form a valid calendar date-time.
    MalformedTimestamp,
    /// The 16-bit code-unit sequence of the body is not valid UTF-16.
    InvalidText,
    /// The user data header's information elements overrun the octet count
    /// announced for them, or overrun the user data itself.
    MalformedHeader,
    /// A requested submission option outside the supported set: a validity
    /// period other than Relative(255), a status report, a reply path, or a
    /// body encoding other than 16-bit.
    UnsupportedFeature,
    /// More bytes were needed than the input still held.
    Incomplete,
}

impl Error {
    /// A short human-readable name for the error.
    pub fn describe(&self) -> (r: &'static str)
    {
        match self {
            Error::MalformedHex => "malformed hex digit",
            Error::InvalidAddressType => "invalid address type",
            Error::UnsupportedMessageType => "unsupported message type",
            Error::UnsupportedEncoding => "unsupported encoding scheme",
            Error::MalformedTimestamp => "malformed timestamp",
            Error::InvalidText => "invalid 16-bit text",
            Error::MalformedHeader => "malformed user data header",
            Error::UnsupportedFeature => "unsupported submission feature",
            Error::Incomplete => "incomplete input",
        }
    }
}

} // verus!

//! What the framing codec can report about a line.

use vstd::prelude::*;

verus! {

/// Why a line was not turned into a message, or a message not into a line.
///
/// Every variant but `LineTooLong` and `InvalidMessage` is a decode error of
/// a single line: the line is dropped and decoding goes on with the next one.
#[derive(Debug, Clone, Copy, PartialEq, Eq)]
pub enum FrameError {
    /// No line feed was found within the maximum line length.
    LineTooLong,
    /// The line holds a byte outside ASCII.
    NotText,
    /// The line is empty or starts with none of the four markers.
    InvalidMarker,
    /// A fixed-width field is cut short by the end of the line.
    Truncated,
    /// A numeric field holds a byte that is no hexadecimal digit.
    InvalidNumber,
    /// An `STX` line without `ETX` in front of its checksum.
    MissingEtx,
    /// An `ACK` line whose body is not an address.
    InvalidAck,
    /// A `NAK` line whose body is neither an address nor an address and a code.
    InvalidNak,
    /// An `ENQ` line that ends before its wait-time digit.
    IncompleteHeader,
    /// An `ENQ` line whose command code, given here, is neither `WW` nor `WR`.
    UnknownCommand(u8, u8),
    /// The data of a command is not four characters for each device point.
    DataLength,
    /// The checksum written in the line differs from the sum of its body.
    ChecksumMismatch,
    /// A message that breaks the message model was handed to the encoder.
    InvalidMessage,
}

} // verus!

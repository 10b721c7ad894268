use vstd::prelude::*;

verus! {

/// Why a message could not be decoded or encoded.
#[derive(Debug, Clone, Copy, PartialEq, Eq, Structural)]
pub enum MessageError {
    /// The wire data is malformed or truncated.
    ParsingError,
    /// Bytes that are not UTF-8, or a value too large for its wire field.
    EncodingError,
    /// A compression pointer to this offset was followed twice while
    /// resolving one name.
    CircularReference(u16),
    /// An opcode that does not fit in four bits.
    ReservedOpCode,
    /// A label longer than 63 bytes; holds the label's length.
    NameLengthExceeded(usize),
}

} // verus!

use vstd::prelude::*;

verus! {

/// The kind of a failed read or write.
#[derive(Debug, Clone, Copy, PartialEq, Eq, Structural)]
pub enum IoErrorKind {
    /// The input ended before the value that was being read.
    UnexpectedEof,
}

/// Errors of the message parser and serializer.
#[derive(Debug, Clone, Copy, PartialEq, Eq, Structural)]
pub enum Error {
    /// Reading or writing failed.
    Io(IoErrorKind),
    /// The input held less data than the message needs.
    NotEnoughData {
        /// The minimum size required.
        min: usize,
        /// The actual size received.
        actual: usize,
    },
    /// Invalid length field value
    InvalidLengthField(u32),
    /// Invalid return code value
    InvalidReturnCode(u8),
    /// Invalid message type value
    InvalidMessageType(u8),
    /// Unknown sd entry value
    UnknownSdEntry(u8),
    /// Unknown sd option value
    UnknownSdOption(u8),
    /// Invalid ip proto value
    InvalidIpProto(u8),
}

} // verus!

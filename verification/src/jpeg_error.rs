//! The error kinds of the decoder. Every one is fatal to the decode that
//! reports it.

use vstd::prelude::*;

verus! {

/// Why a decode failed.
#[derive(Clone, Copy, Debug, PartialEq, Eq, Structural)]
pub enum JpegError {
    /// A read would exceed the input.
    TruncatedInput,
    /// The bytes found where a segment has to start are no marker that can
    /// start one.
    BadMarker,
    /// The image uses a feature outside the baseline subset handled here.
    UnsupportedFeature,
    /// No code of the Huffman table is a prefix of the next 16 bits.
    BadHuffmanSymbol,
    /// The caller's buffer is smaller than the image.
    BufferTooSmall,
    /// The input breaks an invariant of the decoder's tables or blocks,
    /// such as an index out of range.
    LogicError,
}

impl JpegError {
    /// The diagnostic text of each kind.
    pub open spec fn message_spec(self) -> Seq<char> {
        match self {
            JpegError::TruncatedInput => "a read would exceed the input"@,
            JpegError::BadMarker => "no supported marker where a segment is required"@,
            JpegError::UnsupportedFeature => "the image uses an unsupported feature"@,
            JpegError::BadHuffmanSymbol => "no Huffman code matches the next bits"@,
            JpegError::BufferTooSmall => "the output buffer is too small"@,
            JpegError::LogicError => "a value or an index is out of range"@,
        }
    }

    /// A short diagnostic message for the error.
    pub fn message(&self) -> (s: &'static str)
        ensures
            s@ == self.message_spec(),
    {
        match self {
            JpegError::TruncatedInput => "a read would exceed the input",
            JpegError::BadMarker => "no supported marker where a segment is required",
            JpegError::UnsupportedFeature => "the image uses an unsupported feature",
            JpegError::BadHuffmanSymbol => "no Huffman code matches the next bits",
            JpegError::BufferTooSmall => "the output buffer is too small",
            JpegError::LogicError => "a value or an index is out of range",
        }
    }
}

} // verus!

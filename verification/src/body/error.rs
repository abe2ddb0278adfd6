//! Errors of message bodies.
use vstd::prelude::*;

use crate::http_message::raw::{HttpParseError, InvalidChunkSize};
use crate::io_buffer::ReaderBufferError;
use crate::transport::WriteFailure;

verus! {

/// Errors in the trailer section of a chunked body.
#[derive(Debug, Clone, Copy, PartialEq, Eq, Structural)]
pub enum TrailerError {
    /// Invalid trailer field.
    InvalidField(HttpParseError),
    /// Too many trailer fields.
    TooManyFields,
    /// Invalid field name.
    InvalidFieldName,
    /// Invalid field value.
    InvalidFieldValue,
    /// Invalid trailer footer.
    InvalidTrailerFooter,
}

/// Errors of reading, writing and forwarding bodies.
#[derive(Debug)]
pub enum BodyError {
    /// Attempted to write more than the maximum allowed bytes.
    BodyOverflow(u64),
    /// Could not write body.
    BodyWriteError(WriteFailure),
    /// Could not read body.
    BodyReadError(std::io::Error),
    /// The body was to have more bytes than it has.
    IncompleteBody { expected: u64, actual: u64 },
    /// The header of a chunk was not written to its end.
    IncompleteChunkHeader { expected: u64, actual: u64 },
    /// The footer of a chunk was not written to its end.
    IncompleteChunkFooter { expected: u64, actual: u64 },
    /// The end of the body was not written to its end.
    IncompleteFinish { expected: u64, actual: u64 },
    /// The end of the body was not flushed.
    UnflushedFinish,
    /// The abort of the body was not flushed.
    UnflushedAbort,
    /// Invalid chunk header.
    InvalidChunkHeader(InvalidChunkSize),
    /// Invalid HTTP trailer.
    TrailerError(TrailerError),
    /// The stream ended inside the body.
    UnexpectedEOF,
    /// Invalid chunk footer: the byte expected, and the byte found.
    InvalidChunkFooter(u8, u8),
    /// Attempted to read after previous failure.
    ReadAfterError,
    /// Attempted to write after previous failure.
    WriteAfterError,
    /// Attempted to forward after previous failure.
    ForwardAfterError,
}

/// A [`Result`] with [`BodyError`] as the error type.
pub type BodyResult<T> = Result<T, BodyError>;

impl From<TrailerError> for BodyError {
    fn from(e: TrailerError) -> (r: Self) {
        BodyError::TrailerError(e)
    }
}

impl vstd::std_specs::convert::FromSpecImpl<TrailerError> for BodyError {
    open spec fn obeys_from_spec() -> bool {
        true
    }

    open spec fn from_spec(e: TrailerError) -> Self {
        BodyError::TrailerError(e)
    }
}

impl From<ReaderBufferError> for BodyError {
    fn from(e: ReaderBufferError) -> (r: Self) {
        match e {
            ReaderBufferError::Io(e) => BodyError::BodyReadError(e),
            ReaderBufferError::UnexpectedEOF => BodyError::UnexpectedEOF,
        }
    }
}

impl vstd::std_specs::convert::FromSpecImpl<ReaderBufferError> for BodyError {
    open spec fn obeys_from_spec() -> bool {
        true
    }

    open spec fn from_spec(e: ReaderBufferError) -> Self {
        match e {
            ReaderBufferError::Io(e) => BodyError::BodyReadError(e),
            ReaderBufferError::UnexpectedEOF => BodyError::UnexpectedEOF,
        }
    }
}

/// A failure to fill a buffer is a failure to read the body: that of the transport is told
/// with what it says, and the end of the stream as such. An error of the trailers is told with
/// what it says.
pub proof fn errors_are_told_as_they_are(
    e: ReaderBufferError,
    t: TrailerError,
    from_buffer: BodyError,
    from_trailers: BodyError,
)
    requires
        call_ensures(<BodyError as From<ReaderBufferError>>::from, (e,), from_buffer),
        call_ensures(<BodyError as From<TrailerError>>::from, (t,), from_trailers),
    ensures
        e matches ReaderBufferError::Io(f) ==> from_buffer == BodyError::BodyReadError(f),
        e is UnexpectedEOF <==> from_buffer == BodyError::UnexpectedEOF,
        from_trailers == BodyError::TrailerError(t),
{
}

} // verus!

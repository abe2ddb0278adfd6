//! Errors of the frontend.
use vstd::prelude::*;

use crate::body::error::{BodyError, BodyResult};
use crate::http_message::header::{ConnectionTokenParserError, HeaderError, HeaderErrorView};
use crate::http_message::message::{MessageError, MessageErrorView};
use crate::transport::{Poll, WriteFailure};

verus! {

/// Possible errors from interacting with frontends.
#[derive(Debug)]
pub enum FrontendError {
    /// Failed to write to frontend.
    WriteError(WriteFailure),
    /// Failed to write body to frontend.
    BodyWriteError(BodyError),
    /// Failed to read frontend.
    ReadError(std::io::Error),
    /// Failed to read body.
    BodyReadError(BodyError),
    /// The stream ended before a request.
    FirstReadEOF,
    /// The stream ended inside a request.
    UnexpectedEOF,
    /// Failed to parse request.
    HttpRequestParseError(MessageError),
    /// The headers of the request do not frame it.
    HeaderError(HeaderError),
    /// Invalid connection header.
    InvalidConnectionHeader(ConnectionTokenParserError),
    /// Request head exceeded size limit: its length, and the limit.
    MaxHeadLenExceeded(usize, usize),
}

/// A result type where the error is [`FrontendError`].
pub type FrontendResult<T> = Result<T, FrontendError>;

/// The model of a [`FrontendError`].
pub enum FrontendErrorView {
    WriteError(WriteFailure),
    BodyWriteError(BodyError),
    ReadError(std::io::Error),
    BodyReadError(BodyError),
    FirstReadEOF,
    UnexpectedEOF,
    HttpRequestParseError(MessageErrorView),
    HeaderError(HeaderErrorView),
    InvalidConnectionHeader(ConnectionTokenParserError),
    MaxHeadLenExceeded(usize, usize),
}

impl View for FrontendError {
    type V = FrontendErrorView;

    open spec fn view(&self) -> FrontendErrorView {
        match *self {
            FrontendError::WriteError(e) => FrontendErrorView::WriteError(e),
            FrontendError::BodyWriteError(e) => FrontendErrorView::BodyWriteError(e),
            FrontendError::ReadError(e) => FrontendErrorView::ReadError(e),
            FrontendError::BodyReadError(e) => FrontendErrorView::BodyReadError(e),
            FrontendError::FirstReadEOF => FrontendErrorView::FirstReadEOF,
            FrontendError::UnexpectedEOF => FrontendErrorView::UnexpectedEOF,
            FrontendError::HttpRequestParseError(e) => FrontendErrorView::HttpRequestParseError(e@),
            FrontendError::HeaderError(e) => FrontendErrorView::HeaderError(e@),
            FrontendError::InvalidConnectionHeader(e) => FrontendErrorView::InvalidConnectionHeader(
                e,
            ),
            FrontendError::MaxHeadLenExceeded(a, b) => FrontendErrorView::MaxHeadLenExceeded(a, b),
        }
    }
}

impl From<BodyError> for FrontendError {
    fn from(e: BodyError) -> (r: Self) {
        FrontendError::BodyWriteError(e)
    }
}

impl vstd::std_specs::convert::FromSpecImpl<BodyError> for FrontendError {
    open spec fn obeys_from_spec() -> bool {
        true
    }

    open spec fn from_spec(e: BodyError) -> Self {
        FrontendError::BodyWriteError(e)
    }
}

impl From<HeaderError> for FrontendError {
    fn from(e: HeaderError) -> (r: Self) {
        FrontendError::HeaderError(e)
    }
}

impl vstd::std_specs::convert::FromSpecImpl<HeaderError> for FrontendError {
    open spec fn obeys_from_spec() -> bool {
        true
    }

    open spec fn from_spec(e: HeaderError) -> Self {
        FrontendError::HeaderError(e)
    }
}

impl From<ConnectionTokenParserError> for FrontendError {
    fn from(e: ConnectionTokenParserError) -> (r: Self) {
        FrontendError::InvalidConnectionHeader(e)
    }
}

impl vstd::std_specs::convert::FromSpecImpl<ConnectionTokenParserError> for FrontendError {
    open spec fn obeys_from_spec() -> bool {
        true
    }

    open spec fn from_spec(e: ConnectionTokenParserError) -> Self {
        FrontendError::InvalidConnectionHeader(e)
    }
}

/// An outcome of reading a body, as an outcome of the frontend.
pub open spec fn read_result<T>(p: Poll<BodyResult<T>>) -> Poll<FrontendResult<T>> {
    match p {
        Poll::Pending => Poll::Pending,
        Poll::Ready(Ok(v)) => Poll::Ready(Ok(v)),
        Poll::Ready(Err(e)) => Poll::Ready(Err(FrontendError::BodyReadError(e))),
    }
}

/// An outcome of writing a body, as an outcome of the frontend.
pub open spec fn write_result<T>(p: Poll<BodyResult<T>>) -> Poll<FrontendResult<T>> {
    match p {
        Poll::Pending => Poll::Pending,
        Poll::Ready(Ok(v)) => Poll::Ready(Ok(v)),
        Poll::Ready(Err(e)) => Poll::Ready(Err(FrontendError::BodyWriteError(e))),
    }
}

/// An outcome of reading a body, as an outcome of the frontend.
pub(crate) fn map_read<T>(p: Poll<BodyResult<T>>) -> (r: Poll<FrontendResult<T>>)
    ensures
        r == read_result(p),
{
    match p {
        Poll::Pending => Poll::Pending,
        Poll::Ready(Ok(v)) => Poll::Ready(Ok(v)),
        Poll::Ready(Err(e)) => Poll::Ready(Err(FrontendError::BodyReadError(e))),
    }
}

/// An outcome of writing a body, as an outcome of the frontend.
pub(crate) fn map_write<T>(p: Poll<BodyResult<T>>) -> (r: Poll<FrontendResult<T>>)
    ensures
        r == write_result(p),
{
    match p {
        Poll::Pending => Poll::Pending,
        Poll::Ready(Ok(v)) => Poll::Ready(Ok(v)),
        Poll::Ready(Err(e)) => Poll::Ready(Err(FrontendError::BodyWriteError(e))),
    }
}

/// What comes of a read or a write of a body is handed on as it is; only an error is told as
/// one of the frontend: that of a read as a failure to read a body, that of a write as a
/// failure to write one.
pub proof fn outcomes_are_handed_on<T>(
    p: Poll<BodyResult<T>>,
    read: Poll<FrontendResult<T>>,
    write: Poll<FrontendResult<T>>,
)
    requires
        read == read_result(p),
        write == write_result(p),
    ensures
        match p {
            Poll::Pending => read is Pending && write is Pending,
            Poll::Ready(Ok(v)) => read == Poll::Ready(Ok::<_, FrontendError>(v)) && write
                == Poll::Ready(Ok::<_, FrontendError>(v)),
            Poll::Ready(Err(e)) => read == Poll::Ready(
                Err::<T, _>(FrontendError::BodyReadError(e)),
            ) && write == Poll::Ready(Err::<T, _>(FrontendError::BodyWriteError(e))),
        },
{
}

/// An error of a body, of the headers or of the connection options is told as such, with all
/// that it says.
pub proof fn errors_are_told_as_they_are(
    b: BodyError,
    h: HeaderError,
    c: ConnectionTokenParserError,
    from_body: FrontendError,
    from_headers: FrontendError,
    from_connection: FrontendError,
)
    requires
        call_ensures(<FrontendError as From<BodyError>>::from, (b,), from_body),
        call_ensures(<FrontendError as From<HeaderError>>::from, (h,), from_headers),
        call_ensures(<FrontendError as From<ConnectionTokenParserError>>::from, (c,), from_connection),
    ensures
        from_body == FrontendError::BodyWriteError(b),
        from_headers == FrontendError::HeaderError(h),
        from_connection == FrontendError::InvalidConnectionHeader(c),
{
}

/// The model of an error is of the same kind as the error.
pub proof fn errors_keep_their_kind(e: FrontendError)
    ensures
        e is WriteError <==> e@ is WriteError,
        e is BodyWriteError <==> e@ is BodyWriteError,
        e is ReadError <==> e@ is ReadError,
        e is BodyReadError <==> e@ is BodyReadError,
        e is FirstReadEOF <==> e@ is FirstReadEOF,
        e is UnexpectedEOF <==> e@ is UnexpectedEOF,
        e is HttpRequestParseError <==> e@ is HttpRequestParseError,
        e is HeaderError <==> e@ is HeaderError,
        e is InvalidConnectionHeader <==> e@ is InvalidConnectionHeader,
        e is MaxHeadLenExceeded <==> e@ is MaxHeadLenExceeded,
{
}

} // verus!

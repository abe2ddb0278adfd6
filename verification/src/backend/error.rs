//! Errors of the backend.
use vstd::prelude::*;

use crate::body::error::{BodyError, BodyResult};
use crate::http_message::header::{ConnectionTokenParserError, HeaderError, HeaderErrorView};
use crate::http_message::message::{MessageError, MessageErrorView};
use crate::transport::{Poll, WriteFailure};

verus! {

/// Possible errors from interacting with backends.
#[derive(Debug)]
pub enum BackendError {
    /// Failed to write to backend.
    WriteError(WriteFailure),
    /// Failed to write body to backend.
    BodyWriteError(BodyError),
    /// Failed to read backend.
    ReadError(std::io::Error),
    /// Failed to read body.
    BodyReadError(BodyError),
    /// The stream ended before a response.
    FirstReadEOF,
    /// The stream ended inside a response.
    UnexpectedEOF,
    /// Failed to parse response.
    HttpResponseParseError(MessageError),
    /// The headers of the response do not frame it.
    HeaderError(HeaderError),
    /// Invalid connection header.
    InvalidConnectionHeader(ConnectionTokenParserError),
    /// 101-switching-protocols unsupported.
    HttpSwitchingProtocolsUnsupported,
    /// 102-processing deprecated.
    HttpProcessingUnsupported,
    /// 1xx response contains framing headers.
    FramingHeadersOnInformationalResponse,
    /// 204 No Content response contains framing headers.
    FramingHeadersOn204NoContentResponse,
    /// Received transfer-encoding header from HTTP/1.0 server.
    TransferEncodingOnHttp10Server,
    /// Response head exceeded size limit: its length, and the limit.
    MaxHeadLenExceeded(usize, usize),
}

/// A result type where the error is [`BackendError`].
pub type BackendResult<T> = Result<T, BackendError>;

/// The model of a [`BackendError`].
pub enum BackendErrorView {
    WriteError(WriteFailure),
    BodyWriteError(BodyError),
    ReadError(std::io::Error),
    BodyReadError(BodyError),
    FirstReadEOF,
    UnexpectedEOF,
    HttpResponseParseError(MessageErrorView),
    HeaderError(HeaderErrorView),
    InvalidConnectionHeader(ConnectionTokenParserError),
    HttpSwitchingProtocolsUnsupported,
    HttpProcessingUnsupported,
    FramingHeadersOnInformationalResponse,
    FramingHeadersOn204NoContentResponse,
    TransferEncodingOnHttp10Server,
    MaxHeadLenExceeded(usize, usize),
}

impl View for BackendError {
    type V = BackendErrorView;

    open spec fn view(&self) -> BackendErrorView {
        match *self {
            BackendError::WriteError(e) => BackendErrorView::WriteError(e),
            BackendError::BodyWriteError(e) => BackendErrorView::BodyWriteError(e),
            BackendError::ReadError(e) => BackendErrorView::ReadError(e),
            BackendError::BodyReadError(e) => BackendErrorView::BodyReadError(e),
            BackendError::FirstReadEOF => BackendErrorView::FirstReadEOF,
            BackendError::UnexpectedEOF => BackendErrorView::UnexpectedEOF,
            BackendError::HttpResponseParseError(e) => BackendErrorView::HttpResponseParseError(e@),
            BackendError::HeaderError(e) => BackendErrorView::HeaderError(e@),
            BackendError::InvalidConnectionHeader(e) => BackendErrorView::InvalidConnectionHeader(
                e,
            ),
            BackendError::HttpSwitchingProtocolsUnsupported => {
                BackendErrorView::HttpSwitchingProtocolsUnsupported
            },
            BackendError::HttpProcessingUnsupported => BackendErrorView::HttpProcessingUnsupported,
            BackendError::FramingHeadersOnInformationalResponse => {
                BackendErrorView::FramingHeadersOnInformationalResponse
            },
            BackendError::FramingHeadersOn204NoContentResponse => {
                BackendErrorView::FramingHeadersOn204NoContentResponse
            },
            BackendError::TransferEncodingOnHttp10Server => {
                BackendErrorView::TransferEncodingOnHttp10Server
            },
            BackendError::MaxHeadLenExceeded(a, b) => BackendErrorView::MaxHeadLenExceeded(a, b),
        }
    }
}

impl From<BodyError> for BackendError {
    fn from(e: BodyError) -> (r: Self) {
        BackendError::BodyWriteError(e)
    }
}

impl vstd::std_specs::convert::FromSpecImpl<BodyError> for BackendError {
    open spec fn obeys_from_spec() -> bool {
        true
    }

    open spec fn from_spec(e: BodyError) -> Self {
        BackendError::BodyWriteError(e)
    }
}

impl From<HeaderError> for BackendError {
    fn from(e: HeaderError) -> (r: Self) {
        BackendError::HeaderError(e)
    }
}

impl vstd::std_specs::convert::FromSpecImpl<HeaderError> for BackendError {
    open spec fn obeys_from_spec() -> bool {
        true
    }

    open spec fn from_spec(e: HeaderError) -> Self {
        BackendError::HeaderError(e)
    }
}

impl From<ConnectionTokenParserError> for BackendError {
    fn from(e: ConnectionTokenParserError) -> (r: Self) {
        BackendError::InvalidConnectionHeader(e)
    }
}

impl vstd::std_specs::convert::FromSpecImpl<ConnectionTokenParserError> for BackendError {
    open spec fn obeys_from_spec() -> bool {
        true
    }

    open spec fn from_spec(e: ConnectionTokenParserError) -> Self {
        BackendError::InvalidConnectionHeader(e)
    }
}

/// An outcome of reading a body, as an outcome of the backend.
pub open spec fn read_result<T>(p: Poll<BodyResult<T>>) -> Poll<BackendResult<T>> {
    match p {
        Poll::Pending => Poll::Pending,
        Poll::Ready(Ok(v)) => Poll::Ready(Ok(v)),
        Poll::Ready(Err(e)) => Poll::Ready(Err(BackendError::BodyReadError(e))),
    }
}

/// An outcome of writing a body, as an outcome of the backend.
pub open spec fn write_result<T>(p: Poll<BodyResult<T>>) -> Poll<BackendResult<T>> {
    match p {
        Poll::Pending => Poll::Pending,
        Poll::Ready(Ok(v)) => Poll::Ready(Ok(v)),
        Poll::Ready(Err(e)) => Poll::Ready(Err(BackendError::BodyWriteError(e))),
    }
}

/// An outcome of reading a body, as an outcome of the backend.
pub(crate) fn map_read<T>(p: Poll<BodyResult<T>>) -> (r: Poll<BackendResult<T>>)
    ensures
        r == read_result(p),
{
    match p {
        Poll::Pending => Poll::Pending,
        Poll::Ready(Ok(v)) => Poll::Ready(Ok(v)),
        Poll::Ready(Err(e)) => Poll::Ready(Err(BackendError::BodyReadError(e))),
    }
}

/// An outcome of writing a body, as an outcome of the backend.
pub(crate) fn map_write<T>(p: Poll<BodyResult<T>>) -> (r: Poll<BackendResult<T>>)
    ensures
        r == write_result(p),
{
    match p {
        Poll::Pending => Poll::Pending,
        Poll::Ready(Ok(v)) => Poll::Ready(Ok(v)),
        Poll::Ready(Err(e)) => Poll::Ready(Err(BackendError::BodyWriteError(e))),
    }
}

/// What comes of a read or a write of a body is handed on as it is; only an error is told as
/// one of the backend: that of a read as a failure to read a body, that of a write as a
/// failure to write one.
pub proof fn outcomes_are_handed_on<T>(
    p: Poll<BodyResult<T>>,
    read: Poll<BackendResult<T>>,
    write: Poll<BackendResult<T>>,
)
    requires
        read == read_result(p),
        write == write_result(p),
    ensures
        match p {
            Poll::Pending => read is Pending && write is Pending,
            Poll::Ready(Ok(v)) => read == Poll::Ready(Ok::<_, BackendError>(v)) && write
                == Poll::Ready(Ok::<_, BackendError>(v)),
            Poll::Ready(Err(e)) => read == Poll::Ready(
                Err::<T, _>(BackendError::BodyReadError(e)),
            ) && write == Poll::Ready(Err::<T, _>(BackendError::BodyWriteError(e))),
        },
{
}

/// An error of a body, of the headers or of the connection options is told as such, with all
/// that it says.
pub proof fn errors_are_told_as_they_are(
    b: BodyError,
    h: HeaderError,
    c: ConnectionTokenParserError,
    from_body: BackendError,
    from_headers: BackendError,
    from_connection: BackendError,
)
    requires
        call_ensures(<BackendError as From<BodyError>>::from, (b,), from_body),
        call_ensures(<BackendError as From<HeaderError>>::from, (h,), from_headers),
        call_ensures(<BackendError as From<ConnectionTokenParserError>>::from, (c,), from_connection),
    ensures
        from_body == BackendError::BodyWriteError(b),
        from_headers == BackendError::HeaderError(h),
        from_connection == BackendError::InvalidConnectionHeader(c),
{
}

/// The model of an error is of the same kind as the error.
pub proof fn errors_keep_their_kind(e: BackendError)
    ensures
        e is WriteError <==> e@ is WriteError,
        e is BodyWriteError <==> e@ is BodyWriteError,
        e is ReadError <==> e@ is ReadError,
        e is BodyReadError <==> e@ is BodyReadError,
        e is FirstReadEOF <==> e@ is FirstReadEOF,
        e is UnexpectedEOF <==> e@ is UnexpectedEOF,
        e is HttpResponseParseError <==> e@ is HttpResponseParseError,
        e is HeaderError <==> e@ is HeaderError,
        e is InvalidConnectionHeader <==> e@ is InvalidConnectionHeader,
        e is HttpSwitchingProtocolsUnsupported <==> e@ is HttpSwitchingProtocolsUnsupported,
        e is HttpProcessingUnsupported <==> e@ is HttpProcessingUnsupported,
        e is FramingHeadersOnInformationalResponse <==> e@ is FramingHeadersOnInformationalResponse,
        e is FramingHeadersOn204NoContentResponse <==> e@ is FramingHeadersOn204NoContentResponse,
        e is TransferEncodingOnHttp10Server <==> e@ is TransferEncodingOnHttp10Server,
        e is MaxHeadLenExceeded <==> e@ is MaxHeadLenExceeded,
{
}

} // verus!

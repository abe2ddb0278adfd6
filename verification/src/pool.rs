//! Where connections to the servers come from, and where they go.
use vstd::prelude::*;

use crate::backend::reader::{BackendReader, BackendReaderView};
use crate::backend::writer::BackendWriter;
use crate::io_buffer::Buffered;
use crate::transport::Poll;

verus! {

/// How many headers a response may have.
pub const MAX_RESPONSE_HEADERS: usize = 256;

/// Errors of getting a connection.
#[derive(Debug, Clone, Copy, PartialEq, Eq, Structural)]
pub enum PoolError {
    /// No available backend connection.
    NoBackendConnection,
}

/// A [`Result`] with [`PoolError`] as the error type.
pub type PoolResult<T> = Result<T, PoolError>;

/// Both ends of a connection to a server.
pub type BackendConnection<BR, BW> = (BackendReader<BR>, BackendWriter<BW>);

/// A provider of connections to a server.
pub trait BackendProxyProvider {
    /// The backend reader inner type
    type BR;

    /// The backend writer inner type
    type BW;

    /// Get a connection from the provider. If a clean, established connection
    /// is not available, one can be created, or an error is returned.
    fn get_connection(&mut self) -> (r: PoolResult<BackendConnection<Self::BR, Self::BW>>);

    /// Return a connection to the provider. The connection *must* be clean.
    /// That is, the connection must be fully drained, and should remain idle
    /// until another request is sent.
    fn give_connection(&mut self, reader: BackendReader<Self::BR>, writer: BackendWriter<Self::BW>);
}

/// Holds a single backend connection. Mostly useful for testing. Does not open
/// new connections if empty.
pub struct OneshotBackend<BR, BW> {
    pub inner: Option<(BackendReader<BR>, BackendWriter<BW>)>,
}

/// Gives out what it holds, once.
pub struct OneshotConnector<BR, BW> {
    inner: Option<(BR, BW)>,
}

impl<BR, BW> OneshotConnector<BR, BW> {
    /// What the connector holds.
    pub closed spec fn held(&self) -> Option<(BR, BW)> {
        self.inner
    }

    /// A connector that holds `inner`.
    pub fn new(inner: Option<(BR, BW)>) -> (r: Self)
        ensures
            r.held() == inner,
    {
        Self { inner }
    }

    /// Give out what the connector holds. It is ready at once.
    pub fn poll(&mut self) -> (r: Poll<PoolResult<(BR, BW)>>)
        ensures
            r == Poll::Ready(
                match old(self).held() {
                    Some(pair) => Ok(pair),
                    None => Err(PoolError::NoBackendConnection),
                },
            ),
            final(self).held() is None,
    {
        match self.inner.take() {
            Some(pair) => Poll::Ready(Ok(pair)),
            None => Poll::Ready(Err(PoolError::NoBackendConnection)),
        }
    }
}

impl<BR, BW> OneshotBackend<BR, BW> {
    /// A provider that holds a fresh connection.
    pub fn new(backend_reader: BR, backend_writer: BW) -> (r: Self)
        ensures
            r.inner matches Some((reader, writer)) && reader@ == (BackendReaderView {
                reader: Buffered { io: backend_reader, buf: Seq::empty() },
                slots: MAX_RESPONSE_HEADERS as nat,
            }) && writer.io() == backend_writer,
    {
        Self {
            inner: Some(
                (
                    BackendReader::new(backend_reader, MAX_RESPONSE_HEADERS),
                    BackendWriter::new(backend_writer),
                ),
            ),
        }
    }

    /// A connector for the connection that the provider holds, which does not
    /// hold it any longer.
    pub fn connector(&mut self) -> (r: OneshotConnector<BackendReader<BR>, BackendWriter<BW>>)
        ensures
            r.held() == old(self).inner,
            final(self).inner is None,
    {
        OneshotConnector::new(self.inner.take())
    }
}

impl<BR, BW> BackendProxyProvider for OneshotBackend<BR, BW> {
    type BR = BR;

    type BW = BW;

    fn get_connection(&mut self) -> (r: PoolResult<BackendConnection<BR, BW>>)
        ensures
            r == (match old(self).inner {
                Some(pair) => Ok(pair),
                None => Err(PoolError::NoBackendConnection),
            }),
            final(self).inner is None,
    {
        let mut connector = self.connector();
        match connector.poll() {
            Poll::Ready(r) => r,
            Poll::Pending => Err(PoolError::NoBackendConnection),
        }
    }

    fn give_connection(&mut self, reader: BackendReader<BR>, writer: BackendWriter<BW>)
        ensures
            final(self).inner == Some((reader, writer)),
    {
        self.inner = Some((reader, writer));
    }
}

/// A connection is given out once: what a provider holds it hands out, and then it holds
/// nothing; where it holds nothing, there is no connection. What is given back is held again.
pub proof fn connections_are_given_out_once<BR, BW>(
    pool: &mut OneshotBackend<BR, BW>,
    r: PoolResult<BackendConnection<BR, BW>>,
    other: &mut OneshotBackend<BR, BW>,
    reader: BackendReader<BR>,
    writer: BackendWriter<BW>,
    connector: &mut OneshotConnector<BR, BW>,
    p: Poll<PoolResult<(BR, BW)>>,
)
    requires
        call_ensures(
            <OneshotBackend<BR, BW> as BackendProxyProvider>::get_connection,
            (pool,),
            r,
        ),
        call_ensures(
            <OneshotBackend<BR, BW> as BackendProxyProvider>::give_connection,
            (other, reader, writer),
            (),
        ),
        call_ensures(OneshotConnector::<BR, BW>::poll, (connector,), p),
    ensures
        final(pool).inner is None,
        match (old(pool).inner, r) {
            (Some(held), Ok(given)) => given == held,
            (None, Err(e)) => e == PoolError::NoBackendConnection,
            _ => false,
        },
        final(other).inner == Some((reader, writer)),
        final(connector).held() is None,
        match (old(connector).held(), p) {
            (Some(held), Poll::Ready(Ok(given))) => given == held,
            (None, Poll::Ready(Err(e))) => e == PoolError::NoBackendConnection,
            _ => false,
        },
{
}

} // verus!

//! The seam between the state machines and the connections they run on.
//!
//! No function of this library performs I/O. A poll function is handed a
//! [`Context`]: where it needs the transport it takes the outcome of the
//! operation from there, and where no outcome has arrived it writes down what
//! it waits for and returns [`Poll::Pending`]. Whoever drives the machine
//! performs that operation, delivers the outcome and polls again.
use vstd::prelude::*;
use vstd::slice::slice_to_vec;

verus! {

/// `std::io::Error`, carried through unread.
#[verifier::external_type_specification]
#[verifier::external_body]
pub struct ExIoError(std::io::Error);

/// What a poll function has come to.
#[derive(Debug)]
pub enum Poll<T> {
    /// The function is done.
    Ready(T),
    /// The function waits for the transport; see [`Context::wants`].
    Pending,
}

/// Why bytes could not be written.
#[derive(Debug)]
pub enum WriteFailure {
    /// The transport accepted none of the bytes offered to it.
    WriteZero,
    /// The transport failed.
    Io(std::io::Error),
}

/// The operation that a pending poll function waits for.
#[derive(Debug)]
pub enum Wants {
    /// Nothing is awaited.
    Nothing,
    /// Read at most this many bytes.
    Read(usize),
    /// Write some of these bytes.
    Write(Vec<u8>),
    /// Flush what was written.
    Flush,
}

/// The model of [`Wants`].
pub enum WantsView {
    Nothing,
    Read(nat),
    Write(Seq<u8>),
    Flush,
}

impl View for Wants {
    type V = WantsView;

    open spec fn view(&self) -> WantsView {
        match *self {
            Wants::Nothing => WantsView::Nothing,
            Wants::Read(n) => WantsView::Read(n as nat),
            Wants::Write(b) => WantsView::Write(b@),
            Wants::Flush => WantsView::Flush,
        }
    }
}

/// The outcome of a read: the bytes that came, none at the end of the stream.
pub type ReadOutcome = Result<Vec<u8>, std::io::Error>;

/// The model of a [`Context`].
#[verifier::ext_equal]
pub struct Cx {
    /// The outcome of a read that no poll function has taken yet.
    pub read: Option<Result<Seq<u8>, std::io::Error>>,
    /// The outcome of a write that no poll function has taken yet.
    pub write: Option<Result<usize, std::io::Error>>,
    /// The outcome of a flush that no poll function has taken yet.
    pub flush: Option<Result<(), std::io::Error>>,
    /// The operation that is awaited.
    pub wants: WantsView,
    /// Every byte that the transport has accepted, in order.
    pub wire: Seq<u8>,
}

impl Cx {
    /// How many outcomes wait to be taken.
    pub open spec fn events(self) -> nat {
        (if self.read is Some { 1nat } else { 0 }) + (if self.write is Some { 1nat } else { 0 }) + (
        if self.flush is Some { 1nat } else { 0 })
    }

    /// An operation is awaited, and its outcome has not been delivered.
    pub open spec fn awaits(self) -> bool {
        match self.wants {
            WantsView::Nothing => false,
            WantsView::Read(_) => self.read is None,
            WantsView::Write(_) => self.write is None,
            WantsView::Flush => self.flush is None,
        }
    }

    /// A read of at most `max_len` bytes.
    pub open spec fn poll_read(self, max_len: nat) -> (
        Cx,
        Poll<Result<Seq<u8>, std::io::Error>>,
    ) {
        match self.read {
            None => (Cx { wants: WantsView::Read(max_len), ..self }, Poll::Pending),
            Some(r) => (Cx { read: None, ..self }, Poll::Ready(r)),
        }
    }

    /// A write of some prefix of `buf`: what is accepted goes on the wire.
    pub open spec fn poll_write(self, buf: Seq<u8>) -> (Cx, Poll<Result<usize, std::io::Error>>) {
        match self.write {
            None => (Cx { wants: WantsView::Write(buf), ..self }, Poll::Pending),
            Some(Err(e)) => (Cx { write: None, ..self }, Poll::Ready(Err(e))),
            Some(Ok(n)) => {
                let k = if n <= buf.len() { n } else { buf.len() as usize };
                (
                    Cx { write: None, wire: self.wire + buf.take(k as int), ..self },
                    Poll::Ready(Ok(k)),
                )
            },
        }
    }

    /// A flush.
    pub open spec fn poll_flush(self) -> (Cx, Poll<Result<(), std::io::Error>>) {
        match self.flush {
            None => (Cx { wants: WantsView::Flush, ..self }, Poll::Pending),
            Some(r) => (Cx { flush: None, ..self }, Poll::Ready(r)),
        }
    }

    /// The writing of all of `data` but its first `written` bytes; the second
    /// part of the result is how much of `data` has been accepted by then.
    pub open spec fn poll_put(self, data: Seq<u8>, written: nat) -> (
        Cx,
        nat,
        Poll<Result<(), WriteFailure>>,
    ) {
        if written >= data.len() {
            (self, written, Poll::Ready(Ok(())))
        } else {
            let (cx, p) = self.poll_write(data.skip(written as int));
            match p {
                Poll::Pending => (cx, written, Poll::Pending),
                Poll::Ready(Err(e)) => (cx, written, Poll::Ready(Err(WriteFailure::Io(e)))),
                Poll::Ready(Ok(k)) => if k == 0 {
                    (cx, written, Poll::Ready(Err(WriteFailure::WriteZero)))
                } else if written + k >= data.len() {
                    (cx, written + k as nat, Poll::Ready(Ok(())))
                } else {
                    (
                        cx.poll_write(data.skip((written + k) as int)).0,
                        written + k as nat,
                        Poll::Pending,
                    )
                },
            }
        }
    }
}

/// What passes between poll functions and the driver of the connections.
pub struct Context {
    read: Option<ReadOutcome>,
    write: Option<Result<usize, std::io::Error>>,
    flush: Option<Result<(), std::io::Error>>,
    wants: Wants,
    wire: Ghost<Seq<u8>>,
}

impl View for Context {
    type V = Cx;

    closed spec fn view(&self) -> Cx {
        Cx {
            read: match self.read {
                None => None,
                Some(Ok(data)) => Some(Ok(data@)),
                Some(Err(e)) => Some(Err(e)),
            },
            write: self.write,
            flush: self.flush,
            wants: self.wants@,
            wire: self.wire@,
        }
    }
}

impl Context {
    /// A context in which nothing has happened yet.
    pub fn new() -> (cx: Self)
        ensures
            cx@ == (Cx {
                read: None,
                write: None,
                flush: None,
                wants: WantsView::Nothing,
                wire: Seq::empty(),
            }),
    {
        Self {
            read: None,
            write: None,
            flush: None,
            wants: Wants::Nothing,
            wire: Ghost(Seq::empty()),
        }
    }

    /// The operation that the last pending poll function waits for. Taking it
    /// leaves [`Wants::Nothing`].
    pub fn take_wants(&mut self) -> (wants: Wants)
        ensures
            wants@ == old(self)@.wants,
            final(self)@ == (Cx { wants: WantsView::Nothing, ..old(self)@ }),
    {
        let mut wants = Wants::Nothing;
        std::mem::swap(&mut wants, &mut self.wants);
        wants
    }

    /// Deliver the outcome of a read. No bytes mean the end of the stream.
    pub fn deliver_read(&mut self, outcome: ReadOutcome)
        ensures
            final(self)@ == (Cx {
                read: Some(
                    match outcome {
                        Ok(data) => Ok(data@),
                        Err(e) => Err(e),
                    },
                ),
                ..old(self)@
            }),
    {
        self.read = Some(outcome);
    }

    /// Deliver the outcome of a write: how many of the bytes were accepted.
    pub fn deliver_write(&mut self, outcome: Result<usize, std::io::Error>)
        ensures
            final(self)@ == (Cx { write: Some(outcome), ..old(self)@ }),
    {
        self.write = Some(outcome);
    }

    /// Deliver the outcome of a flush.
    pub fn deliver_flush(&mut self, outcome: Result<(), std::io::Error>)
        ensures
            final(self)@ == (Cx { flush: Some(outcome), ..old(self)@ }),
    {
        self.flush = Some(outcome);
    }

    /// Read at most `max_len` bytes.
    pub fn poll_read(&mut self, max_len: usize) -> (r: Poll<ReadOutcome>)
        ensures
            final(self)@ == old(self)@.poll_read(max_len as nat).0,
            match (r, old(self)@.poll_read(max_len as nat).1) {
                (Poll::Pending, Poll::Pending) => true,
                (Poll::Ready(Ok(data)), Poll::Ready(Ok(d))) => data@ == d,
                (Poll::Ready(Err(e)), Poll::Ready(Err(f))) => e == f,
                _ => false,
            },
    {
        match self.read.take() {
            Some(outcome) => Poll::Ready(outcome),
            None => {
                self.wants = Wants::Read(max_len);
                Poll::Pending
            },
        }
    }

    /// Write some prefix of `buf`. A transport accepts at most what it is
    /// offered.
    pub fn poll_write(&mut self, buf: &[u8]) -> (r: Poll<Result<usize, std::io::Error>>)
        ensures
            (final(self)@, r) == old(self)@.poll_write(buf@),
    {
        match self.write.take() {
            Some(Ok(n)) => {
                let k: usize = if n <= buf.len() {
                    n
                } else {
                    buf.len()
                };
                self.wire = Ghost(self.wire@ + buf@.take(k as int));
                Poll::Ready(Ok(k))
            },
            Some(Err(e)) => Poll::Ready(Err(e)),
            None => {
                self.wants = Wants::Write(slice_to_vec(buf));
                Poll::Pending
            },
        }
    }

    /// Flush what was written.
    pub fn poll_flush(&mut self) -> (r: Poll<Result<(), std::io::Error>>)
        ensures
            (final(self)@, r) == old(self)@.poll_flush(),
    {
        match self.flush.take() {
            Some(outcome) => Poll::Ready(outcome),
            None => {
                self.wants = Wants::Flush;
                Poll::Pending
            },
        }
    }

    /// Write all of `data` but its first `written` bytes, and keep `written`
    /// up to date across polls.
    pub fn poll_put(&mut self, data: &[u8], written: &mut usize) -> (r: Poll<
        Result<(), WriteFailure>,
    >)
        ensures
            (final(self)@, *final(written) as nat, r) == old(self)@.poll_put(
                data@,
                *old(written) as nat,
            ),
    {
        while *written < data.len()
            invariant
                self@.poll_put(data@, *written as nat) == old(self)@.poll_put(
                    data@,
                    *old(written) as nat,
                ),
            decreases self@.events(),
        {
            let ghost cx0 = self@;
            let (_head, rest) = data.split_at(*written);
            assert(rest@ == data@.skip(*written as int));
            match self.poll_write(rest) {
                Poll::Pending => return Poll::Pending,
                Poll::Ready(Err(e)) => return Poll::Ready(Err(WriteFailure::Io(e))),
                Poll::Ready(Ok(n)) => {
                    if n == 0 {
                        return Poll::Ready(Err(WriteFailure::WriteZero));
                    }
                    *written = *written + n;
                },
            }
        }
        Poll::Ready(Ok(()))
    }
}

/// What was delivered of a read is handed out once, and as it came; where nothing was
/// delivered, the read is asked for. Nothing else changes.
pub proof fn reads_are_handed_out_once(cx: Cx, max_len: nat)
    ensures
        ({
            let (after, p) = cx.poll_read(max_len);
            &&& after.read is None
            &&& after.write == cx.write && after.flush == cx.flush && after.wire == cx.wire
            &&& match (cx.read, p) {
                (Some(outcome), Poll::Ready(r)) => r == outcome && after.wants == cx.wants,
                (None, Poll::Pending) => after.wants == WantsView::Read(max_len),
                _ => false,
            }
            &&& after.poll_read(max_len).1 is Pending
        }),
{
}

/// Of what is offered to a write, as many bytes go on the wire as the transport accepted,
/// from the front, and at most all; none, where it failed or has not answered. The count is
/// handed out once. Nothing else changes.
pub proof fn writes_put_what_was_accepted_on_the_wire(cx: Cx, buf: Seq<u8>)
    requires
        buf.len() <= usize::MAX,
    ensures
        ({
            let (after, p) = cx.poll_write(buf);
            &&& after.write is None
            &&& after.read == cx.read && after.flush == cx.flush
            &&& match (cx.write, p) {
                (Some(Ok(n)), Poll::Ready(Ok(k))) => {
                    &&& n <= buf.len() ==> k == n
                    &&& n > buf.len() ==> k == buf.len()
                    &&& after.wire.len() == cx.wire.len() + k
                    &&& after.wire + buf.skip(k as int) == cx.wire + buf
                    &&& after.wants == cx.wants
                },
                (Some(Err(e)), Poll::Ready(Err(f))) => e == f && after.wire == cx.wire
                    && after.wants == cx.wants,
                (None, Poll::Pending) => after.wants == WantsView::Write(buf) && after.wire
                    == cx.wire,
                _ => false,
            }
            &&& after.poll_write(buf).1 is Pending
        }),
{
    let (after, p) = cx.poll_write(buf);
    if let Poll::Ready(Ok(k)) = p {
        assert(after.wire + buf.skip(k as int) =~= cx.wire + buf);
    }
}

/// What was delivered of a flush is handed out once; where nothing was delivered, the flush
/// is asked for. Nothing else changes.
pub proof fn flushes_are_handed_out_once(cx: Cx)
    ensures
        ({
            let (after, p) = cx.poll_flush();
            &&& after.flush is None
            &&& after.read == cx.read && after.write == cx.write && after.wire == cx.wire
            &&& match (cx.flush, p) {
                (Some(outcome), Poll::Ready(r)) => r == outcome && after.wants == cx.wants,
                (None, Poll::Pending) => after.wants == WantsView::Flush,
                _ => false,
            }
            &&& after.poll_flush().1 is Pending
        }),
{
}

/// What is put on the wire goes there in order, from where it was left, and nothing twice:
/// what is on the wire and what is still to be put there make up the same bytes as before.
/// The put is done exactly where nothing is left; it waits exactly where something is left
/// and the transport has not answered, and then asks for just that to be written; it fails
/// exactly where the transport failed, or accepted nothing. All that the transport accepted
/// counts.
pub proof fn puts_go_on_where_they_were_left(cx: Cx, data: Seq<u8>, written: nat)
    requires
        written <= data.len() <= usize::MAX,
    ensures
        ({
            let (after, now, p) = cx.poll_put(data, written);
            &&& written <= now <= data.len()
            &&& after.wire + data.skip(now as int) == cx.wire + data.skip(written as int)
            &&& after.read == cx.read && after.flush == cx.flush
            &&& written == data.len() ==> after == cx && p == Poll::Ready(Ok::<_, WriteFailure>(()))
            &&& written < data.len() ==> after.write is None && (match cx.write {
                None => now == written && p is Pending && after.wants == WantsView::Write(
                    data.skip(written as int),
                ),
                Some(Err(e)) => now == written && p == Poll::Ready(
                    Err::<(), _>(WriteFailure::Io(e)),
                ) && after.wants == cx.wants,
                Some(Ok(0)) => now == written && p == Poll::Ready(
                    Err::<(), _>(WriteFailure::WriteZero),
                ) && after.wants == cx.wants,
                Some(Ok(n)) => if written + n >= data.len() {
                    now == data.len() && p == Poll::Ready(Ok::<_, WriteFailure>(()))
                        && after.wants == cx.wants
                } else {
                    now == written + n && p is Pending && after.wants == WantsView::Write(
                        data.skip(now as int),
                    )
                },
            })
        }),
{
    let (after, now, p) = cx.poll_put(data, written);
    let left = data.skip(written as int);
    assert(after.wire + data.skip(now as int) =~= cx.wire + data.skip(written as int));
}

/// What is delivered is what is told next: the bytes of a read, with nothing lost or added,
/// or its failure; and the outcome of a flush.
pub proof fn what_is_delivered_is_told(
    cx: &mut Context,
    outcome: ReadOutcome,
    later: &mut Context,
    max_len: usize,
    r: Poll<ReadOutcome>,
)
    requires
        call_ensures(Context::deliver_read, (cx, outcome), ()),
        *old(later) == *final(cx),
        call_ensures(Context::poll_read, (later, max_len), r),
    ensures
        match (outcome, r) {
            (Ok(data), Poll::Ready(Ok(told))) => told@ == data@,
            (Err(e), Poll::Ready(Err(f))) => e == f,
            _ => false,
        },
        final(later)@.read is None,
        final(later)@.wire == old(cx)@.wire,
        final(later)@.write == old(cx)@.write,
        final(later)@.flush == old(cx)@.flush,
{
}

/// What a delivered write accepted is the front of the buffer that goes on the wire.
pub proof fn what_is_accepted_goes_on_the_wire(
    cx: &mut Context,
    n: usize,
    later: &mut Context,
    buf: &[u8],
    r: Poll<Result<usize, std::io::Error>>,
)
    requires
        n <= buf@.len(),
        call_ensures(Context::deliver_write, (cx, Ok(n)), ()),
        *old(later) == *final(cx),
        call_ensures(Context::poll_write, (later, buf), r),
    ensures
        r == Poll::Ready(Ok::<_, std::io::Error>(n)),
        final(later)@.wire == old(cx)@.wire + buf@.take(n as int),
        final(later)@.write is None,
        final(later)@.read == old(cx)@.read,
        final(later)@.flush == old(cx)@.flush,
{
    assert(buf.len() == buf@.len());
    writes_put_what_was_accepted_on_the_wire(old(later)@, buf@);
}

} // verus!

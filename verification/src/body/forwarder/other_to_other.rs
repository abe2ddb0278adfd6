//! Forwarding between bodies neither of which is chunk-encoded.
use bytes::Bytes;
use vstd::prelude::*;

use crate::body::error::{BodyError, BodyResult};
use crate::body::forwarder::other::{
    done_view, other_read_gives_the_body, other_read_is_exact, other_read_keeps_valid,
    other_write_keeps_bytes, DoneView, OtherBodyReader, OtherBodyWriter, OtherReaderView,
    OtherWriterView,
};
use crate::body::forwarder::{
    failure, is_write_error, option_view, poll_ends_soundly, polled_last, run, step_view,
    success_is_final, ForwardPoll, Machine, Step, StepView, READ_SIZE,
};
use crate::body::writer::flush_step;
use crate::http_message::message::ParseSlots;
use crate::io_buffer::BytesReader;
use crate::octets::octets;
use crate::transport::{Context, Cx, Poll, WriteFailure};

verus! {

/// Where an [`OtherToOtherBodyForwarder`] is.
pub enum O2OState<R, W> {
    /// Reading body bytes from the source. On data, transitions to
    /// `WriteData`. On EOF/end, transitions to `FlushWriter`.
    ReadData { reader: OtherBodyReader<R>, writer: OtherBodyWriter<W> },
    /// Writing body bytes to the destination. When the buffer is empty,
    /// transitions back to `ReadData`.
    WriteData { reader: OtherBodyReader<R>, writer: OtherBodyWriter<W>, data: Bytes },
    /// All body bytes have been forwarded. Flush and validate the writer
    /// (relevant for content-length), then transition to `Done`.
    FlushWriter { reader: (ParseSlots, Option<BytesReader<R>>), writer: OtherBodyWriter<W> },
    /// When we reach the terminal `Done` state, we no longer transition.
    Done { reader: (ParseSlots, Option<BytesReader<R>>), writer: Option<W> },
}

/// The model of an [`O2OState`].
pub enum O2OView<R, W> {
    ReadData { reader: OtherReaderView<R>, writer: OtherWriterView<W> },
    WriteData { reader: OtherReaderView<R>, writer: OtherWriterView<W>, data: Seq<u8> },
    FlushWriter { reader: DoneView<R>, writer: OtherWriterView<W> },
    Done { reader: DoneView<R>, writer: Option<W> },
}

impl<R, W> View for O2OState<R, W> {
    type V = O2OView<R, W>;

    open spec fn view(&self) -> O2OView<R, W> {
        match *self {
            O2OState::ReadData { reader, writer } => O2OView::ReadData {
                reader: reader@,
                writer: writer@,
            },
            O2OState::WriteData { reader, writer, data } => O2OView::WriteData {
                reader: reader@,
                writer: writer@,
                data: octets(data),
            },
            O2OState::FlushWriter { reader, writer } => O2OView::FlushWriter {
                reader: done_view(reader),
                writer: writer@,
            },
            O2OState::Done { reader, writer } => O2OView::Done {
                reader: done_view(reader),
                writer,
            },
        }
    }
}

impl<R, W> Machine for O2OView<R, W> {
    open spec fn step(self, cx: Cx) -> StepView<Self> {
        match self {
            O2OView::ReadData { reader, writer } => {
                let (reader, cx, p) = reader.poll_read(cx, READ_SIZE as nat);
                match p {
                    Poll::Ready(Err(e)) => StepView::Stop(None, cx, Poll::Ready(Err(e))),
                    Poll::Pending => StepView::Stop(
                        Some(O2OView::ReadData { reader, writer }),
                        cx,
                        Poll::Pending,
                    ),
                    Poll::Ready(Ok(None)) => StepView::Next(
                        O2OView::FlushWriter { reader: reader.into_done(), writer },
                        cx,
                    ),
                    Poll::Ready(Ok(Some(data))) => StepView::Next(
                        O2OView::WriteData { reader, writer, data },
                        cx,
                    ),
                }
            },
            O2OView::WriteData { reader, writer, data } => {
                let (writer, cx, p) = writer.poll_write(cx, data);
                match p {
                    Poll::Ready(Err(e)) => StepView::Stop(None, cx, Poll::Ready(Err(e))),
                    Poll::Pending => StepView::Stop(
                        Some(O2OView::WriteData { reader, writer, data }),
                        cx,
                        Poll::Pending,
                    ),
                    Poll::Ready(Ok(n)) => {
                        let data = data.skip(n as int);
                        StepView::Next(
                            if data.len() > 0 {
                                O2OView::WriteData { reader, writer, data }
                            } else {
                                O2OView::ReadData { reader, writer }
                            },
                            cx,
                        )
                    },
                }
            },
            O2OView::FlushWriter { reader, writer } => {
                let (cx, _, p) = flush_step(cx, false);
                match p {
                    Poll::Ready(Err(e)) => StepView::Stop(None, cx, Poll::Ready(Err(e))),
                    Poll::Pending => StepView::Stop(
                        Some(O2OView::FlushWriter { reader, writer }),
                        cx,
                        Poll::Pending,
                    ),
                    Poll::Ready(Ok(())) => match writer.into_writer() {
                        Err(e) => StepView::Stop(None, cx, Poll::Ready(Err(e))),
                        Ok(writer) => StepView::Next(O2OView::Done { reader, writer }, cx),
                    },
                }
            },
            O2OView::Done { .. } => StepView::Stop(Some(self), cx, Poll::Ready(Ok(()))),
        }
    }

    open spec fn is_done(self) -> bool {
        self is Done
    }

    proof fn step_is_sound(self, cx: Cx) {
    }
}

impl<R, W> O2OView<R, W> {
    /// How many steps there are at most before an outcome has to be taken.
    pub open spec fn rank(self) -> nat {
        match self {
            O2OView::ReadData { .. } => 2,
            O2OView::WriteData { .. } => 1,
            O2OView::FlushWriter { .. } => 1,
            O2OView::Done { .. } => 0,
        }
    }
}

/// One step of the forwarder.
fn advance<R, W>(state: O2OState<R, W>, cx: &mut Context) -> (r: Step<O2OState<R, W>>)
    ensures
        step_view(r, final(cx)@) == state@.step(old(cx)@),
        r matches Step::Next(next) ==> final(cx)@.events() < old(cx)@.events() || (
        final(cx)@.events() == old(cx)@.events() && next@.rank() < state@.rank()),
{
    match state {
        O2OState::ReadData { mut reader, writer } => {
            proof {
                other_read_is_exact(reader@, cx@, READ_SIZE as nat);
            }
            match reader.poll_read(cx, READ_SIZE) {
                Poll::Ready(Err(e)) => Step::Stop(None, Poll::Ready(Err(e))),
                Poll::Pending => Step::Stop(
                    Some(O2OState::ReadData { reader, writer }),
                    Poll::Pending,
                ),
                Poll::Ready(Ok(None)) => {
                    let reader = reader.into_done();
                    Step::Next(O2OState::FlushWriter { reader, writer })
                },
                Poll::Ready(Ok(Some(data))) => Step::Next(
                    O2OState::WriteData { reader, writer, data },
                ),
            }
        },
        O2OState::WriteData { reader, mut writer, mut data } => match writer.poll_write(cx, &data) {
            Poll::Ready(Err(e)) => Step::Stop(None, Poll::Ready(Err(e))),
            Poll::Pending => Step::Stop(
                Some(O2OState::WriteData { reader, writer, data }),
                Poll::Pending,
            ),
            Poll::Ready(Ok(len)) => {
                let _written = data.split_to(len);
                Step::Next(
                    if data.len() > 0 {
                        O2OState::WriteData { reader, writer, data }
                    } else {
                        O2OState::ReadData { reader, writer }
                    },
                )
            },
        },
        O2OState::FlushWriter { reader, mut writer } => match writer.poll_flush(cx) {
            Poll::Ready(Err(e)) => Step::Stop(None, Poll::Ready(Err(e))),
            Poll::Pending => Step::Stop(
                Some(O2OState::FlushWriter { reader, writer }),
                Poll::Pending,
            ),
            Poll::Ready(Ok(())) => match writer.into_writer() {
                Ok(writer) => Step::Next(O2OState::Done { reader, writer }),
                Err(e) => Step::Stop(None, Poll::Ready(Err(e))),
            },
        },
        O2OState::Done { reader, writer } => Step::Stop(
            Some(O2OState::Done { reader, writer }),
            Poll::Ready(Ok(())),
        ),
    }
}

/// Forwards a body neither end of which is chunk-encoded.
pub struct OtherToOtherBodyForwarder<R, W> {
    state: Option<O2OState<R, W>>,
}

impl<R, W> View for OtherToOtherBodyForwarder<R, W> {
    type V = Option<O2OView<R, W>>;

    closed spec fn view(&self) -> Option<O2OView<R, W>> {
        option_view(self.state)
    }
}

impl<R, W> OtherToOtherBodyForwarder<R, W> {
    /// A forwarder at the start of a body.
    pub fn new(reader: OtherBodyReader<R>, writer: OtherBodyWriter<W>) -> (r: Self)
        ensures
            r@ == Some(O2OView::ReadData { reader: reader@, writer: writer@ }),
    {
        Self { state: Some(O2OState::ReadData { reader, writer }) }
    }

    /// Forward as much as can be forwarded. Of a body, exactly its bytes are
    /// forwarded, in order, however it comes in and however the writes come out; and
    /// what stands behind the body stays unread.
    pub fn poll_forward(&mut self, cx: &mut Context) -> (r: Poll<BodyResult<()>>)
        ensures
            exists|n: nat| #[trigger]
                run(old(self)@, old(cx)@, n) == Some((final(self)@, final(cx)@, r)),
            forwards(old(self)@, old(cx)@, final(self)@, final(cx)@, r),
    {
        let ghost mut k: nat = 0;
        let mut state = match self.state.take() {
            None => {
                assert(run(old(self)@, cx@, 1) is Some);
                return Poll::Ready(Err(BodyError::ForwardAfterError));
            },
            Some(state) => state,
        };
        loop
            invariant
                forall|n: nat| #[trigger]
                    run(Some(state@), cx@, n) == run(old(self)@, old(cx)@, n + k),
                self.state is None,
            decreases cx@.events(), state@.rank(),
        {
            let ghost before = state@;
            let ghost cx0 = cx@;
            proof {
                assert(run(Some(before), cx0, 1) == run(old(self)@, old(cx)@, 1 + k));
            }
            match advance(state, cx) {
                Step::Stop(parked, p) => {
                    self.state = parked;
                    proof {
                        lemma_forwards(old(self)@, old(cx)@, 1 + k, self@, cx@, p);
                    }
                    return p;
                },
                Step::Next(next) => {
                    state = next;
                    proof {
                        assert forall|n: nat| #[trigger]
                            run(Some(state@), cx@, n) == run(
                            old(self)@,
                            old(cx)@,
                            n + (k + 1),
                        ) by {
                            assert(run(Some(before), cx0, n + 1) == run(
                                old(self)@,
                                old(cx)@,
                                n + 1 + k,
                            ));
                        }
                        k = k + 1;
                    }
                },
            }
        }
    }
}

impl<R, W> O2OView<R, W> {
    /// The reader, until the body has been read.
    pub open spec fn source(self) -> Option<OtherReaderView<R>> {
        match self {
            O2OView::ReadData { reader, .. } => Some(reader),
            O2OView::WriteData { reader, .. } => Some(reader),
            _ => None,
        }
    }

    /// The rest of a body is unread, or still to come: `body`, and `rest` behind it.
    pub open spec fn carries(
        self,
        cx: Cx,
        coming: Seq<u8>,
        body: Seq<u8>,
        rest: Seq<u8>,
    ) -> bool {
        match self {
            O2OView::ReadData { reader, .. } => reader.holds(cx, coming, body, rest),
            O2OView::WriteData { reader, .. } => reader.holds(cx, coming, body, rest),
            O2OView::FlushWriter { reader, .. } => body.len() == 0 && reader.unread(cx) + coming
                == rest,
            O2OView::Done { reader, .. } => body.len() == 0 && reader.unread(cx) + coming == rest,
        }
    }

    /// What is still to be put on the wire of a body whose rest is `body`.
    pub open spec fn to_write(self, body: Seq<u8>) -> Seq<u8> {
        match self {
            O2OView::WriteData { data, .. } => data + body,
            _ => body,
        }
    }

    /// The stream of a body that ends with the connection does not end while bytes of
    /// it are still to come.
    pub open spec fn comes_whole(self, cx: Cx, coming: Seq<u8>) -> bool {
        self.source() matches Some(reader) ==> reader.comes_whole(cx, coming)
    }

    /// A read can fail.
    pub open spec fn can_fail(self, cx: Cx, coming: Seq<u8>) -> bool {
        self.source() matches Some(reader) && reader.can_fail(cx, coming)
    }

    /// The forwarder carries the rest of a body; and what is on the wire and still to
    /// be put there makes up `all`.
    pub open spec fn goes_on(
        self,
        cx: Cx,
        all: Seq<u8>,
        coming: Seq<u8>,
        rest: Seq<u8>,
    ) -> bool {
        exists|left: Seq<u8>|
            #[trigger] self.carries(cx, coming, left, rest) && cx.wire + self.to_write(left) == all
    }
}

/// What a poll has come to, where `all` is what is on the wire once the body has
/// been forwarded, and `can_fail` says whether a read of it can fail.
pub open spec fn has_forwarded<R, W>(
    t: Option<O2OView<R, W>>,
    cx2: Cx,
    r: Poll<BodyResult<()>>,
    can_fail: bool,
    coming: Seq<u8>,
    all: Seq<u8>,
    rest: Seq<u8>,
) -> bool {
    match t {
        Some(t) => t.goes_on(cx2, all, coming, rest) && ((r matches Poll::Ready(Ok(()))) ==> t is Done
            && t.carries(cx2, coming, Seq::empty(), rest) && cx2.wire == all),
        None => r matches Poll::Ready(Err(e)) && (is_write_error(e) || can_fail),
    }
}

/// What a poll does to a body that comes in: what was to be put on the wire is
/// there once the poll succeeds, and until then what is there and what is still to
/// be put there make up the same bytes. A poll fails only where a write does, or a
/// read before the body has come.
pub open spec fn forwards<R, W>(
    s: Option<O2OView<R, W>>,
    cx: Cx,
    t: Option<O2OView<R, W>>,
    cx2: Cx,
    r: Poll<BodyResult<()>>,
) -> bool {
    forall|coming: Seq<u8>, body: Seq<u8>, rest: Seq<u8>|
        s is Some && #[trigger] s->Some_0.carries(cx, coming, body, rest) ==> has_forwarded(
            t,
            cx2,
            r,
            s->Some_0.can_fail(cx, coming),
            coming,
            cx.wire + s->Some_0.to_write(body),
            rest,
        )
}

proof fn lemma_step_forwards<R, W>(
    s: O2OView<R, W>,
    cx: Cx,
    coming: Seq<u8>,
    body: Seq<u8>,
    rest: Seq<u8>,
)
    requires
        s.carries(cx, coming, body, rest),
    ensures
        match s.step(cx) {
            StepView::Next(t, cx2) => t.goes_on(cx2, cx.wire + s.to_write(body), coming, rest) && (
            t.can_fail(cx2, coming) ==> s.can_fail(cx, coming)),
            StepView::Stop(Some(t), cx2, _) => t.goes_on(
                cx2,
                cx.wire + s.to_write(body),
                coming,
                rest,
            ),
            StepView::Stop(None, _, p) => p matches Poll::Ready(Err(e)) && (is_write_error(e)
                || s.can_fail(cx, coming)),
        },
{
    match s {
        O2OView::ReadData { reader, writer } => {
            other_read_is_exact(reader, cx, READ_SIZE as nat);
            other_read_gives_the_body(reader, cx, READ_SIZE as nat, coming, body, rest);
            let (reader2, cx2, p) = reader.poll_read(cx, READ_SIZE as nat);
            match p {
                Poll::Ready(Ok(Some(data))) => {
                    let t = O2OView::WriteData { reader: reader2, writer, data };
                    let left = body.skip(data.len() as int);
                    assert(t.carries(cx2, coming, left, rest));
                    assert(data + left =~= body);
                },
                Poll::Ready(Ok(None)) => {
                    let t = O2OView::FlushWriter { reader: reader2.into_done(), writer };
                    assert(t.carries(cx2, coming, body, rest));
                },
                Poll::Pending => {
                    let t = O2OView::ReadData { reader: reader2, writer };
                    assert(t.carries(cx2, coming, body, rest));
                },
                _ => {},
            }
        },
        O2OView::WriteData { reader, writer, data } => {
            other_write_keeps_bytes(writer, cx, data);
            let (writer2, cx2, p) = writer.poll_write(cx, data);
            match p {
                Poll::Ready(Ok(n)) => {
                    let left = data.skip(n as int);
                    let t = if left.len() > 0 {
                        O2OView::WriteData { reader, writer: writer2, data: left }
                    } else {
                        O2OView::ReadData { reader, writer: writer2 }
                    };
                    assert(t.carries(cx2, coming, body, rest));
                    assert(cx2.wire + t.to_write(body) =~= cx.wire + (data + body));
                },
                Poll::Pending => {
                    let t = O2OView::WriteData { reader, writer: writer2, data };
                    assert(t.carries(cx2, coming, body, rest));
                },
                _ => {},
            }
        },
        O2OView::FlushWriter { reader, writer } => {
            let (cx2, _, p) = flush_step(cx, false);
            let t = match p {
                Poll::Ready(Ok(())) => match writer.into_writer() {
                    Ok(writer) => O2OView::Done { reader, writer },
                    Err(_) => s,
                },
                _ => s,
            };
            assert(t.carries(cx2, coming, body, rest));
        },
        O2OView::Done { .. } => {
            assert(s.carries(cx, coming, body, rest));
        },
    }
}

proof fn lemma_run_forwards<R, W>(
    s: O2OView<R, W>,
    cx: Cx,
    fuel: nat,
    parked: Option<O2OView<R, W>>,
    cx2: Cx,
    p: Poll<BodyResult<()>>,
    coming: Seq<u8>,
    body: Seq<u8>,
    rest: Seq<u8>,
)
    requires
        s.carries(cx, coming, body, rest),
        run(Some(s), cx, fuel) == Some((parked, cx2, p)),
    ensures
        has_forwarded(
            parked,
            cx2,
            p,
            s.can_fail(cx, coming),
            coming,
            cx.wire + s.to_write(body),
            rest,
        ),
    decreases fuel,
{
    let all = cx.wire + s.to_write(body);
    lemma_step_forwards(s, cx, coming, body, rest);
    match s.step(cx) {
        StepView::Next(next, cx1) => {
            let left = choose|left: Seq<u8>|
                #[trigger] next.carries(cx1, coming, left, rest) && cx1.wire + next.to_write(left)
                    == all;
            lemma_run_forwards(next, cx1, (fuel - 1) as nat, parked, cx2, p, coming, left, rest);
        },
        StepView::Stop(_, _, _) => {
            s.step_is_sound(cx);
            if let Some(t) = parked {
                if t is Done {
                    let left = choose|left: Seq<u8>|
                        #[trigger] t.carries(cx2, coming, left, rest) && cx2.wire + t.to_write(left)
                            == all;
                    assert(left =~= Seq::empty());
                    assert(cx2.wire + left =~= cx2.wire);
                }
            }
        },
    }
}

proof fn lemma_forwards<R, W>(
    s: Option<O2OView<R, W>>,
    cx: Cx,
    fuel: nat,
    t: Option<O2OView<R, W>>,
    cx2: Cx,
    r: Poll<BodyResult<()>>,
)
    requires
        run(s, cx, fuel) == Some((t, cx2, r)),
    ensures
        forwards(s, cx, t, cx2, r),
{
    assert forall|coming: Seq<u8>, body: Seq<u8>, rest: Seq<u8>|
        s is Some && #[trigger] s->Some_0.carries(cx, coming, body, rest) implies has_forwarded(
        t,
        cx2,
        r,
        s->Some_0.can_fail(cx, coming),
        coming,
        cx.wire + s->Some_0.to_write(body),
        rest,
    ) by {
        lemma_run_forwards(s->Some_0, cx, fuel, t, cx2, r, coming, body, rest);
    }
}

impl<R, W> O2OView<R, W> {
    /// The bytes that have come and have not been consumed.
    pub open spec fn unread(self, cx: Cx) -> Seq<u8> {
        match self {
            O2OView::ReadData { reader, .. } => reader.unread(cx),
            O2OView::WriteData { reader, .. } => reader.unread(cx),
            O2OView::FlushWriter { reader, .. } => reader.unread(cx),
            O2OView::Done { reader, .. } => reader.unread(cx),
        }
    }
}

/// The polls follow each other: between two of them nothing is put on the wire, and
/// bytes only come in, in order, of those that were still to come; and a stream that
/// ends a body ends only behind it.
pub open spec fn polls_follow<R, W>(
    s: O2OView<R, W>,
    polls: Seq<ForwardPoll<O2OView<R, W>>>,
) -> bool
    decreases polls.len(),
{
    polls.len() > 0 ==> {
        let before = polls.drop_last();
        let last = polls.last();
        if before.len() == 0 {
            forwards(Some(s), last.cx, last.parked, last.cx2, last.r)
        } else {
            let prior = before.last();
            &&& polls_follow(s, before)
            &&& prior.parked is Some
            &&& forwards(prior.parked, last.cx, last.parked, last.cx2, last.r)
            &&& last.cx.wire == prior.cx2.wire
            &&& prior.parked->Some_0.unread(last.cx) + last.coming
                == prior.parked->Some_0.unread(prior.cx2) + prior.coming
            &&& prior.parked->Some_0.comes_whole(last.cx, last.coming)
        }
    }
}

/// Over all polls, however the body comes in and however the writes come out: what
/// is on the wire and still to be put there make up what was there before and the
/// body; and once a poll succeeds, all of it is there, and what follows is unread.
pub proof fn polls_forward_the_body<R, W>(
    s: O2OView<R, W>,
    polls: Seq<ForwardPoll<O2OView<R, W>>>,
    body: Seq<u8>,
    rest: Seq<u8>,
)
    requires
        polls.len() > 0,
        polls_follow(s, polls),
        s.carries(polls[0].cx, polls[0].coming, body, rest),
    ensures
        has_forwarded(
            polls.last().parked,
            polls.last().cx2,
            polls.last().r,
            polled_last(s, polls).can_fail(polls.last().cx, polls.last().coming),
            polls.last().coming,
            polls[0].cx.wire + s.to_write(body),
            rest,
        ),
    decreases polls.len(),
{
    let before = polls.drop_last();
    let last = polls.last();
    let all = polls[0].cx.wire + s.to_write(body);
    if before.len() > 0 {
        assert(before[0] == polls[0]);
        polls_forward_the_body(s, before, body, rest);
        let prior = before.last();
        let m = prior.parked->Some_0;
        assert(prior.parked == Some(m));
        assert(m.goes_on(prior.cx2, all, prior.coming, rest));
        let left = choose|left: Seq<u8>|
            #[trigger] m.carries(prior.cx2, prior.coming, left, rest) && prior.cx2.wire + m.to_write(
                left,
            ) == all;
        assert(m.carries(last.cx, last.coming, left, rest));
        assert(prior == polls[polls.len() - 2]);
    } else {
        assert(Some(s)->Some_0.carries(last.cx, last.coming, body, rest));
    }
}

impl<R, W> O2OView<R, W> {
    /// Everything that is under way: what is on the wire, what has been read
    /// and not been written, and what has come and has not been read.
    pub open spec fn under_way(self, cx: Cx) -> Seq<u8> {
        match self {
            O2OView::ReadData { reader, .. } => cx.wire + reader.unread(cx),
            O2OView::WriteData { reader, data, .. } => cx.wire + data + reader.unread(cx),
            O2OView::FlushWriter { reader, .. } => cx.wire + reader.unread(cx),
            O2OView::Done { reader, .. } => cx.wire + reader.unread(cx),
        }
    }

    /// What holds of a forwarder from its creation on.
    pub open spec fn is_valid(self) -> bool {
        match self {
            O2OView::ReadData { reader, .. } => reader.is_valid(),
            O2OView::WriteData { reader, .. } => reader.is_valid(),
            _ => true,
        }
    }
}

proof fn lemma_step_keeps_bytes<R, W>(s: O2OView<R, W>, cx: Cx)
    requires
        s.is_valid(),
    ensures
        match s.step(cx) {
            StepView::Next(t, cx2) => t.is_valid() && t.under_way(cx2) == s.under_way(cx),
            StepView::Stop(Some(t), cx2, _) => t.is_valid() && t.under_way(cx2) == s.under_way(cx),
            StepView::Stop(None, _, _) => true,
        },
{
    match s {
        O2OView::ReadData { reader, writer } => {
            other_read_is_exact(reader, cx, READ_SIZE as nat);
            other_read_keeps_valid(reader, cx, READ_SIZE as nat);
            let (reader2, cx2, p) = reader.poll_read(cx, READ_SIZE as nat);
            if let Poll::Ready(Ok(Some(data))) = p {
                assert(cx2.wire + data + reader2.unread(cx2) =~= cx.wire + reader.unread(cx));
            }
        },
        O2OView::WriteData { reader, writer, data } => {
            other_write_keeps_bytes(writer, cx, data);
            let (writer2, cx2, p) = writer.poll_write(cx, data);
            if let Poll::Ready(Ok(n)) = p {
                let left = data.skip(n as int);
                assert(cx2.wire + left + reader.unread(cx2) =~= cx.wire + data + reader.unread(cx));
                if left.len() == 0 {
                    assert(cx2.wire + reader.unread(cx2) =~= cx.wire + data + reader.unread(cx));
                }
            }
        },
        _ => {},
    }
}

/// Forwarding neither loses, repeats, reorders nor changes a byte: however
/// reads and writes come out, what is on the wire, in between and still unread
/// makes up the same bytes as before, unless the forwarder fails.
pub proof fn forwarding_keeps_bytes<R, W>(
    s: O2OView<R, W>,
    cx: Cx,
    fuel: nat,
    t: O2OView<R, W>,
    cx2: Cx,
    p: Poll<BodyResult<()>>,
)
    requires
        s.is_valid(),
        run(Some(s), cx, fuel) == Some((Some(t), cx2, p)),
    ensures
        t.is_valid(),
        t.under_way(cx2) == s.under_way(cx),
    decreases fuel,
{
    lemma_step_keeps_bytes(s, cx);
    if let StepView::Next(next, cx1) = s.step(cx) {
        forwarding_keeps_bytes(next, cx1, (fuel - 1) as nat, t, cx2, p);
    }
}

impl<R, W> O2OView<R, W> {
    /// The writer, until the body has been written.
    pub open spec fn writer(self) -> Option<OtherWriterView<W>> {
        match self {
            O2OView::ReadData { writer, .. } => Some(writer),
            O2OView::WriteData { writer, .. } => Some(writer),
            O2OView::FlushWriter { writer, .. } => Some(writer),
            O2OView::Done { .. } => None,
        }
    }
}

/// Where forwarding succeeds, what was written has been flushed, and a body of
/// stated length has exactly that length.
pub proof fn success_means_complete<R, W>(
    s: O2OView<R, W>,
    cx: Cx,
    fuel: nat,
    parked: Option<O2OView<R, W>>,
    cx2: Cx,
)
    requires
        !(s is Done),
        s.writer() matches Some(OtherWriterView::ContentLength(w)) ==> w.offset <= w.length,
        run(Some(s), cx, fuel) == Some((parked, cx2, Poll::Ready(Ok::<(), BodyError>(())))),
    ensures
        parked matches Some(t) && t is Done,
        cx.flush matches Some(Ok(_)),
        cx2.flush is None,
        cx.wire.len() <= cx2.wire.len(),
        s.writer() matches Some(OtherWriterView::ContentLength(w)) ==> w.offset + (cx2.wire.len()
            - cx.wire.len()) == w.length,
    decreases fuel,
{
    match s {
        O2OView::ReadData { reader, .. } => {
            other_read_is_exact(reader, cx, READ_SIZE as nat);
        },
        O2OView::WriteData { writer, data, .. } => {
            other_write_keeps_bytes(writer, cx, data);
        },
        _ => {},
    }
    poll_ends_soundly(Some(s), cx, fuel, parked, cx2, Poll::Ready(Ok(())));
    if let StepView::Next(next, cx1) = s.step(cx) {
        if !(next is Done) {
            success_means_complete(next, cx1, (fuel - 1) as nat, parked, cx2);
        } else {
            assert(run(Some(next), cx1, (fuel - 1) as nat) is Some);
            success_is_final(next, cx1, (fuel - 1) as nat);
        }
    }
}

/// A step fails exactly where the read, the write or the flush that it makes does, and with
/// that error; or where a body of stated length is over before all of it has been written.
pub proof fn steps_fail_where_their_part_does<R, W>(s: O2OView<R, W>, cx: Cx)
    ensures
        ({
            let part = match s {
                O2OView::ReadData { reader, .. } => failure(
                    reader.poll_read(cx, READ_SIZE as nat).2,
                ),
                O2OView::WriteData { writer, data, .. } => failure(writer.poll_write(cx, data).2),
                O2OView::FlushWriter { writer, .. } => match (cx.flush, writer) {
                    (Some(Err(e)), _) => Some(BodyError::BodyWriteError(WriteFailure::Io(e))),
                    (Some(Ok(())), OtherWriterView::ContentLength(w)) => if w.offset < w.length {
                        Some(BodyError::IncompleteBody { expected: w.length, actual: w.offset })
                    } else {
                        None
                    },
                    _ => None,
                },
                O2OView::Done { .. } => None,
            };
            match s.step(cx) {
                StepView::Stop(None, _, p) => part is Some && p == Poll::Ready(
                    Err::<(), _>(part->Some_0),
                ),
                _ => part is None,
            }
        }),
{
}

impl<R, W> O2OView<R, W> {
    /// The connection that comes back of those that are written to: none after a body that
    /// ends with it.
    pub open spec fn sink(self) -> Option<W> {
        match self {
            O2OView::Done { writer, .. } => writer,
            _ => match self.writer()->Some_0 {
                OtherWriterView::ContentLength(w) => Some(w.writer),
                OtherWriterView::Eof(_) => None,
            },
        }
    }

    /// The connection that comes back of those that are read from, and the slots: none after
    /// a body that ends with it.
    pub open spec fn given_back(self) -> (Option<R>, nat) {
        match self {
            O2OView::FlushWriter { reader, .. } => (
                match reader.reader {
                    Some(r) => Some(r.io),
                    None => None,
                },
                reader.slots,
            ),
            O2OView::Done { reader, .. } => (
                match reader.reader {
                    Some(r) => Some(r.io),
                    None => None,
                },
                reader.slots,
            ),
            _ => match self.source()->Some_0 {
                OtherReaderView::ContentLength(r) => (Some(r.reader.io), r.slots),
                OtherReaderView::Eof(r) => (None, r.slots),
            },
        }
    }
}

/// Forwarding keeps the connections: those that come back at its end are those that it was
/// started with, but for one that a body ends with, which does not come back.
pub proof fn forwarding_keeps_the_connections<R, W>(
    s: O2OView<R, W>,
    cx: Cx,
    fuel: nat,
    t: O2OView<R, W>,
    cx2: Cx,
    p: Poll<BodyResult<()>>,
)
    requires
        run(Some(s), cx, fuel) == Some((Some(t), cx2, p)),
    ensures
        t.sink() == s.sink(),
        t.given_back() == s.given_back(),
    decreases fuel,
{
    if let StepView::Next(next, cx1) = s.step(cx) {
        forwarding_keeps_the_connections(next, cx1, (fuel - 1) as nat, t, cx2, p);
    }
}

/// At its start, a forwarder has all of the body to put on the wire, and nothing else.
pub proof fn all_of_the_body_is_to_be_written<R, W>(
    reader: OtherReaderView<R>,
    writer: OtherWriterView<W>,
    body: Seq<u8>,
)
    ensures
        (O2OView::ReadData { reader, writer }).to_write(body) == body,
{
}

/// A poll that completes the forwarding has flushed what was written: the outcome of a flush
/// was there, it was no failure, and it is taken. No other poll takes a flush for one that is
/// done.
pub proof fn forwarding_ends_with_a_flush<R, W>(
    s: O2OView<R, W>,
    cx: Cx,
    fuel: nat,
    t: O2OView<R, W>,
    cx2: Cx,
    p: Poll<BodyResult<()>>,
)
    requires
        run(Some(s), cx, fuel) == Some((Some(t), cx2, p)),
        !(s is Done),
    ensures
        t is Done ==> cx.flush is Some && cx.flush->Some_0 is Ok && cx2.flush is None,
        t is Done <==> p is Ready,
    decreases fuel,
{
    reveal_with_fuel(run, 2);
    match s {
        O2OView::ReadData { reader, .. } => crate::body::forwarder::other::other_read_is_exact(
            reader,
            cx,
            READ_SIZE as nat,
        ),
        _ => {},
    }
    if let StepView::Next(next, cx1) = s.step(cx) {
        if !(next is Done) {
            forwarding_ends_with_a_flush(next, cx1, (fuel - 1) as nat, t, cx2, p);
        }
    }
}

} // verus!

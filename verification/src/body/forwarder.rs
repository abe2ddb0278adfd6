//! Forwarders: machines that read a body from one connection and write it to
//! another, changing its framing where the two differ.
use vstd::prelude::*;

use crate::body::error::{BodyError, BodyResult};
use crate::body::forwarder::chunked_to_chunked::ChunkToChunkBodyForwarder;
use crate::body::forwarder::chunked_to_other::ChunkToOtherBodyForwarder;
use crate::body::forwarder::other_to_chunked::OtherToChunkedBodyForwarder;
use crate::body::forwarder::other_to_other::OtherToOtherBodyForwarder;
use crate::transport::{Context, Cx, Poll};

pub mod chunked_to_chunked;
pub mod chunked_to_other;
pub mod other;
pub mod other_to_chunked;
pub mod other_to_other;

verus! {

/// How much of a body is read at a time.
pub const READ_SIZE: usize = 8192;

/// What one step of a machine comes to: another state, or the end of a poll,
/// with the state in which the machine is parked. A machine that has failed is
/// parked in no state.
pub enum Step<S> {
    Next(S),
    Stop(Option<S>, Poll<BodyResult<()>>),
}

/// The model of a [`Step`], with what is left of the context.
pub enum StepView<S> {
    Next(S, Cx),
    Stop(Option<S>, Cx, Poll<BodyResult<()>>),
}

/// A machine that is run step by step.
pub trait Machine: Sized {
    /// One step.
    spec fn step(self, cx: Cx) -> StepView<Self>;

    /// Whether there is nothing more to do.
    spec fn is_done(self) -> bool;

    /// A step ends a poll as pending only where the transport is awaited, as done
    /// only where there is nothing more to do, and as failed without a state to go
    /// on from; and where there is nothing more to do, a step does nothing.
    proof fn step_is_sound(self, cx: Cx)
        ensures
            match self.step(cx) {
                StepView::Next(_, _) => true,
                StepView::Stop(parked, cx2, Poll::Pending) => parked is Some && cx2.awaits(),
                StepView::Stop(parked, _, Poll::Ready(Ok(()))) => parked matches Some(t)
                    && t.is_done(),
                StepView::Stop(parked, _, Poll::Ready(Err(_))) => parked is None,
            },
            self.is_done() ==> self.step(cx) == StepView::Stop(
                Some(self),
                cx,
                Poll::Ready(Ok::<(), BodyError>(())),
            ),
    ;
}

/// Steps, at most `fuel` of them, until one ends the poll: `None` where that
/// takes more. A machine that has failed before is not run.
pub open spec fn run<M: Machine>(m: Option<M>, cx: Cx, fuel: nat) -> Option<
    (Option<M>, Cx, Poll<BodyResult<()>>),
>
    decreases fuel,
{
    if fuel == 0 {
        None
    } else {
        match m {
            None => Some((None, cx, Poll::Ready(Err(BodyError::ForwardAfterError)))),
            Some(m) => match m.step(cx) {
                StepView::Stop(parked, cx, p) => Some((parked, cx, p)),
                StepView::Next(next, cx) => run(Some(next), cx, (fuel - 1) as nat),
            },
        }
    }
}

/// An error of writing a body: the transport failed, or the body does not have
/// the stated length.
pub open spec fn is_write_error(e: BodyError) -> bool {
    e is BodyWriteError || e is BodyOverflow || e is IncompleteBody
}

/// The view of a step.
pub open spec fn step_view<S: View>(s: Step<S>, cx: Cx) -> StepView<S::V> {
    match s {
        Step::Next(next) => StepView::Next(next@, cx),
        Step::Stop(None, p) => StepView::Stop(None, cx, p),
        Step::Stop(Some(parked), p) => StepView::Stop(Some(parked@), cx, p),
    }
}

/// The view of an optional value.
pub open spec fn option_view<S: View>(s: Option<S>) -> Option<S::V> {
    match s {
        None => None,
        Some(s) => Some(s@),
    }
}

/// What a run comes to does not depend on how many steps it may take, as long
/// as they suffice.
pub proof fn run_is_determined<M: Machine>(m: Option<M>, cx: Cx, a: nat, b: nat)
    requires
        run(m, cx, a) is Some,
        run(m, cx, b) is Some,
    ensures
        run(m, cx, a) == run(m, cx, b),
    decreases a,
{
    if let Some(m) = m {
        if let StepView::Next(next, cx2) = m.step(cx) {
            run_is_determined(Some(next), cx2, (a - 1) as nat, (b - 1) as nat);
        }
    }
}

/// A machine that has failed fails again, and does nothing else.
pub proof fn failure_is_final<M: Machine>(cx: Cx, fuel: nat)
    requires
        fuel > 0,
    ensures
        run::<M>(None, cx, fuel) == Some(
            (None::<M>, cx, Poll::Ready(Err::<(), _>(BodyError::ForwardAfterError))),
        ),
{
}

/// A machine that is done is done again, and does nothing else.
pub proof fn success_is_final<M: Machine>(m: M, cx: Cx, fuel: nat)
    requires
        m.is_done(),
        fuel > 0,
    ensures
        run(Some(m), cx, fuel) == Some((Some(m), cx, Poll::Ready(Ok::<(), BodyError>(())))),
{
    m.step_is_sound(cx);
}

/// A poll is pending only where the transport is awaited, and the machine goes on
/// from where it is parked; it succeeds only where there is nothing more to do;
/// and after a failure there is no state to go on from.
pub proof fn poll_ends_soundly<M: Machine>(
    m: Option<M>,
    cx: Cx,
    fuel: nat,
    parked: Option<M>,
    cx2: Cx,
    p: Poll<BodyResult<()>>,
)
    requires
        run(m, cx, fuel) == Some((parked, cx2, p)),
    ensures
        match p {
            Poll::Pending => parked is Some && cx2.awaits(),
            Poll::Ready(Ok(())) => parked matches Some(t) && t.is_done(),
            Poll::Ready(Err(_)) => parked is None,
        },
    decreases fuel,
{
    if let Some(s) = m {
        s.step_is_sound(cx);
        if let StepView::Next(next, cx1) = s.step(cx) {
            poll_ends_soundly(Some(next), cx1, (fuel - 1) as nat, parked, cx2, p);
        }
    }
}

/// One of several polls of a machine: what it finds, what is still to come at that
/// time, and what it comes to.
pub struct ForwardPoll<M> {
    pub cx: Cx,
    pub coming: Seq<u8>,
    pub parked: Option<M>,
    pub cx2: Cx,
    pub r: Poll<BodyResult<()>>,
}

/// The machine that the last of several polls of `s` finds.
pub open spec fn polled_last<M>(s: M, polls: Seq<ForwardPoll<M>>) -> M {
    if polls.len() <= 1 {
        s
    } else {
        polls[polls.len() - 2].parked->Some_0
    }
}

/// A forwarder between bodies of any two framings.
pub enum BodyForwarder<R, W> {
    C2C(ChunkToChunkBodyForwarder<R, W>),
    C2O(ChunkToOtherBodyForwarder<R, W>),
    O2C(OtherToChunkedBodyForwarder<R, W>),
    O2O(OtherToOtherBodyForwarder<R, W>),
}

impl<R, W> From<ChunkToChunkBodyForwarder<R, W>> for BodyForwarder<R, W> {
    fn from(f: ChunkToChunkBodyForwarder<R, W>) -> (r: Self) {
        BodyForwarder::C2C(f)
    }
}

impl<R, W> vstd::std_specs::convert::FromSpecImpl<ChunkToChunkBodyForwarder<R, W>> for BodyForwarder<R, W> {
    open spec fn obeys_from_spec() -> bool {
        true
    }

    open spec fn from_spec(f: ChunkToChunkBodyForwarder<R, W>) -> Self {
        BodyForwarder::C2C(f)
    }
}

impl<R, W> From<ChunkToOtherBodyForwarder<R, W>> for BodyForwarder<R, W> {
    fn from(f: ChunkToOtherBodyForwarder<R, W>) -> (r: Self) {
        BodyForwarder::C2O(f)
    }
}

impl<R, W> vstd::std_specs::convert::FromSpecImpl<ChunkToOtherBodyForwarder<R, W>> for BodyForwarder<R, W> {
    open spec fn obeys_from_spec() -> bool {
        true
    }

    open spec fn from_spec(f: ChunkToOtherBodyForwarder<R, W>) -> Self {
        BodyForwarder::C2O(f)
    }
}

impl<R, W> From<OtherToChunkedBodyForwarder<R, W>> for BodyForwarder<R, W> {
    fn from(f: OtherToChunkedBodyForwarder<R, W>) -> (r: Self) {
        BodyForwarder::O2C(f)
    }
}

impl<R, W> vstd::std_specs::convert::FromSpecImpl<OtherToChunkedBodyForwarder<R, W>> for BodyForwarder<R, W> {
    open spec fn obeys_from_spec() -> bool {
        true
    }

    open spec fn from_spec(f: OtherToChunkedBodyForwarder<R, W>) -> Self {
        BodyForwarder::O2C(f)
    }
}

impl<R, W> From<OtherToOtherBodyForwarder<R, W>> for BodyForwarder<R, W> {
    fn from(f: OtherToOtherBodyForwarder<R, W>) -> (r: Self) {
        BodyForwarder::O2O(f)
    }
}

impl<R, W> vstd::std_specs::convert::FromSpecImpl<OtherToOtherBodyForwarder<R, W>> for BodyForwarder<R, W> {
    open spec fn obeys_from_spec() -> bool {
        true
    }

    open spec fn from_spec(f: OtherToOtherBodyForwarder<R, W>) -> Self {
        BodyForwarder::O2O(f)
    }
}

/// What a poll of a machine comes to: its steps, until one ends the poll.
pub open spec fn polled<M: Machine>(
    before: Option<M>,
    cx: Cx,
    after: Option<M>,
    cx2: Cx,
    r: Poll<BodyResult<()>>,
) -> bool {
    exists|n: nat| #[trigger] run(before, cx, n) == Some((after, cx2, r))
}

impl<R, W> BodyForwarder<R, W> {
    /// Forward as much as can be forwarded. Of a body, exactly its data is forwarded,
    /// in order, however it comes in and however the writes come out; and what stands
    /// behind the body stays unread.
    pub fn poll_forward(&mut self, cx: &mut Context) -> (r: Poll<BodyResult<()>>)
        ensures
            match (*old(self), *final(self)) {
                (BodyForwarder::C2C(f), BodyForwarder::C2C(g)) => polled(
                    f@,
                    old(cx)@,
                    g@,
                    final(cx)@,
                    r,
                ) && chunked_to_chunked::forwards(f@, old(cx)@, g@, final(cx)@, r),
                (BodyForwarder::C2O(f), BodyForwarder::C2O(g)) => polled(
                    f@,
                    old(cx)@,
                    g@,
                    final(cx)@,
                    r,
                ) && chunked_to_other::forwards(f@, old(cx)@, g@, final(cx)@, r),
                (BodyForwarder::O2C(f), BodyForwarder::O2C(g)) => polled(
                    f@,
                    old(cx)@,
                    g@,
                    final(cx)@,
                    r,
                ) && other_to_chunked::forwards(f@, old(cx)@, g@, final(cx)@, r),
                (BodyForwarder::O2O(f), BodyForwarder::O2O(g)) => polled(
                    f@,
                    old(cx)@,
                    g@,
                    final(cx)@,
                    r,
                ) && other_to_other::forwards(f@, old(cx)@, g@, final(cx)@, r),
                _ => false,
            },
    {
        match self {
            BodyForwarder::C2C(f) => f.poll_forward(cx),
            BodyForwarder::C2O(f) => f.poll_forward(cx),
            BodyForwarder::O2C(f) => f.poll_forward(cx),
            BodyForwarder::O2O(f) => f.poll_forward(cx),
        }
    }
}

/// The error that a part of a step has come to, if any.
pub open spec fn failure<T>(p: Poll<BodyResult<T>>) -> Option<BodyError> {
    match p {
        Poll::Ready(Err(e)) => Some(e),
        _ => None,
    }
}

/// A run fails only where one of its steps does, with the error of that step.
pub proof fn runs_fail_where_a_step_does<M: Machine>(m: M, cx: Cx, fuel: nat)
    requires
        fuel > 0,
        !(m.step(cx) is Next),
    ensures
        run(Some(m), cx, fuel) == Some(
            (
                m.step(cx)->Stop_0,
                m.step(cx)->Stop_1,
                m.step(cx)->Stop_2,
            ),
        ),
{
}

/// A run goes on with the state that a step has come to.
pub proof fn runs_go_on_with_the_next_state<M: Machine>(m: M, cx: Cx, fuel: nat)
    requires
        fuel > 0,
        m.step(cx) is Next,
    ensures
        run(Some(m), cx, fuel) == run(
            Some(m.step(cx)->Next_0),
            m.step(cx)->Next_1,
            (fuel - 1) as nat,
        ),
{
}

} // verus!

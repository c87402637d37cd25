//! The completion bridge: a caller that must never block polls for the result
//! of work that runs, and may block, on another thread.
//!
//! The worker sends one `Result<T, String>` over a one-shot channel. Polling
//! looks at the channel without blocking and keeps what arrived; the caller
//! then takes the result exactly once.

use std::sync::mpsc::{Receiver, TryRecvError};
use vstd::prelude::*;

verus! {

#[verifier::external_type_specification]
#[verifier::external_body]
#[verifier::reject_recursive_types(T)]
pub struct ExReceiver<T>(Receiver<T>);

/// What one non-blocking look at a channel found.
pub enum RecvOutcome<T> {
    /// The value that the sender sent.
    Received(T),
    /// Nothing yet, and the sender is still alive.
    Empty,
    /// Nothing, and the sender is gone.
    Disconnected,
}

/// Relies on `Receiver::try_recv`, which never blocks: the value sent, if one
/// waits; `Empty` while the sender lives; `Disconnected` once it is gone and
/// nothing is left. Which comes depends on the other thread, so nothing is
/// promised.
#[verifier::external_body]
fn try_receive<T>(receiver: &Receiver<T>) -> RecvOutcome<T> {
    match receiver.try_recv() {
        Ok(value) => RecvOutcome::Received(value),
        Err(TryRecvError::Empty) => RecvOutcome::Empty,
        Err(TryRecvError::Disconnected) => RecvOutcome::Disconnected,
    }
}

/// What a poll reports.
#[derive(Debug)]
pub enum PendingState {
    /// The work has not finished.
    Pending,
    /// The work finished with a value.
    ReadyOk,
    /// The work failed, with this message.
    ReadyErr(String),
}

/// The message recorded when the worker went away without sending.
pub open spec fn disconnected_message() -> Seq<char> {
    "pending operation channel disconnected"@
}

/// The abstract state of a pending operation: whether it still listens on
/// its channel, and the result kept from it (errors by their text).
pub struct PendingModel<T> {
    pub listening: bool,
    pub cached: Option<Result<T, Seq<char>>>,
}

/// A pending operation just made: listening, nothing kept.
pub open spec fn fresh_model<T>() -> PendingModel<T> {
    PendingModel { listening: true, cached: None }
}

/// The state after a poll that found `outcome` on the channel. A kept result,
/// or a channel no longer listened to, leaves the state as it is.
pub open spec fn poll_step<T>(
    m: PendingModel<T>,
    outcome: RecvOutcome<Result<T, String>>,
) -> PendingModel<T> {
    if m.cached is Some || !m.listening {
        m
    } else {
        match outcome {
            RecvOutcome::Received(Ok(v)) => PendingModel { listening: false, cached: Some(Ok(v)) },
            RecvOutcome::Received(Err(e)) => PendingModel {
                listening: false,
                cached: Some(Err(e@)),
            },
            RecvOutcome::Empty => m,
            RecvOutcome::Disconnected => PendingModel {
                listening: false,
                cached: Some(Err(disconnected_message())),
            },
        }
    }
}

/// The state after the kept result is taken.
pub open spec fn take_step<T>(m: PendingModel<T>) -> PendingModel<T> {
    PendingModel { listening: m.listening, cached: None }
}

/// `state` reports the kept result of `m`.
pub open spec fn reports<T>(state: PendingState, m: PendingModel<T>) -> bool {
    match m.cached {
        None => state is Pending,
        Some(Ok(_)) => state is ReadyOk,
        Some(Err(e)) => state matches PendingState::ReadyErr(s) && s@ == e,
    }
}

/// A result as the model holds it: errors by their text.
pub open spec fn result_model<T>(r: Option<Result<T, String>>) -> Option<Result<T, Seq<char>>> {
    match r {
        Some(Ok(v)) => Some(Ok(v)),
        Some(Err(e)) => Some(Err(e@)),
        None => None,
    }
}

/// One call on a pending operation.
pub enum PendingCall<T> {
    /// A poll that found this on the channel.
    Poll(RecvOutcome<Result<T, String>>),
    /// A `take_result`.
    Take,
}

/// The state after one call.
pub open spec fn call_step<T>(m: PendingModel<T>, call: PendingCall<T>) -> PendingModel<T> {
    match call {
        PendingCall::Poll(outcome) => poll_step(m, outcome),
        PendingCall::Take => take_step(m),
    }
}

/// The state after the calls `calls`, in order.
pub open spec fn run_calls<T>(m: PendingModel<T>, calls: Seq<PendingCall<T>>) -> PendingModel<T>
    decreases calls.len(),
{
    if calls.len() == 0 {
        m
    } else {
        run_calls(call_step(m, calls[0]), calls.drop_first())
    }
}

/// An operation that no longer listens and keeps nothing stays so.
pub proof fn lemma_drained_stays_drained<T>(m: PendingModel<T>, calls: Seq<PendingCall<T>>)
    requires
        !m.listening,
        m.cached is None,
    ensures
        run_calls(m, calls) == m,
    decreases calls.len(),
{
    if calls.len() > 0 {
        lemma_drained_stays_drained(call_step(m, calls[0]), calls.drop_first());
    }
}

/// A worker that sends `Ok(v)` is reported ready with a value at the next
/// poll; `take_result` then hands over `Ok(v)`, and every later
/// `take_result`, whatever polls and takes come between, finds nothing.
pub proof fn law_value_is_taken_exactly_once<T>(v: T, later: Seq<PendingCall<T>>)
    ensures
        ({
            let polled = poll_step(fresh_model::<T>(), RecvOutcome::Received(Ok(v)));
            let taken = take_step(polled);
            &&& reports(PendingState::ReadyOk, polled)
            &&& polled.cached == Some(Ok::<T, Seq<char>>(v))
            &&& forall|k: int|
                0 <= k <= later.len() ==> (#[trigger] run_calls(taken, later.take(k))).cached
                    is None
        }),
{
    let polled = poll_step(fresh_model::<T>(), RecvOutcome::Received(Ok(v)));
    let taken = take_step(polled);
    assert forall|k: int| 0 <= k <= later.len() implies (#[trigger] run_calls(
        taken,
        later.take(k),
    )).cached is None by {
        lemma_drained_stays_drained(taken, later.take(k));
    }
}

/// A worker that goes away without sending is reported failed, with the
/// disconnection message, at the first poll that sees it gone.
pub proof fn law_dropped_worker_reports_disconnection<T>(m: PendingModel<T>)
    requires
        m.listening,
        m.cached is None,
    ensures
        poll_step(m, RecvOutcome::Disconnected).cached == Some(
            Err::<T, Seq<char>>(disconnected_message()),
        ),
        !poll_step(m, RecvOutcome::Disconnected).listening,
{
}

/// A pending operation: the receiving end of the worker's channel, and the
/// result once it arrived.
#[verifier::reject_recursive_types(T)]
pub struct PendingResult<T> {
    receiver: Option<Receiver<Result<T, String>>>,
    result: Option<Result<T, String>>,
}

impl<T> PendingResult<T> {
    /// The abstract state.
    pub closed spec fn model(&self) -> PendingModel<T> {
        PendingModel { listening: self.receiver is Some, cached: result_model(self.result) }
    }

    /// A kept result means the channel is no longer listened to.
    pub open spec fn wf(&self) -> bool {
        self.model().cached is Some ==> !self.model().listening
    }

    /// Waits, without blocking, for what arrives on `receiver`.
    pub fn new(receiver: Receiver<Result<T, String>>) -> (r: PendingResult<T>)
        ensures
            r.wf(),
            r.model() == fresh_model::<T>(),
    {
        PendingResult { receiver: Some(receiver), result: None }
    }

    /// The state reached when a poll found `outcome` on the channel.
    ///
    /// Where a result is kept, or the channel is no longer listened to, the
    /// outcome is ignored. Otherwise a value that arrived is kept and the
    /// channel dropped; a gone sender is kept as the disconnection error.
    pub fn observe(&mut self, outcome: RecvOutcome<Result<T, String>>) -> (r: PendingState)
        requires
            old(self).wf(),
        ensures
            final(self).wf(),
            final(self).model() == poll_step(old(self).model(), outcome),
            reports(r, final(self).model()),
    {
        if self.result.is_none() && self.receiver.is_some() {
            match outcome {
                RecvOutcome::Received(value) => {
                    self.receiver = None;
                    self.result = Some(value);
                },
                RecvOutcome::Empty => {},
                RecvOutcome::Disconnected => {
                    self.receiver = None;
                    let message = "pending operation channel disconnected".to_string();
                    proof {
                        reveal_strlit("pending operation channel disconnected");
                    }
                    self.result = Some(Err(message));
                },
            }
        }
        self.state()
    }

    /// What the kept result reports.
    fn state(&self) -> (r: PendingState)
        ensures
            reports(r, self.model()),
    {
        match &self.result {
            Some(Ok(_)) => PendingState::ReadyOk,
            Some(Err(err)) => PendingState::ReadyErr(err.clone()),
            None => PendingState::Pending,
        }
    }

    /// Looks at the channel without blocking, and reports.
    ///
    /// A kept result is reported as it is. Otherwise what the channel holds
    /// right now decides, as `observe` says: the new state is `poll_step` of
    /// the old one for some outcome.
    pub fn poll(&mut self) -> (r: PendingState)
        requires
            old(self).wf(),
        ensures
            final(self).wf(),
            exists|outcome: RecvOutcome<Result<T, String>>|
                final(self).model() == #[trigger] poll_step(old(self).model(), outcome),
            old(self).model().cached is Some || !old(self).model().listening ==> final(self).model()
                == old(self).model(),
            reports(r, final(self).model()),
    {
        if self.result.is_some() {
            assert(poll_step(self.model(), RecvOutcome::Empty) == self.model());
            return self.state();
        }
        let outcome = match &self.receiver {
            Some(receiver) => try_receive(receiver),
            None => RecvOutcome::Empty,
        };
        self.observe(outcome)
    }

    /// Takes the kept result out, or `None` when there is none (still
    /// pending, or already taken).
    pub fn take_result(&mut self) -> (r: Option<Result<T, String>>)
        requires
            old(self).wf(),
        ensures
            final(self).wf(),
            result_model(r) == old(self).model().cached,
            final(self).model() == take_step(old(self).model()),
    {
        self.result.take()
    }
}

} // verus!

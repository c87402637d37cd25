//! The calls that the boundary makes on a pending operation: poll for a
//! status code, then consume the result once, failures going to the
//! last-error slot.

use crate::error::{set_error, ErrorSlot};
use crate::pending::{poll_step, take_step, PendingResult, PendingState, RecvOutcome};
use vstd::prelude::*;
use vstd::utf8::encode_utf8;

verus! {

/// Status of a poll: the work has not finished.
pub const POLL_PENDING: i32 = 0;

/// Status of a poll: the work finished with a value.
pub const POLL_READY_OK: i32 = 1;

/// Status of a poll: the work failed; the message is in the error slot.
pub const POLL_READY_ERR: i32 = -1;

/// The message left when a result is consumed before it is ready.
pub open spec fn not_ready_message() -> Seq<char> {
    "pending result not ready"@
}

/// Polls `pending` and gives the status code of what it reports; a failure's
/// message is stored in `errors`, which is otherwise left alone.
pub fn poll_status<T>(pending: &mut PendingResult<T>, errors: &mut ErrorSlot) -> (r: i32)
    requires
        old(pending).wf(),
    ensures
        final(pending).wf(),
        exists|outcome: RecvOutcome<Result<T, String>>|
            final(pending).model() == #[trigger] poll_step(old(pending).model(), outcome),
        match final(pending).model().cached {
            None => r == POLL_PENDING && final(errors)@ == old(errors)@,
            Some(Ok(_)) => r == POLL_READY_OK && final(errors)@ == old(errors)@,
            Some(Err(e)) => r == POLL_READY_ERR && final(errors)@ == Some(encode_utf8(e)),
        },
        old(pending).model().cached is Some || !old(pending).model().listening
            ==> final(pending).model() == old(pending).model(),
{
    match pending.poll() {
        PendingState::Pending => POLL_PENDING,
        PendingState::ReadyOk => POLL_READY_OK,
        PendingState::ReadyErr(message) => {
            set_error(errors, message);
            POLL_READY_ERR
        },
    }
}

/// Consumes the result of `pending`: the value when it finished with one.
/// Otherwise `None`, with the failure's message in `errors`, or, when no
/// result is kept (not finished, or consumed before), a message saying so.
pub fn consume_result<T>(pending: &mut PendingResult<T>, errors: &mut ErrorSlot) -> (r: Option<T>)
    requires
        old(pending).wf(),
    ensures
        final(pending).wf(),
        final(pending).model() == take_step(old(pending).model()),
        match old(pending).model().cached {
            Some(Ok(v)) => r == Some(v) && final(errors)@ == old(errors)@,
            Some(Err(e)) => r is None && final(errors)@ == Some(encode_utf8(e)),
            None => r is None && final(errors)@ == Some(encode_utf8(not_ready_message())),
        },
{
    match pending.take_result() {
        Some(Ok(value)) => Some(value),
        Some(Err(message)) => {
            set_error(errors, message);
            None
        },
        None => {
            let message = "pending result not ready".to_string();
            proof {
                reveal_strlit("pending result not ready");
            }
            set_error(errors, message);
            None
        },
    }
}

} // verus!

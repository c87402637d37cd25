//! The last-error slot: the message of the latest failure, waiting to be read.
//!
//! The boundary's fallible calls return only a sentinel, so the reason for a
//! failure is left here and read by the next call. One slot serves one thread.

use vstd::prelude::*;
use vstd::utf8::encode_utf8;

verus! {

/// One optional error message, held as its UTF-8 bytes.
pub struct ErrorSlot {
    message: Option<Vec<u8>>,
}

impl View for ErrorSlot {
    type V = Option<Seq<u8>>;

    closed spec fn view(&self) -> Option<Seq<u8>> {
        match self.message {
            Some(bytes) => Some(bytes@),
            None => None,
        }
    }
}

impl ErrorSlot {
    /// A slot with no message.
    pub fn new() -> (r: ErrorSlot)
        ensures
            r@ is None,
    {
        ErrorSlot { message: None }
    }
}

/// Stores `message` in the slot, discarding any message not yet read.
pub fn set_error(slot: &mut ErrorSlot, message: String)
    ensures
        final(slot)@ == Some(encode_utf8(message@)),
{
    let text = message.as_str().as_bytes();
    let mut bytes: Vec<u8> = Vec::new();
    let mut i: usize = 0;
    while i < text.len()
        invariant
            i <= text@.len(),
            bytes@ == text@.take(i as int),
        decreases text@.len() - i,
    {
        bytes.push(text[i]);
        i = i + 1;
        assert(bytes@ =~= text@.take(i as int));
    }
    assert(text@.take(text@.len() as int) =~= text@);
    slot.message = Some(bytes);
}

/// Takes the message out of the slot, leaving it empty: the bytes of the
/// pending message, or `None` when there is none.
pub fn take_error(slot: &mut ErrorSlot) -> (r: Option<Vec<u8>>)
    ensures
        final(slot)@ is None,
        match old(slot)@ {
            Some(bytes) => r is Some && r.unwrap()@ == bytes,
            None => r is None,
        },
{
    slot.message.take()
}

} // verus!

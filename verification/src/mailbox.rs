use vstd::prelude::*;

verus! {

/// A hand-off with room for one value. A value that is posted before the
/// last one was taken replaces it: the taker sees the latest only, and the
/// poster never waits.
pub struct Mailbox<T> {
    slot: Option<T>,
}

impl<T> View for Mailbox<T> {
    type V = Option<T>;

    closed spec fn view(&self) -> Option<T> {
        self.slot
    }
}

/// What the slot holds once `value` is posted, whatever it held.
pub open spec fn posted<T>(slot: Option<T>, value: T) -> Option<T> {
    Some(value)
}

/// Of two values posted with no take in between, only the second is ever
/// taken.
pub proof fn lemma_latest_wins<T>(slot: Option<T>, first: T, second: T)
    ensures
        posted(posted(slot, first), second) == Some(second),
        posted(posted(slot, first), second) == posted(slot, second),
{
}

impl<T> Mailbox<T> {
    /// An empty mailbox.
    pub fn new() -> (m: Mailbox<T>)
        ensures
            m@ is None,
    {
        Mailbox { slot: None }
    }

    /// Posts `value`, in place of whatever waits there.
    pub fn signal(&mut self, value: T)
        ensures
            final(self)@ == posted(old(self)@, value),
    {
        self.slot = Some(value);
    }

    /// Takes the value that waits, if one does, and leaves the mailbox empty.
    pub fn try_take(&mut self) -> (value: Option<T>)
        ensures
            value == old(self)@,
            final(self)@ is None,
    {
        self.slot.take()
    }

    /// Whether a value waits.
    pub fn signaled(&self) -> (waiting: bool)
        ensures
            waiting == self@.is_some(),
    {
        self.slot.is_some()
    }

    /// Throws away the value that waits, if one does.
    pub fn reset(&mut self)
        ensures
            final(self)@ is None,
    {
        self.slot = None;
    }
}

} // verus!

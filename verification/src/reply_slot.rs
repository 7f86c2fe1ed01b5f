//! The slot one control reply travels through: it is filled at most once,
//! and a waiting receiver stops waiting once it is filled or its sender is
//! gone.

use vstd::prelude::*;

verus! {

/// Holds at most one reply `R` between the window and the connection
/// waiting for it.
pub struct ReplySlot<R> {
    value: Option<R>,
    sender_alive: bool,
}

impl<R> ReplySlot<R> {
    pub closed spec fn spec_value(&self) -> Option<R> {
        self.value
    }

    pub closed spec fn spec_sender_alive(&self) -> bool {
        self.sender_alive
    }

    /// An empty slot whose sender is alive.
    pub fn new() -> (slot: Self)
        ensures
            slot.spec_value() is None,
            slot.spec_sender_alive(),
    {
        ReplySlot { value: None, sender_alive: true }
    }

    /// Delivers `value`, unless a reply was already delivered: then `value`
    /// is handed back and the first reply stays.
    pub fn send(&mut self, value: R) -> (result: Result<(), R>)
        ensures
            old(self).spec_value() is None ==> result is Ok && final(self).spec_value() == Some(value),
            old(self).spec_value() is Some ==> result == Err::<(), R>(value) && final(self).spec_value()
                == old(self).spec_value(),
            final(self).spec_sender_alive() == old(self).spec_sender_alive(),
    {
        if self.value.is_some() {
            return Err(value);
        }
        self.value = Some(value);
        Ok(())
    }

    /// Takes the delivered reply, if any.
    pub fn take(&mut self) -> (value: Option<R>)
        ensures
            value == old(self).spec_value(),
            final(self).spec_value() is None,
            final(self).spec_sender_alive() == old(self).spec_sender_alive(),
    {
        self.value.take()
    }

    /// Records that the sender is gone: no reply can come any more.
    pub fn sender_dropped(&mut self)
        ensures
            !final(self).spec_sender_alive(),
            final(self).spec_value() == old(self).spec_value(),
    {
        self.sender_alive = false;
    }

    /// Whether a receiver should keep waiting: nothing delivered and the
    /// sender still alive.
    pub fn waiting(&self) -> (wait: bool)
        ensures
            wait == (self.spec_value() is None && self.spec_sender_alive()),
    {
        self.value.is_none() && self.sender_alive
    }
}

impl<R> Default for ReplySlot<R> {
    fn default() -> (slot: Self)
        ensures
            slot.spec_value() is None,
            slot.spec_sender_alive(),
    {
        ReplySlot::new()
    }
}

} // verus!

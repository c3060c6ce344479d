//! Typed event channels.
//!
//! Each event kind has one channel per server. Handlers that run earlier
//! in the tick emit events; handlers that run later drain every pending
//! event in emission order, never a partial read. That a handler can
//! observe events emitted earlier in the same tick is the reason the
//! server uses channels rather than frame-delayed message passing.

use vstd::prelude::*;

verus! {

/// A first-in-first-out event channel for one event kind.
pub struct EventChannel<T> {
    queue: Vec<T>,
}

impl<T> View for EventChannel<T> {
    type V = Seq<T>;

    closed spec fn view(&self) -> Seq<T> {
        self.queue@
    }
}

impl<T> EventChannel<T> {
    /// An empty channel.
    pub fn new() -> (r: EventChannel<T>)
        ensures
            r@ == Seq::<T>::empty(),
    {
        EventChannel { queue: Vec::new() }
    }

    /// Appends one event; emission order is kept.
    pub fn emit_event(&mut self, event: T)
        ensures
            final(self)@ == old(self)@.push(event),
    {
        self.queue.push(event);
    }

    pub fn len(&self) -> (r: usize)
        ensures
            r == self@.len(),
    {
        self.queue.len()
    }

    /// Takes every pending event, in emission order, leaving the channel
    /// empty: there are no partial reads.
    pub fn drain(&mut self) -> (r: Vec<T>)
        ensures
            r@ == old(self)@,
            final(self)@ == Seq::<T>::empty(),
    {
        let mut out: Vec<T> = Vec::new();
        std::mem::swap(&mut out, &mut self.queue);
        out
    }
}

} // verus!

//! A first-in, first-out queue of events.

use vstd::prelude::*;

verus! {

/// Marks that the game is over. It carries no data.
#[derive(Clone, Copy, Debug, PartialEq, Eq, Structural)]
pub struct GameOverEvent;

/// Events that were sent and not yet read, oldest first.
pub struct Events<T> {
    pending: Vec<T>,
}

impl<T> View for Events<T> {
    type V = Seq<T>;

    closed spec fn view(&self) -> Seq<T> {
        self.pending@
    }
}

impl<T> Events<T> {
    /// An empty queue.
    pub fn new() -> (events: Events<T>)
        ensures
            events@ == Seq::<T>::empty(),
    {
        Events { pending: Vec::new() }
    }

    /// Appends `event` behind everything already queued.
    pub fn send(&mut self, event: T)
        ensures
            final(self)@ == old(self)@.push(event),
    {
        self.pending.push(event);
    }

    /// Number of events waiting to be read.
    pub fn len(&self) -> (n: usize)
        ensures
            n == self@.len(),
    {
        self.pending.len()
    }

    /// Whether no event is waiting.
    pub fn is_empty(&self) -> (empty: bool)
        ensures
            empty == (self@.len() == 0),
    {
        self.pending.len() == 0
    }

    /// Takes every waiting event out, oldest first, and leaves the queue empty.
    pub fn drain(&mut self) -> (read: Vec<T>)
        ensures
            read@ == old(self)@,
            final(self)@ == Seq::<T>::empty(),
    {
        let mut read: Vec<T> = Vec::new();
        std::mem::swap(&mut read, &mut self.pending);
        read
    }
}

} // verus!

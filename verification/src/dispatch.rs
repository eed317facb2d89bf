//! A model of the dispatch channel: an unbounded first-in first-out queue
//! of messages.
//!
//! The real channel is concurrent (many producers, one shared receiving
//! end); its delivery contract is what this model states: enqueues from one
//! producer are delivered in order, and each dequeue removes the front
//! message, so every message is delivered to exactly one dequeuer and none
//! is delivered twice or dropped.

use vstd::prelude::*;

use crate::message::Message;

verus! {

/// The queue of messages in flight, viewed as the sequence of messages
/// sent but not yet received, oldest first.
pub struct Dispatch<T> {
    queue: Vec<Message<T>>,
}

impl<T> View for Dispatch<T> {
    type V = Seq<Message<T>>;

    closed spec fn view(&self) -> Seq<Message<T>> {
        self.queue@
    }
}

impl<T> Dispatch<T> {
    /// A fresh channel carries nothing.
    pub fn new() -> (d: Self)
        ensures
            d@ == Seq::<Message<T>>::empty(),
    {
        Dispatch { queue: Vec::new() }
    }

    /// Enqueue one message at the back: sends from a single producer are
    /// received in the order they were sent.
    pub fn send(&mut self, m: Message<T>)
        ensures
            final(self)@ == old(self)@.push(m),
    {
        self.queue.push(m);
    }

    /// Dequeue the front message.  The message leaves the queue, so no
    /// later dequeue can see it again: delivery is exactly once.
    pub fn recv(&mut self) -> (m: Message<T>)
        requires
            old(self)@.len() > 0,
        ensures
            m == old(self)@[0],
            final(self)@ == old(self)@.subrange(1, old(self)@.len() as int),
    {
        self.queue.remove(0)
    }

    /// How many messages are in flight.
    pub fn len(&self) -> (n: usize)
        ensures
            n == self@.len(),
    {
        self.queue.len()
    }
}

} // verus!

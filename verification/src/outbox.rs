//! What waits to be sent to the panel.
//!
//! The outbox outlives each connection. What is in it stays until it has been
//! delivered, so that nothing is lost when a connection drops.

use std::collections::VecDeque;
use vstd::prelude::*;

use crate::payloads::{AckPayload, EventPayload};

verus! {

/// Something to tell the panel.
#[derive(Debug)]
pub enum Outgoing {
    /// Something that happened on the node.
    Event(EventPayload),
    /// The answer to a command.
    Ack(AckPayload),
}

/// What waits to be sent, in order.
pub struct Outbox {
    queue: VecDeque<Outgoing>,
}

impl View for Outbox {
    type V = Seq<Outgoing>;

    closed spec fn view(&self) -> Seq<Outgoing> {
        self.queue@
    }
}

/// What waits once the first has been delivered.
pub open spec fn without_first(queue: Seq<Outgoing>) -> Seq<Outgoing> {
    if queue.len() == 0 {
        queue
    } else {
        queue.drop_first()
    }
}

impl Outbox {
    /// Nothing waits.
    pub fn new() -> (out: Self)
        ensures
            out@ == Seq::<Outgoing>::empty(),
    {
        Outbox { queue: VecDeque::new() }
    }

    /// Puts something behind what waits.
    pub fn push(&mut self, item: Outgoing)
        ensures
            final(self)@ == old(self)@.push(item),
    {
        self.queue.push_back(item);
    }

    /// Whether nothing waits.
    pub fn is_empty(&self) -> (r: bool)
        ensures
            r == (self@.len() == 0),
    {
        self.queue.len() == 0
    }

    /// What is to be sent next. It stays until it has been delivered.
    pub fn head(&self) -> (out: Option<&Outgoing>)
        ensures
            match out {
                Some(item) => self@.len() > 0 && *item == self@[0],
                None => self@.len() == 0,
            },
    {
        if self.queue.len() == 0 {
            None
        } else {
            Some(&self.queue[0])
        }
    }

    /// Notes that what was to be sent next has been delivered.
    pub fn delivered(&mut self)
        ensures
            final(self)@ == without_first(old(self)@),
    {
        let ghost before = self.queue@;
        let _ = self.queue.pop_front();
        assert(self.queue@ =~= without_first(before));
    }
}

/// The outbox is a queue: what was put in first is delivered first, and putting
/// something in and delivering what was there leaves it alone in the outbox.
pub proof fn law_first_in_first_out(queue: Seq<Outgoing>, item: Outgoing)
    ensures
        queue.len() > 0 ==> queue == seq![queue[0]] + without_first(queue),
        queue.len() > 0 ==> without_first(queue.push(item)) == without_first(queue).push(item),
        queue.len() == 0 ==> without_first(queue.push(item)) == queue,
        queue.len() == 0 ==> without_first(queue) == queue,
{
    if queue.len() > 0 {
        assert(queue =~= seq![queue[0]] + without_first(queue));
        assert(without_first(queue.push(item)) =~= without_first(queue).push(item));
    } else {
        assert(without_first(queue.push(item)) =~= queue);
    }
}

} // verus!

//! The help queue: a first-in, first-out line of tickets, each naming the
//! record box of an operation that asked for help.

use std::collections::VecDeque;
use vstd::prelude::*;

verus! {

/// Tickets of the operations that wait for help, oldest first.
pub struct HelpQueue {
    tickets: VecDeque<usize>,
}

impl View for HelpQueue {
    type V = Seq<usize>;

    closed spec fn view(&self) -> Seq<usize> {
        self.tickets@
    }
}

impl HelpQueue {
    /// A queue in which nothing waits.
    pub fn new() -> (queue: Self)
        ensures
            queue@ == Seq::<usize>::empty(),
    {
        HelpQueue { tickets: VecDeque::new() }
    }

    /// The number of waiting tickets.
    pub fn len(&self) -> (n: usize)
        ensures
            n == self@.len(),
    {
        self.tickets.len()
    }

    /// Appends `ticket` behind everything that already waits.
    pub fn enqueue(&mut self, ticket: usize)
        ensures
            final(self)@ == old(self)@.push(ticket),
    {
        self.tickets.push_back(ticket);
    }

    /// The ticket at the front, if any. The queue is left as it is.
    pub fn peek(&self) -> (front: Option<usize>)
        ensures
            front == if self@.len() > 0 {
                Some(self@[0])
            } else {
                None
            },
    {
        if self.tickets.len() > 0 {
            Some(self.tickets[0])
        } else {
            None
        }
    }

    /// Removes `front` if it is the ticket at the front, and reports `Err`
    /// without touching the queue if it is not. An entry behind the front is
    /// never removed.
    pub fn try_remove_front(&mut self, front: usize) -> (removed: Result<(), ()>)
        ensures
            removed.is_ok() == (old(self)@.len() > 0 && old(self)@[0] == front),
            removed.is_ok() ==> final(self)@ == old(self)@.drop_first(),
            removed.is_err() ==> final(self)@ == old(self)@,
    {
        if self.tickets.len() > 0 && self.tickets[0] == front {
            let _ = self.tickets.pop_front();
            Ok(())
        } else {
            Err(())
        }
    }
}

} // verus!

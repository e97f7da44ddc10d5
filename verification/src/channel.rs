//! A first-in, first-out message channel with an optional capacity
//! bound, modelled as one explicit queue value.
//!
//! The lock-free channels the reclamation service exists for are
//! external collaborators; what the workloads here need of one is only
//! its sequential contract — messages come out in the order they went
//! in, and a bounded channel never holds more than its capacity — so
//! that is what this model states and proves.  `send` on a full bounded
//! channel and `recv` on an empty one would block; both are ruled out by
//! precondition instead.

use vstd::prelude::*;

use crate::message::Message;

verus! {

/// A bounded or unbounded FIFO channel holding tagged messages.
#[derive(Debug)]
pub struct Channel {
    /// Every message ever sent; the queue is the suffix from `head` on.
    pub items: Vec<Message>,
    /// How many messages have been received.
    pub head: usize,
    /// The capacity the channel was created with; `None` is unbounded.
    pub cap: Option<usize>,
}

impl Channel {
    /// The tags currently queued, oldest first.
    pub open spec fn queue(self) -> Seq<usize> {
        self.items@.skip(self.head as int).map_values(|m: Message| m.tag)
    }

    /// The capacity bound this channel was created with.
    pub open spec fn bound(self) -> Option<usize> {
        self.cap
    }

    pub open spec fn wf(self) -> bool {
        &&& self.head <= self.items@.len()
        &&& match self.cap {
            Option::Some(b) => self.queue().len() <= b,
            Option::None => true,
        }
    }

    /// Room for one more message.
    pub open spec fn has_room(self) -> bool {
        match self.cap {
            Option::Some(b) => self.queue().len() < b,
            Option::None => true,
        }
    }

    /// Appends a message; the queue grows by its tag at the back.
    pub fn send(&mut self, m: Message)
        requires
            old(self).wf(),
            old(self).has_room(),
        ensures
            final(self).wf(),
            final(self).bound() == old(self).bound(),
            final(self).queue() == old(self).queue().push(m.tag),
    {
        self.items.push(m);
        proof {
            assert(final(self).queue() =~= old(self).queue().push(m.tag));
        }
    }

    /// Removes and returns the oldest message.
    pub fn recv(&mut self) -> (m: Message)
        requires
            old(self).wf(),
            old(self).queue().len() > 0,
        ensures
            final(self).wf(),
            final(self).bound() == old(self).bound(),
            m.tag == old(self).queue()[0],
            final(self).queue() == old(self).queue().drop_first(),
    {
        proof {
            assert(self.queue().len() == self.items@.len() - self.head);
        }
        let n = self.items.len();
        assert(self.head < n);
        let m = self.items[self.head];
        self.head = self.head + 1;
        proof {
            assert(final(self).queue() =~= old(self).queue().drop_first());
        }
        m
    }

    /// How many messages are queued.
    pub fn len(&self) -> (n: usize)
        requires
            self.wf(),
        ensures
            n == self.queue().len(),
    {
        self.items.len() - self.head
    }
}

/// Creates a channel: `None` for unbounded, `Some(cap)` for a channel
/// that holds at most `cap` messages.
pub fn new(cap: Option<usize>) -> (c: Channel)
    ensures
        c.wf(),
        c.bound() == cap,
        c.queue() == Seq::<usize>::empty(),
{
    let c = Channel { items: Vec::new(), head: 0, cap };
    proof {
        assert(c.queue() =~= Seq::<usize>::empty());
    }
    c
}

} // verus!

//! The sequential send/receive workload over the channel model.

use vstd::prelude::*;

use crate::channel;
use crate::channel::Channel;
use crate::message;

verus! {

/// How many messages one workload round moves.
pub const MESSAGES: usize = 500_000;

/// How many worker threads the concurrent workloads divide the messages
/// among.
pub const THREADS: usize = 4;

/// Sends messages tagged `0 .. count` into the channel, in order.  The
/// channel must have room for the whole burst: nothing drains it here,
/// and sending into a full bounded channel would block.
#[verifier::loop_isolation(false)]
pub fn send_all(c: &mut Channel, count: usize)
    requires
        old(c).wf(),
        match old(c).bound() {
            Option::Some(b) => old(c).queue().len() + count <= b,
            Option::None => true,
        },
    ensures
        final(c).wf(),
        final(c).bound() == old(c).bound(),
        final(c).queue() == old(c).queue() + Seq::new(count as nat, |k: int| k as usize),
{
    proof {
        assert(c.queue() =~= c.queue() + Seq::new(0nat, |k: int| k as usize));
    }
    let mut i: usize = 0;
    while i < count
        invariant
            c.wf(),
            c.bound() == old(c).bound(),
            0 <= i <= count,
            c.queue() == old(c).queue() + Seq::new(i as nat, |k: int| k as usize),
        decreases count - i,
    {
        c.send(message::new(i));
        proof {
            assert(c.queue() =~= old(c).queue() + Seq::new((i + 1) as nat, |k: int| k as usize));
        }
        i = i + 1;
    }
}

/// Receives `count` messages and returns their tags in arrival order:
/// exactly the first `count` tags that were queued, which then leave the
/// queue.
#[verifier::loop_isolation(false)]
pub fn recv_all(c: &mut Channel, count: usize) -> (tags: Vec<usize>)
    requires
        old(c).wf(),
        old(c).queue().len() >= count,
    ensures
        final(c).wf(),
        final(c).bound() == old(c).bound(),
        tags@ == old(c).queue().take(count as int),
        final(c).queue() == old(c).queue().skip(count as int),
{
    let mut tags: Vec<usize> = Vec::new();
    proof {
        assert(tags@ =~= old(c).queue().take(0));
        assert(c.queue() =~= old(c).queue().skip(0));
    }
    let mut j: usize = 0;
    while j < count
        invariant
            c.wf(),
            c.bound() == old(c).bound(),
            0 <= j <= count,
            tags@ == old(c).queue().take(j as int),
            c.queue() == old(c).queue().skip(j as int),
        decreases count - j,
    {
        let m = c.recv();
        tags.push(m.tag);
        proof {
            assert(tags@ =~= old(c).queue().take(j + 1));
            assert(c.queue() =~= old(c).queue().skip(j + 1));
        }
        j = j + 1;
    }
    tags
}

/// One sequential round: sends `MESSAGES` tagged messages through a
/// channel of the given capacity, then receives them all back and checks
/// they arrive in order.  Nothing drains the channel while the send loop
/// runs, so a bounded capacity must hold the whole burst; a smaller
/// bound would block the sender forever.
pub fn seq(cap: Option<usize>)
    requires
        match cap {
            Option::Some(b) => b >= MESSAGES,
            Option::None => true,
        },
{
    let mut c = channel::new(cap);
    send_all(&mut c, MESSAGES);
    let tags = recv_all(&mut c, MESSAGES);
    proof {
        assert(tags@ =~= Seq::new(MESSAGES as nat, |k: int| k as usize));
    }
    // every message arrived, in the order it was sent
    assert(tags@.len() == MESSAGES);
    assert(forall|k: int| 0 <= k < MESSAGES ==> tags@[k] == k);
}

} // verus!

//! The tagged message sent through the workload channels.

use vstd::prelude::*;

verus! {

/// One workload message, carrying the sequence tag it was created with.
#[derive(Clone, Copy, PartialEq, Eq, Structural, Debug)]
pub struct Message {
    pub tag: usize,
}

/// Creates the message carrying tag `num`.
pub fn new(num: usize) -> (m: Message)
    ensures
        m.tag == num,
{
    Message { tag: num }
}

} // verus!

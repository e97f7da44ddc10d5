//! Garbage items, the bounded per-participant garbage bag, and the state of
//! an arena slot.
//!
//! A retired location is identified by an arena slot index; its deferred
//! destruction is modelled as the slot's transition from `Retired` to
//! `Freed`, which the collector performs exactly once.

use vstd::prelude::*;

verus! {

/// Capacity of a participant's local garbage bag; a full bag is flushed to
/// the collector's shared queue before the next item is appended.
pub const BAG_CAP: usize = 64;

/// The lifecycle of one arena slot.
///
/// `alloc` creates a slot as `Live`; deferring its destruction through a
/// guard moves it to `Retired`; the collector moves it to `Freed` once its
/// grace period has passed.  A slot never leaves `Freed`.
#[derive(Clone, Copy, PartialEq, Eq, Structural, Debug)]
pub enum SlotState {
    Live,
    Retired,
    Freed,
}

/// A deferred action: free arena slot `slot`, retired while the global
/// epoch was `epoch`.
#[derive(Clone, Copy, PartialEq, Eq, Structural, Debug)]
pub struct GarbageItem {
    pub slot: usize,
    pub epoch: u64,
}

/// An item retired at `epoch` may be freed once the global epoch has
/// advanced to at least `epoch + 2`.
pub open spec fn expired(it: GarbageItem, global: u64) -> bool {
    it.epoch + 2 <= global
}

/// A bounded local buffer of garbage items belonging to one participant.
#[derive(Debug)]
pub struct GarbageBag {
    pub items: Vec<GarbageItem>,
}

impl View for GarbageBag {
    type V = Seq<GarbageItem>;

    open spec fn view(&self) -> Seq<GarbageItem> {
        self.items@
    }
}

impl GarbageBag {
    pub fn new() -> (b: GarbageBag)
        ensures
            b@ == Seq::<GarbageItem>::empty(),
    {
        GarbageBag { items: Vec::new() }
    }

    pub fn len(&self) -> (n: usize)
        ensures
            n == self@.len(),
    {
        self.items.len()
    }

    pub fn is_full(&self) -> (r: bool)
        ensures
            r == (self@.len() >= BAG_CAP),
    {
        self.items.len() >= BAG_CAP
    }

    pub fn push(&mut self, it: GarbageItem)
        requires
            old(self)@.len() < BAG_CAP,
        ensures
            final(self)@ == old(self)@.push(it),
    {
        self.items.push(it);
    }

    /// Empties the bag and hands its contents out, oldest first.
    pub fn take_all(&mut self) -> (v: Vec<GarbageItem>)
        ensures
            v@ == old(self)@,
            final(self)@ == Seq::<GarbageItem>::empty(),
    {
        let mut v: Vec<GarbageItem> = Vec::new();
        core::mem::swap(&mut self.items, &mut v);
        v
    }
}

} // verus!

//! The shared collector: global epoch, participant registry, shared
//! garbage queue and the arena of reclaimable slots.
//!
//! Every operation preserves `Collector::wf`, which carries the two facts
//! the design exists for: a pinned participant's epoch snapshot is at most
//! one generation behind the global epoch, and every pending garbage item
//! names a distinct arena slot that is still in the `Retired` state.  From
//! those, `collect` can free an expired slot exactly once, and the
//! grace-period law at the bottom of this file shows that no participant
//! pinned at the time of the free can still hold a snapshot from before
//! the item's retirement window closed.

use vstd::prelude::*;

use crate::garbage::{expired, GarbageItem, SlotState};
use crate::guard::Guard;
use crate::participant::{Participant, Status};

verus! {

/// Well-formedness carries over to a state whose pending garbage is
/// unchanged: same queue, same bags on the old entries, empty bags on any
/// new entries, an arena the old one is a prefix of, and an epoch that has
/// not gone backwards.
proof fn lemma_wf_preserved(a: Collector, b: Collector)
    requires
        a.wf(),
        b.epoch >= a.epoch,
        b.garbage@ == a.garbage@,
        a.slots@.is_prefix_of(b.slots@),
        b.participants@.len() >= a.participants@.len(),
        forall|i: int|
            0 <= i < a.participants@.len() ==> #[trigger] b.participants@[i].bag@
                == a.participants@[i].bag@,
        forall|i: int|
            a.participants@.len() <= i < b.participants@.len()
                ==> #[trigger] b.participants@[i].bag@.len() == 0,
        forall|i: int|
            0 <= i < b.participants@.len() ==> (#[trigger] b.participants@[i]).wf(b.epoch),
    ensures
        b.wf(),
{
    assert forall|i: int, k: int| b.pos_ok(i, k) implies b.item_ok(#[trigger] b.pending_at(i, k)) by {
        assert(b.pending_at(i, k) == a.pending_at(i, k));
        assert(a.pos_ok(i, k));
        assert(a.item_ok(a.pending_at(i, k)));
        let s = a.pending_at(i, k).slot;
        assert(b.slots@[s as int] == a.slots@.subrange(0, a.slots@.len() as int)[s as int]);
    }
    assert forall|i1: int, k1: int, i2: int, k2: int|
        b.pos_ok(i1, k1) && b.pos_ok(i2, k2) && !(i1 == i2 && k1 == k2) implies (
    #[trigger] b.pending_at(i1, k1)).slot != (#[trigger] b.pending_at(i2, k2)).slot by {
        assert(b.pending_at(i1, k1) == a.pending_at(i1, k1));
        assert(b.pending_at(i2, k2) == a.pending_at(i2, k2));
        assert(a.pos_ok(i1, k1) && a.pos_ok(i2, k2));
    }
}

/// Two states whose queue and bags hold the same sequences have the same
/// pending items.
proof fn lemma_pending_same(a: Collector, b: Collector)
    requires
        b.garbage@ == a.garbage@,
        b.participants@.len() == a.participants@.len(),
        forall|i: int|
            0 <= i < a.participants@.len() ==> #[trigger] b.participants@[i].bag@
                == a.participants@[i].bag@,
    ensures
        forall|x: GarbageItem| a.has_pending(x) <==> b.has_pending(x),
{
    assert forall|x: GarbageItem| a.has_pending(x) implies b.has_pending(x) by {
        let (j, k): (int, int) = choose|j: int, k: int|
            a.pos_ok(j, k) && #[trigger] a.pending_at(j, k) == x;
        assert(b.pos_ok(j, k) && b.pending_at(j, k) == x);
    }
    assert forall|x: GarbageItem| b.has_pending(x) implies a.has_pending(x) by {
        let (j, k): (int, int) = choose|j: int, k: int|
            b.pos_ok(j, k) && #[trigger] b.pending_at(j, k) == x;
        assert(a.pos_ok(j, k) && a.pending_at(j, k) == x);
    }
}

/// One epoch-based reclamation domain.
///
/// Registry entries are append-only: an entry that has been drained is
/// retired to `Status::Removed` in place, so indices held by guards and
/// handles stay valid for the life of the collector.
#[derive(Debug)]
pub struct Collector {
    /// The global epoch counter.
    pub epoch: u64,
    /// The registry of participants, insertion-stable.
    pub participants: Vec<Participant>,
    /// Garbage flushed out of participants' bags, awaiting expiry.
    pub garbage: Vec<GarbageItem>,
    /// The arena: the state of every slot ever allocated in this domain.
    pub slots: Vec<SlotState>,
}

impl Collector {
    /// A single garbage item is sound: it names an arena slot that is
    /// still `Retired` and was retired no later than the current epoch.
    pub open spec fn item_ok(self, it: GarbageItem) -> bool {
        &&& it.slot < self.slots@.len()
        &&& self.slots@[it.slot as int] == SlotState::Retired
        &&& it.epoch <= self.epoch
    }

    /// The local bag of participant `i`, as a sequence.
    pub open spec fn bag_seq(self, i: int) -> Seq<GarbageItem> {
        self.participants@[i].bag@
    }

    /// Pending garbage lives at "positions": position `(-1, k)` is entry
    /// `k` of the shared garbage queue, position `(i, k)` with `i >= 0` is
    /// entry `k` of participant `i`'s local bag.
    pub open spec fn pending_len(self, i: int) -> int {
        if i < 0 {
            self.garbage@.len() as int
        } else {
            self.bag_seq(i).len() as int
        }
    }

    /// The item at pending position `(i, k)`.
    pub open spec fn pending_at(self, i: int, k: int) -> GarbageItem {
        if i < 0 {
            self.garbage@[k]
        } else {
            self.bag_seq(i)[k]
        }
    }

    /// `(i, k)` is a valid pending position.
    pub open spec fn pos_ok(self, i: int, k: int) -> bool {
        &&& -1 <= i < self.participants@.len()
        &&& 0 <= k < self.pending_len(i)
    }

    /// `it` is pending: queued in the shared garbage queue or in some
    /// participant's local bag, and not yet freed.
    pub open spec fn has_pending(self, it: GarbageItem) -> bool {
        exists|i: int, k: int| self.pos_ok(i, k) && #[trigger] self.pending_at(i, k) == it
    }

    /// Well-formedness: participant records are sound for the current
    /// epoch, every pending item is sound, and no two pending positions —
    /// across the shared queue and all bags — name the same slot.
    pub open spec fn wf(self) -> bool {
        &&& forall|i: int|
            0 <= i < self.participants@.len() ==> (#[trigger] self.participants@[i]).wf(self.epoch)
        &&& forall|i: int, k: int|
            self.pos_ok(i, k) ==> self.item_ok(#[trigger] self.pending_at(i, k))
        &&& forall|i1: int, k1: int, i2: int, k2: int|
            self.pos_ok(i1, k1) && self.pos_ok(i2, k2) && !(i1 == i2 && k1 == k2) ==> (
            #[trigger] self.pending_at(i1, k1)).slot != (#[trigger] self.pending_at(i2, k2)).slot
    }

    /// There is an active registry entry owned by thread `t`.
    pub open spec fn has_active_thread(self, t: u64) -> bool {
        exists|i: int|
            0 <= i < self.participants@.len() && (#[trigger] self.participants@[i]).status
                == Status::Active && self.participants@[i].thread == t
    }

    /// Thread `t` currently holds at least one pin in this collector.
    pub open spec fn thread_pinned_spec(self, t: u64) -> bool {
        exists|i: int|
            0 <= i < self.participants@.len() && (#[trigger] self.participants@[i]).status
                == Status::Active && self.participants@[i].thread == t
                && self.participants@[i].pin_depth > 0
    }

    /// Thread `t`'s active participants (if any) have room for one more
    /// nested pin.
    pub open spec fn can_pin_thread(self, t: u64) -> bool {
        forall|i: int|
            0 <= i < self.participants@.len() && (#[trigger] self.participants@[i]).status
                == Status::Active && self.participants@[i].thread == t
                ==> self.participants@[i].pin_depth < usize::MAX
    }

    /// Creates an empty reclamation domain at epoch zero.
    pub fn new() -> (c: Collector)
        ensures
            c.wf(),
            c.epoch == 0,
            c.participants@.len() == 0,
            c.garbage@.len() == 0,
            c.slots@.len() == 0,
    {
        Collector {
            epoch: 0,
            participants: Vec::new(),
            garbage: Vec::new(),
            slots: Vec::new(),
        }
    }

    /// Registers a new participant for thread `t` and returns its registry
    /// index.  The entry becomes visible fully initialized: unpinned,
    /// active, with an empty bag.  Registration never fails.
    pub fn register(&mut self, t: u64) -> (i: usize)
        requires
            old(self).wf(),
        ensures
            final(self).wf(),
            i == old(self).participants@.len(),
            final(self).participants@ == old(self).participants@.push(
                final(self).participants@[i as int],
            ),
            final(self).participants@[i as int].thread == t,
            final(self).participants@[i as int].status == Status::Active,
            final(self).participants@[i as int].pin_depth == 0,
            final(self).participants@[i as int].bag@.len() == 0,
            final(self).epoch == old(self).epoch,
            final(self).garbage@ == old(self).garbage@,
            final(self).slots@ == old(self).slots@,
    {
        let i = self.participants.len();
        let p = Participant {
            thread: t,
            pin_depth: 0,
            local_epoch: 0,
            status: Status::Active,
            bag: crate::garbage::GarbageBag::new(),
        };
        self.participants.push(p);
        proof {
            assert forall|j: int| 0 <= j < self.participants@.len() implies (
            #[trigger] self.participants@[j]).wf(self.epoch) by {
                if j < old(self).participants@.len() {
                    assert(old(self).participants@[j].wf(old(self).epoch));
                }
            }
            lemma_wf_preserved(*old(self), *self);
        }
        i
    }

    /// Allocates a fresh arena slot, initially `Live`, and returns its
    /// index.  This models handing out one reclaimable location.
    pub fn alloc_slot(&mut self) -> (s: usize)
        requires
            old(self).wf(),
        ensures
            final(self).wf(),
            s == old(self).slots@.len(),
            final(self).slots@ == old(self).slots@.push(SlotState::Live),
            final(self).epoch == old(self).epoch,
            final(self).participants@ == old(self).participants@,
            final(self).garbage@ == old(self).garbage@,
    {
        let s = self.slots.len();
        self.slots.push(SlotState::Live);
        proof {
            assert(old(self).slots@.is_prefix_of(self.slots@));
            lemma_wf_preserved(*old(self), *self);
        }
        s
    }

    /// Pins participant `i`.  On the transition from depth 0 the global
    /// epoch is recorded as the participant's snapshot; a nested pin only
    /// deepens the count and keeps the snapshot of the enclosing pin.
    pub fn pin(&mut self, i: usize) -> (g: Guard)
        requires
            old(self).wf(),
            i < old(self).participants@.len(),
            old(self).participants@[i as int].status == Status::Active,
            old(self).participants@[i as int].pin_depth < usize::MAX,
        ensures
            final(self).wf(),
            g.participant == i,
            final(self).participants@ == old(self).participants@.update(
                i as int,
                old(self).participants@[i as int].pin_step(old(self).epoch),
            ),
            final(self).epoch == old(self).epoch,
            final(self).garbage@ == old(self).garbage@,
            final(self).slots@ == old(self).slots@,
            final(self).participants@[i as int].pin_depth > 0,
    {
        let epoch = self.epoch;
        let p = &mut self.participants[i];
        if p.pin_depth == 0 {
            p.pin_depth = 1;
            p.local_epoch = epoch;
        } else {
            p.pin_depth = p.pin_depth + 1;
        }
        assert(final(self).participants@ =~= old(self).participants@.update(
            i as int,
            old(self).participants@[i as int].pin_step(old(self).epoch),
        ));
        proof {
            assert forall|j: int| 0 <= j < self.participants@.len() implies (
            #[trigger] self.participants@[j]).wf(self.epoch) by {
                assert(old(self).participants@[j].wf(old(self).epoch));
            }
            lemma_wf_preserved(*old(self), *self);
        }
        Guard { participant: i }
    }

    /// True iff participant `i` currently holds at least one pin.
    pub fn is_pinned(&self, i: usize) -> (r: bool)
        requires
            i < self.participants@.len(),
        ensures
            r == self.participants@[i as int].is_pinned_spec(),
    {
        self.participants[i].pin_depth > 0
    }

    /// Releases one pin of the participant named by `g`, consuming the
    /// guard.  Only the outermost release makes the thread unpinned; this
    /// never advances the epoch by itself — advancing is a separate,
    /// opportunistic step (`try_advance`), so the amortization policy is
    /// the caller's.
    pub fn unpin(&mut self, g: Guard)
        requires
            old(self).wf(),
            g.participant < old(self).participants@.len(),
            old(self).participants@[g.participant as int].pin_depth > 0,
        ensures
            final(self).wf(),
            final(self).participants@ == old(self).participants@.update(
                g.participant as int,
                old(self).participants@[g.participant as int].unpin_step(),
            ),
            final(self).epoch == old(self).epoch,
            final(self).garbage@ == old(self).garbage@,
            final(self).slots@ == old(self).slots@,
    {
        let p = &mut self.participants[g.participant];
        p.pin_depth = p.pin_depth - 1;
        assert(final(self).participants@ =~= old(self).participants@.update(
            g.participant as int,
            old(self).participants@[g.participant as int].unpin_step(),
        ));
        proof {
            assert forall|j: int| 0 <= j < self.participants@.len() implies (
            #[trigger] self.participants@[j]).wf(self.epoch) by {
                assert(old(self).participants@[j].wf(old(self).epoch));
            }
            lemma_wf_preserved(*old(self), *self);
        }
    }

    /// Flushes participant `i`'s local bag to the shared garbage queue.
    /// Nothing is freed: the pending items only change place, which is how
    /// a detached participant's garbage survives its thread.
    pub fn flush(&mut self, i: usize)
        requires
            old(self).wf(),
            i < old(self).participants@.len(),
        ensures
            final(self).wf(),
            final(self).epoch == old(self).epoch,
            final(self).slots@ == old(self).slots@,
            final(self).garbage@ == old(self).garbage@ + old(self).bag_seq(i as int),
            final(self).participants@.len() == old(self).participants@.len(),
            forall|j: int|
                0 <= j < old(self).participants@.len() && j != i
                    ==> final(self).participants@[j] == old(self).participants@[j],
            final(self).bag_seq(i as int).len() == 0,
            final(self).participants@[i as int].thread == old(self).participants@[i as int].thread,
            final(self).participants@[i as int].pin_depth == old(
                self,
            ).participants@[i as int].pin_depth,
            final(self).participants@[i as int].local_epoch == old(
                self,
            ).participants@[i as int].local_epoch,
            final(self).participants@[i as int].status == old(self).participants@[i as int].status,
            forall|it: GarbageItem| final(self).has_pending(it) <==> old(self).has_pending(it),
    {
        let p = &mut self.participants[i];
        let mut items = p.bag.take_all();
        self.garbage.append(&mut items);
        proof {
            let a = *old(self);
            let b = *self;
            let g0 = a.garbage@.len() as int;
            let bi = i as int;
            assert forall|j: int| 0 <= j < b.participants@.len() implies (
            #[trigger] b.participants@[j]).wf(b.epoch) by {
                assert(a.participants@[j].wf(a.epoch));
            }
            assert forall|j: int, k: int| b.pos_ok(j, k) implies b.item_ok(
                #[trigger] b.pending_at(j, k),
            ) by {
                let (m, n): (int, int) = if j == -1 && k < g0 {
                    (-1int, k)
                } else if j == -1 {
                    (bi, k - g0)
                } else {
                    (j, k)
                };
                assert(a.pos_ok(m, n));
                assert(b.pending_at(j, k) == a.pending_at(m, n));
                assert(a.item_ok(a.pending_at(m, n)));
            }
            assert forall|i1: int, k1: int, i2: int, k2: int|
                b.pos_ok(i1, k1) && b.pos_ok(i2, k2) && !(i1 == i2 && k1 == k2) implies (
            #[trigger] b.pending_at(i1, k1)).slot != (#[trigger] b.pending_at(i2, k2)).slot by {
                let (m1, n1): (int, int) = if i1 == -1 && k1 < g0 {
                    (-1int, k1)
                } else if i1 == -1 {
                    (bi, k1 - g0)
                } else {
                    (i1, k1)
                };
                let (m2, n2): (int, int) = if i2 == -1 && k2 < g0 {
                    (-1int, k2)
                } else if i2 == -1 {
                    (bi, k2 - g0)
                } else {
                    (i2, k2)
                };
                assert(a.pos_ok(m1, n1) && b.pending_at(i1, k1) == a.pending_at(m1, n1));
                assert(a.pos_ok(m2, n2) && b.pending_at(i2, k2) == a.pending_at(m2, n2));
                assert(!(m1 == m2 && n1 == n2));
            }
            assert forall|x: GarbageItem| b.has_pending(x) implies a.has_pending(x) by {
                let (j, k): (int, int) = choose|j: int, k: int|
                    b.pos_ok(j, k) && #[trigger] b.pending_at(j, k) == x;
                let (m, n): (int, int) = if j == -1 && k < g0 {
                    (-1int, k)
                } else if j == -1 {
                    (bi, k - g0)
                } else {
                    (j, k)
                };
                assert(a.pos_ok(m, n) && a.pending_at(m, n) == x);
            }
            assert forall|x: GarbageItem| a.has_pending(x) implies b.has_pending(x) by {
                let (j, k): (int, int) = choose|j: int, k: int|
                    a.pos_ok(j, k) && #[trigger] a.pending_at(j, k) == x;
                let (m, n): (int, int) = if j == bi {
                    (-1int, g0 + k)
                } else {
                    (j, k)
                };
                assert(b.pos_ok(m, n) && b.pending_at(m, n) == x);
            }
        }
    }

    /// Retires arena slot `slot` through guard `g`: the slot leaves
    /// `Live` for `Retired`, and a garbage item tagged with the current
    /// global epoch joins the pinned participant's bag — after the bag is
    /// flushed to the collector if it is full.
    pub fn defer(&mut self, g: &Guard, slot: usize)
        requires
            old(self).wf(),
            g.participant < old(self).participants@.len(),
            old(self).participants@[g.participant as int].pin_depth > 0,
            slot < old(self).slots@.len(),
            old(self).slots@[slot as int] == SlotState::Live,
        ensures
            final(self).wf(),
            final(self).epoch == old(self).epoch,
            final(self).slots@ == old(self).slots@.update(slot as int, SlotState::Retired),
            final(self).has_pending(GarbageItem { slot, epoch: old(self).epoch }),
            forall|it: GarbageItem| old(self).has_pending(it) ==> final(self).has_pending(it),
            forall|it: GarbageItem|
                final(self).has_pending(it) ==> old(self).has_pending(it) || it == (GarbageItem {
                    slot,
                    epoch: old(self).epoch,
                }),
            final(self).participants@.len() == old(self).participants@.len(),
            forall|j: int|
                0 <= j < old(self).participants@.len() ==> {
                    &&& (#[trigger] final(self).participants@[j]).thread == old(
                        self,
                    ).participants@[j].thread
                    &&& final(self).participants@[j].pin_depth == old(
                        self,
                    ).participants@[j].pin_depth
                    &&& final(self).participants@[j].local_epoch == old(
                        self,
                    ).participants@[j].local_epoch
                    &&& final(self).participants@[j].status == old(self).participants@[j].status
                },
    {
        let i = g.participant;
        if self.participants[i].bag.is_full() {
            self.flush(i);
        }
        let ghost m = *self;
        let it = GarbageItem { slot, epoch: self.epoch };
        self.slots[slot] = SlotState::Retired;
        let p = &mut self.participants[i];
        p.bag.push(it);
        proof {
            let a = m;
            let b = *self;
            let bi = i as int;
            let lastk = a.bag_seq(bi).len() as int;
            assert(b.bag_seq(bi) == a.bag_seq(bi).push(it));
            assert(b.slots@ == a.slots@.update(slot as int, SlotState::Retired));
            assert forall|j: int| 0 <= j < b.participants@.len() implies (
            #[trigger] b.participants@[j]).wf(b.epoch) by {
                assert(a.participants@[j].wf(a.epoch));
            }
            assert forall|j: int, k: int| b.pos_ok(j, k) implies b.item_ok(
                #[trigger] b.pending_at(j, k),
            ) by {
                if j == bi && k == lastk {
                    assert(b.pending_at(j, k) == it);
                } else {
                    assert(a.pos_ok(j, k));
                    assert(b.pending_at(j, k) == a.pending_at(j, k));
                    let x = a.pending_at(j, k);
                    assert(a.item_ok(x));
                    assert(x.slot != slot);
                }
            }
            assert forall|i1: int, k1: int, i2: int, k2: int|
                b.pos_ok(i1, k1) && b.pos_ok(i2, k2) && !(i1 == i2 && k1 == k2) implies (
            #[trigger] b.pending_at(i1, k1)).slot != (#[trigger] b.pending_at(i2, k2)).slot by {
                if i1 == bi && k1 == lastk {
                    assert(a.pos_ok(i2, k2) && b.pending_at(i2, k2) == a.pending_at(i2, k2));
                    assert(a.item_ok(a.pending_at(i2, k2)));
                    assert(a.pending_at(i2, k2).slot != slot);
                    assert(b.pending_at(i1, k1) == it);
                } else if i2 == bi && k2 == lastk {
                    assert(a.pos_ok(i1, k1) && b.pending_at(i1, k1) == a.pending_at(i1, k1));
                    assert(a.item_ok(a.pending_at(i1, k1)));
                    assert(a.pending_at(i1, k1).slot != slot);
                    assert(b.pending_at(i2, k2) == it);
                } else {
                    assert(a.pos_ok(i1, k1) && b.pending_at(i1, k1) == a.pending_at(i1, k1));
                    assert(a.pos_ok(i2, k2) && b.pending_at(i2, k2) == a.pending_at(i2, k2));
                }
            }
            assert(b.pos_ok(bi, lastk) && b.pending_at(bi, lastk) == it);
            assert forall|x: GarbageItem| a.has_pending(x) implies b.has_pending(x) by {
                let (j, k): (int, int) = choose|j: int, k: int|
                    a.pos_ok(j, k) && #[trigger] a.pending_at(j, k) == x;
                assert(b.pos_ok(j, k) && b.pending_at(j, k) == x);
            }
            assert forall|x: GarbageItem| b.has_pending(x) implies a.has_pending(x) || x == it by {
                let (j, k): (int, int) = choose|j: int, k: int|
                    b.pos_ok(j, k) && #[trigger] b.pending_at(j, k) == x;
                if !(j == bi && k == lastk) {
                    assert(a.pos_ok(j, k) && a.pending_at(j, k) == x);
                }
            }
        }
    }

    /// One opportunistic attempt to advance the global epoch.  The epoch
    /// moves forward exactly when every pinned participant observed the
    /// current epoch (and the counter has room); in the same scan,
    /// detached participants whose garbage has been fully drained are
    /// retired from the registry in place.  How often this is attempted
    /// is an amortization policy left to the caller; correctness never
    /// depends on the cadence.
    #[verifier::loop_isolation(false)]
    pub fn try_advance(&mut self) -> (advanced: bool)
        requires
            old(self).wf(),
        ensures
            final(self).wf(),
            advanced == (old(self).epoch < u64::MAX && (forall|i: int|
                0 <= i < old(self).participants@.len() ==> ((
                #[trigger] old(self).participants@[i]).pin_depth > 0 ==> old(
                    self,
                ).participants@[i].local_epoch == old(self).epoch))),
            final(self).epoch == if advanced {
                old(self).epoch + 1
            } else {
                old(self).epoch as int
            },
            final(self).garbage@ == old(self).garbage@,
            final(self).slots@ == old(self).slots@,
            final(self).participants@.len() == old(self).participants@.len(),
            forall|i: int|
                0 <= i < old(self).participants@.len() ==> #[trigger] final(self).participants@[i]
                    == old(self).participants@[i].prune_step(),
            forall|x: GarbageItem| final(self).has_pending(x) <==> old(self).has_pending(x),
    {
        let n = self.participants.len();
        let mut quiet = true;
        let mut i: usize = 0;
        while i < n
            invariant
                0 <= i <= n,
                *self == *old(self),
                quiet <==> (forall|j: int|
                    0 <= j < i ==> ((#[trigger] self.participants@[j]).pin_depth > 0
                        ==> self.participants@[j].local_epoch == self.epoch)),
            decreases n - i,
        {
            let p = &self.participants[i];
            if p.pin_depth > 0 && p.local_epoch != self.epoch {
                quiet = false;
            }
            i = i + 1;
        }
        let advanced = quiet && self.epoch < u64::MAX;
        if advanced {
            self.epoch = self.epoch + 1;
            proof {
                assert forall|j: int| 0 <= j < self.participants@.len() implies (
                #[trigger] self.participants@[j]).wf(self.epoch) by {
                    assert(old(self).participants@[j].wf(old(self).epoch));
                }
                lemma_wf_preserved(*old(self), *self);
            }
        }
        let ghost mid = *self;
        let mut j: usize = 0;
        while j < n
            invariant
                0 <= j <= n,
                self.wf(),
                self.epoch == mid.epoch,
                self.garbage@ == mid.garbage@,
                self.slots@ == mid.slots@,
                self.participants@.len() == n,
                forall|l: int|
                    0 <= l < j ==> #[trigger] self.participants@[l]
                        == mid.participants@[l].prune_step(),
                forall|l: int| j <= l < n ==> #[trigger] self.participants@[l]
                    == mid.participants@[l],
            decreases n - j,
        {
            let ghost prev = *self;
            let p = &mut self.participants[j];
            if p.status == Status::Exited && p.bag.len() == 0 {
                p.status = Status::Removed;
            }
            proof {
                assert forall|l: int| 0 <= l < self.participants@.len() implies (
                #[trigger] self.participants@[l]).wf(self.epoch) by {
                    assert(prev.participants@[l].wf(prev.epoch));
                }
                lemma_wf_preserved(prev, *self);
                lemma_pending_same(prev, *self);
            }
            j = j + 1;
        }
        proof {
            lemma_pending_same(*old(self), *self);
        }
        advanced
    }

    /// Tears down thread `t`'s association with this collector: its
    /// active participant, if it has one, flushes its bag to the shared
    /// queue and becomes a detached `Exited` record, which the epoch scan
    /// keeps finding until its garbage is drained.  A thread with no
    /// active registration — or one torn down already — is a no-op, never
    /// an error.  Handles are torn down only after their guards, so the
    /// entry being exited is unpinned.
    #[verifier::loop_isolation(false)]
    pub fn thread_exit(&mut self, t: u64)
        requires
            old(self).wf(),
            forall|i: int|
                0 <= i < old(self).participants@.len() && (
                #[trigger] old(self).participants@[i]).status == Status::Active && old(
                    self,
                ).participants@[i].thread == t ==> old(self).participants@[i].pin_depth == 0,
        ensures
            final(self).wf(),
            final(self).epoch == old(self).epoch,
            final(self).slots@ == old(self).slots@,
            final(self).participants@.len() == old(self).participants@.len(),
            forall|x: GarbageItem| final(self).has_pending(x) <==> old(self).has_pending(x),
            !old(self).has_active_thread(t) ==> final(self).participants@ == old(
                self,
            ).participants@ && final(self).garbage@ == old(self).garbage@,
            old(self).has_active_thread(t) ==> exists|i: int|
                0 <= i < old(self).participants@.len() && (
                #[trigger] old(self).participants@[i]).status == Status::Active && old(
                    self,
                ).participants@[i].thread == t && final(self).participants@[i].status
                    == Status::Exited && final(self).bag_seq(i).len() == 0 && (forall|j: int|
                    0 <= j < old(self).participants@.len() && j != i
                        ==> final(self).participants@[j] == old(self).participants@[j]),
    {
        let n = self.participants.len();
        let mut i: usize = 0;
        while i < n
            invariant
                0 <= i <= n,
                *self == *old(self),
                forall|j: int|
                    0 <= j < i ==> !((#[trigger] self.participants@[j]).status == Status::Active
                        && self.participants@[j].thread == t),
            decreases n - i,
        {
            let found = {
                let p = &self.participants[i];
                p.status == Status::Active && p.thread == t
            };
            if found {
                self.flush(i);
                let ghost mid = *self;
                let p = &mut self.participants[i];
                p.status = Status::Exited;
                proof {
                    assert forall|l: int| 0 <= l < self.participants@.len() implies (
                    #[trigger] self.participants@[l]).wf(self.epoch) by {
                        assert(mid.participants@[l].wf(mid.epoch));
                    }
                    lemma_wf_preserved(mid, *self);
                    lemma_pending_same(mid, *self);
                    assert(old(self).participants@[i as int].status == Status::Active
                        && old(self).participants@[i as int].thread == t);
                }
                return ;
            }
            i = i + 1;
        }
    }

    /// Resolve-or-create pin for thread `t`: finds the thread's active
    /// participant and pins it, registering a fresh participant first if
    /// the thread has none.  The fresh registration is the teardown
    /// fallback path: a thread whose handle is already gone — for example
    /// one pinning from another per-thread resource's destructor while
    /// the thread exits — gets a transient participant instead of a
    /// failure.
    #[verifier::loop_isolation(false)]
    pub fn pin_thread(&mut self, t: u64) -> (g: Guard)
        requires
            old(self).wf(),
            old(self).can_pin_thread(t),
        ensures
            final(self).wf(),
            final(self).epoch == old(self).epoch,
            final(self).slots@ == old(self).slots@,
            final(self).garbage@ == old(self).garbage@,
            g.participant < final(self).participants@.len(),
            final(self).participants@[g.participant as int].pin_depth > 0,
            final(self).participants@[g.participant as int].thread == t,
            final(self).participants@[g.participant as int].status == Status::Active,
            !old(self).has_active_thread(t) ==> g.participant == old(self).participants@.len()
                && final(self).participants@ == old(self).participants@.push(
                final(self).participants@[g.participant as int],
            ),
            old(self).has_active_thread(t) ==> g.participant < old(self).participants@.len()
                && old(self).participants@[g.participant as int].status == Status::Active && old(
                self,
            ).participants@[g.participant as int].thread == t && final(self).participants@ == old(
                self,
            ).participants@.update(
                g.participant as int,
                old(self).participants@[g.participant as int].pin_step(old(self).epoch),
            ),
    {
        let n = self.participants.len();
        let mut i: usize = 0;
        while i < n
            invariant
                0 <= i <= n,
                *self == *old(self),
                forall|j: int|
                    0 <= j < i ==> !((#[trigger] self.participants@[j]).status == Status::Active
                        && self.participants@[j].thread == t),
            decreases n - i,
        {
            let found = {
                let p = &self.participants[i];
                p.status == Status::Active && p.thread == t
            };
            if found {
                return self.pin(i);
            }
            i = i + 1;
        }
        assert(!self.has_active_thread(t));
        let idx = self.register(t);
        let g = self.pin(idx);
        proof {
            assert(final(self).participants@ =~= old(self).participants@.push(
                final(self).participants@[idx as int],
            ));
        }
        g
    }

    /// Frees every pending item whose grace period has passed.  Each
    /// participant's bag is drained to the shared queue; every queued
    /// item retired at least two epochs before the current one has its
    /// slot freed — exactly once, which the slot-distinctness part of
    /// `wf` guarantees — and every younger item stays queued.
    #[verifier::loop_isolation(false)]
    #[verifier::rlimit(30)]
    pub fn collect(&mut self)
        requires
            old(self).wf(),
        ensures
            final(self).wf(),
            final(self).epoch == old(self).epoch,
            final(self).slots@.len() == old(self).slots@.len(),
            final(self).participants@.len() == old(self).participants@.len(),
            forall|j: int|
                0 <= j < old(self).participants@.len() ==> {
                    &&& (#[trigger] final(self).participants@[j]).thread == old(
                        self,
                    ).participants@[j].thread
                    &&& final(self).participants@[j].pin_depth == old(
                        self,
                    ).participants@[j].pin_depth
                    &&& final(self).participants@[j].local_epoch == old(
                        self,
                    ).participants@[j].local_epoch
                    &&& final(self).participants@[j].status == old(self).participants@[j].status
                    &&& final(self).bag_seq(j).len() == 0
                },
            forall|it: GarbageItem|
                old(self).has_pending(it) && expired(it, old(self).epoch) ==> final(self).slots@[it.slot as int] == SlotState::Freed,
            forall|it: GarbageItem|
                old(self).has_pending(it) && !expired(it, old(self).epoch) ==> final(self).has_pending(it),
            forall|it: GarbageItem|
                final(self).has_pending(it) ==> old(self).has_pending(it) && !expired(
                    it,
                    old(self).epoch,
                ),
            forall|s: int|
                0 <= s < old(self).slots@.len() && final(self).slots@[s] != old(self).slots@[s]
                    ==> old(self).slots@[s] == SlotState::Retired && final(self).slots@[s]
                    == SlotState::Freed && (exists|it: GarbageItem|
                    old(self).has_pending(it) && expired(it, old(self).epoch) && it.slot == s),
    {
        let n = self.participants.len();
        let mut i: usize = 0;
        while i < n
            invariant
                0 <= i <= n,
                self.wf(),
                self.epoch == old(self).epoch,
                self.slots@ == old(self).slots@,
                self.participants@.len() == n,
                forall|j: int|
                    0 <= j < n ==> {
                        &&& (#[trigger] self.participants@[j]).thread == old(
                            self,
                        ).participants@[j].thread
                        &&& self.participants@[j].pin_depth == old(
                            self,
                        ).participants@[j].pin_depth
                        &&& self.participants@[j].local_epoch == old(
                            self,
                        ).participants@[j].local_epoch
                        &&& self.participants@[j].status == old(self).participants@[j].status
                    },
                forall|j: int| 0 <= j < i ==> #[trigger] self.bag_seq(j).len() == 0,
                forall|x: GarbageItem| self.has_pending(x) <==> old(self).has_pending(x),
            decreases n - i,
        {
            let ghost prev = *self;
            self.flush(i);
            proof {
                assert forall|j: int| 0 <= j <= i implies #[trigger] self.bag_seq(j).len()
                    == 0 by {
                    if j < i {
                        assert(self.participants@[j] == prev.participants@[j]);
                        assert(prev.bag_seq(j).len() == 0);
                    }
                }
            }
            i = i + 1;
        }
        let ghost m = *self;
        let mut kept: Vec<GarbageItem> = Vec::new();
        let qlen = self.garbage.len();
        proof {
            assert forall|j: int| 0 <= j < qlen implies (#[trigger] m.garbage@[j]).slot
                < self.slots@.len() && self.slots@[m.garbage@[j].slot as int]
                == SlotState::Retired by {
                assert(m.pos_ok(-1, j));
                assert(m.pending_at(-1, j) == m.garbage@[j]);
                assert(m.item_ok(m.garbage@[j]));
            }
        }
        let mut k: usize = 0;
        while k < qlen
            invariant
                0 <= k <= qlen,
                qlen == self.garbage@.len(),
                self.garbage@ == m.garbage@,
                self.epoch == m.epoch,
                self.participants@ == m.participants@,
                self.slots@.len() == m.slots@.len(),
                forall|j: int|
                    0 <= j < k && expired(#[trigger] m.garbage@[j], m.epoch)
                        ==> self.slots@[m.garbage@[j].slot as int] == SlotState::Freed,
                forall|j: int|
                    0 <= j < k && !expired(#[trigger] m.garbage@[j], m.epoch)
                        ==> kept@.contains(m.garbage@[j]),
                forall|t: int|
                    0 <= t < kept@.len() ==> m.garbage@.contains(#[trigger] kept@[t])
                        && !expired(kept@[t], m.epoch),
                forall|t1: int, t2: int|
                    0 <= t1 < t2 < kept@.len() ==> (#[trigger] kept@[t1]).slot != (
                    #[trigger] kept@[t2]).slot,
                forall|t: int|
                    0 <= t < kept@.len() ==> (#[trigger] kept@[t]).slot < self.slots@.len()
                        && self.slots@[kept@[t].slot as int] == SlotState::Retired,
                forall|t: int, j: int|
                    0 <= t < kept@.len() && k <= j < qlen ==> (#[trigger] kept@[t]).slot != (
                    #[trigger] m.garbage@[j]).slot,
                forall|j: int|
                    k <= j < qlen ==> self.slots@[(#[trigger] m.garbage@[j]).slot as int]
                        == SlotState::Retired,
                forall|s: int|
                    0 <= s < self.slots@.len() && self.slots@[s] != m.slots@[s] ==> m.slots@[s]
                        == SlotState::Retired && self.slots@[s] == SlotState::Freed && (exists|
                        j: int,
                    |
                        0 <= j < k && (#[trigger] m.garbage@[j]).slot == s && expired(
                            m.garbage@[j],
                            m.epoch,
                        )),
            decreases qlen - k,
        {
            let it = self.garbage[k];
            proof {
                assert(m.pos_ok(-1, k as int));
                assert(m.pending_at(-1, k as int) == it);
                assert(m.item_ok(it));
                assert forall|j: int| k < j < qlen implies (#[trigger] m.garbage@[j]).slot
                    != it.slot by {
                    assert(m.pos_ok(-1, j));
                    assert(m.pending_at(-1, j) == m.garbage@[j]);
                }
            }
            if self.epoch >= 2 && it.epoch <= self.epoch - 2 {
                self.slots[it.slot] = SlotState::Freed;
            } else {
                let ghost kept0 = kept@;
                kept.push(it);
                proof {
                    assert forall|x: GarbageItem| kept0.contains(x) implies kept@.contains(
                        x,
                    ) by {
                        let t = choose|t: int| 0 <= t < kept0.len() && kept0[t] == x;
                        assert(kept@[t] == x);
                    }
                    assert(kept@[kept@.len() - 1] == it);
                    assert(m.garbage@[k as int] == it);
                    assert(m.garbage@.contains(it));
                    assert forall|t: int| 0 <= t < kept@.len() implies m.garbage@.contains(
                        #[trigger] kept@[t],
                    ) && !expired(kept@[t], m.epoch) by {
                        if t < kept0.len() {
                            assert(kept@[t] == kept0[t]);
                        } else {
                            assert(kept@[t] == it);
                        }
                    }
                }
            }
            k = k + 1;
        }
        self.garbage = kept;
        proof {
            let b = *self;
            assert forall|j: int| 0 <= j < b.participants@.len() implies (
            #[trigger] b.participants@[j]).wf(b.epoch) by {
                assert(m.participants@[j].wf(m.epoch));
            }
            assert forall|j: int| 0 <= j < b.participants@.len() implies #[trigger] b.bag_seq(
                j,
            ).len() == 0 by {
                assert(m.bag_seq(j).len() == 0);
            }
            assert forall|j: int, k2: int| b.pos_ok(j, k2) implies b.item_ok(
                #[trigger] b.pending_at(j, k2),
            ) by {
                assert(j == -1);
                assert(b.pending_at(j, k2) == b.garbage@[k2]);
                let x = b.garbage@[k2];
                assert(m.garbage@.contains(x));
                let j0 = choose|j0: int| 0 <= j0 < m.garbage@.len() && m.garbage@[j0] == x;
                assert(m.pos_ok(-1, j0));
                assert(m.item_ok(m.pending_at(-1, j0)));
            }
            assert forall|i1: int, k1: int, i2: int, k2: int|
                b.pos_ok(i1, k1) && b.pos_ok(i2, k2) && !(i1 == i2 && k1 == k2) implies (
            #[trigger] b.pending_at(i1, k1)).slot != (#[trigger] b.pending_at(i2, k2)).slot by {
                assert(i1 == -1 && i2 == -1);
            }
            // everything old and pending is exactly everything pending in `m`
            assert forall|it: GarbageItem| old(self).has_pending(it) implies m.has_pending(
                it,
            ) by {}
            // expired items were freed
            assert forall|it: GarbageItem|
                old(self).has_pending(it) && expired(it, old(self).epoch) implies
                b.slots@[it.slot as int] == SlotState::Freed by {
                assert(m.has_pending(it));
                let (j, k2): (int, int) = choose|j: int, k2: int|
                    m.pos_ok(j, k2) && #[trigger] m.pending_at(j, k2) == it;
                assert(j == -1);
                assert(m.garbage@[k2] == it);
            }
            // young items are still pending
            assert forall|it: GarbageItem|
                old(self).has_pending(it) && !expired(it, old(self).epoch) implies b.has_pending(
                it,
            ) by {
                assert(m.has_pending(it));
                let (j, k2): (int, int) = choose|j: int, k2: int|
                    m.pos_ok(j, k2) && #[trigger] m.pending_at(j, k2) == it;
                assert(j == -1);
                assert(m.garbage@[k2] == it);
                assert(kept@.contains(it));
                let t = choose|t: int| 0 <= t < kept@.len() && kept@[t] == it;
                assert(b.pos_ok(-1, t));
                assert(b.pending_at(-1, t) == it);
            }
            // and nothing else is
            assert forall|it: GarbageItem| b.has_pending(it) implies old(self).has_pending(it)
                && !expired(it, old(self).epoch) by {
                let (j, k2): (int, int) = choose|j: int, k2: int|
                    b.pos_ok(j, k2) && #[trigger] b.pending_at(j, k2) == it;
                assert(j == -1);
                let x = b.garbage@[k2];
                assert(m.garbage@.contains(x));
                let j0 = choose|j0: int| 0 <= j0 < m.garbage@.len() && m.garbage@[j0] == x;
                assert(m.pos_ok(-1, j0));
                assert(m.pending_at(-1, j0) == it);
                assert(m.has_pending(it));
            }
            // the slot frame condition, carried back to `old(self)`
            assert forall|s: int|
                0 <= s < old(self).slots@.len() && b.slots@[s] != old(self).slots@[s] implies old(
                self,
            ).slots@[s] == SlotState::Retired && b.slots@[s] == SlotState::Freed && (exists|
                it: GarbageItem,
            |
                old(self).has_pending(it) && expired(it, old(self).epoch) && it.slot == s) by {
                let j = choose|j: int|
                    0 <= j < qlen && (#[trigger] m.garbage@[j]).slot == s && expired(
                        m.garbage@[j],
                        m.epoch,
                    );
                assert(m.pos_ok(-1, j));
                assert(m.pending_at(-1, j) == m.garbage@[j]);
                assert(m.has_pending(m.garbage@[j]));
                assert(old(self).has_pending(m.garbage@[j]));
            }
        }
    }

    /// True iff thread `t` currently holds at least one pin in this
    /// collector.  A thread with no active registration is simply not
    /// pinned; asking never registers one.
    #[verifier::loop_isolation(false)]
    pub fn is_pinned_thread(&self, t: u64) -> (r: bool)
        ensures
            r == self.thread_pinned_spec(t),
    {
        let n = self.participants.len();
        let mut i: usize = 0;
        while i < n
            invariant
                0 <= i <= n,
                forall|j: int|
                    0 <= j < i ==> !((#[trigger] self.participants@[j]).status == Status::Active
                        && self.participants@[j].thread == t && self.participants@[j].pin_depth
                        > 0),
            decreases n - i,
        {
            let p = &self.participants[i];
            if p.status == Status::Active && p.thread == t && p.pin_depth > 0 {
                return true;
            }
            i = i + 1;
        }
        false
    }
}


/// Every pinned participant's epoch snapshot is at most one generation
/// behind the global epoch.
pub proof fn lemma_pinned_epoch_bound(c: Collector, i: int)
    requires
        c.wf(),
        0 <= i < c.participants@.len(),
        c.participants@[i].is_pinned_spec(),
    ensures
        c.participants@[i].local_epoch + 1 >= c.epoch,
{
    assert(c.participants@[i].wf(c.epoch));
}

/// No pending item names a freed slot: every deferred action still
/// waiting refers to a slot in the `Retired` state.  A slot, once freed,
/// is therefore never freed again — combined with `collect`'s contract,
/// each garbage item's action runs exactly once, after its grace period.
pub proof fn lemma_pending_not_freed(c: Collector, it: GarbageItem)
    requires
        c.wf(),
        c.has_pending(it),
    ensures
        it.slot < c.slots@.len(),
        c.slots@[it.slot as int] == SlotState::Retired,
{
    let (j, k): (int, int) = choose|j: int, k: int|
        c.pos_ok(j, k) && #[trigger] c.pending_at(j, k) == it;
    assert(c.item_ok(c.pending_at(j, k)));
}

/// Liveness under churn: when no participant holds a pin — for example
/// once every worker of a batch has unpinned or exited — nothing blocks
/// the epoch, so `try_advance` succeeds whenever the counter has room,
/// and two such advances age every pending item past its grace period,
/// at which point `collect` frees it.
pub proof fn lemma_quiescent_advance(c: Collector)
    requires
        c.wf(),
        forall|i: int|
            0 <= i < c.participants@.len() ==> !(#[trigger] c.participants@[i]).is_pinned_spec(),
    ensures
        forall|i: int|
            0 <= i < c.participants@.len() ==> ((#[trigger] c.participants@[i]).pin_depth > 0
                ==> c.participants@[i].local_epoch == c.epoch),
{
}

/// Grace-period safety: once the global epoch has reached `e + 2`, every
/// pinned participant's snapshot is strictly newer than `e`.  A guard
/// that could have observed a location retired at epoch `e` must carry a
/// snapshot of at most `e`, so no such guard is still outstanding, and
/// `collect` — which frees an item only when `expired(it, epoch)` holds —
/// never frees a location a pinned reader could still see.
pub proof fn lemma_grace_period(c: Collector, e: u64)
    requires
        c.wf(),
        c.epoch >= e + 2,
    ensures
        forall|i: int|
            0 <= i < c.participants@.len() && (#[trigger] c.participants@[i]).is_pinned_spec()
                ==> c.participants@[i].local_epoch > e,
{
    assert forall|i: int|
        0 <= i < c.participants@.len() && (#[trigger] c.participants@[i]).is_pinned_spec() implies
        c.participants@[i].local_epoch > e by {
        assert(c.participants@[i].wf(c.epoch));
    }
}

} // verus!

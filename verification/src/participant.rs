//! Per-thread participant records.
//!
//! A participant tracks its owning thread, its reentrant pin depth, the
//! epoch it observed when it was last pinned from depth zero, its garbage
//! bag and its liveness status.  The spec-level step functions `pin_step`
//! and `unpin_step` are what the collector's executable `pin` and `unpin`
//! promise to perform; the reentrancy law at the bottom is stated over
//! iterated applications of those steps.

use vstd::prelude::*;

use crate::garbage::{GarbageBag, BAG_CAP};

verus! {

/// Liveness of a registry entry.
///
/// `Active` entries are owned by a running thread.  When the thread exits,
/// its entry becomes `Exited` (a detached record that still holds garbage)
/// and stays discoverable by the epoch scan until its bag is drained, at
/// which point the scan retires it to `Removed`.  Entries are never moved
/// or deleted, so indices into the registry stay stable.
#[derive(Clone, Copy, PartialEq, Eq, Structural, Debug)]
pub enum Status {
    Active,
    Exited,
    Removed,
}

/// One registry entry: the per-thread bookkeeping record.
#[derive(Debug)]
pub struct Participant {
    /// Identity of the owning thread.
    pub thread: u64,
    /// Reentrant pin depth; the thread is pinned iff this is positive.
    pub pin_depth: usize,
    /// The global epoch observed at the outermost pin.
    pub local_epoch: u64,
    /// Liveness of this entry.
    pub status: Status,
    /// Local buffer of retired items not yet flushed to the collector.
    pub bag: GarbageBag,
}

impl Participant {
    pub open spec fn is_pinned_spec(self) -> bool {
        self.pin_depth > 0
    }

    /// Well-formedness relative to the collector's global epoch.
    ///
    /// The clause `is_pinned_spec() ==> local_epoch + 1 >= global` is the
    /// heart of the grace-period argument: a pinned participant's snapshot
    /// is never more than one generation behind the global epoch.
    pub open spec fn wf(self, global: u64) -> bool {
        &&& self.bag@.len() <= BAG_CAP
        &&& self.local_epoch <= global
        &&& self.is_pinned_spec() ==> self.local_epoch + 1 >= global
        &&& self.status != Status::Active ==> self.pin_depth == 0
        &&& self.status == Status::Removed ==> self.bag@.len() == 0
    }

    /// What one `pin` does: on the transition 0 -> 1 the participant
    /// records the global epoch as its snapshot; a nested pin only deepens
    /// the depth and keeps the snapshot of the enclosing pin.
    pub open spec fn pin_step(self, global: u64) -> Participant {
        if self.pin_depth == 0 {
            Participant { pin_depth: 1, local_epoch: global, ..self }
        } else {
            Participant { pin_depth: (self.pin_depth + 1) as usize, ..self }
        }
    }

    /// What one `unpin` does: the depth drops by one and nothing else
    /// changes; only the transition 1 -> 0 makes the thread unpinned.
    pub open spec fn unpin_step(self) -> Participant {
        Participant { pin_depth: (self.pin_depth - 1) as usize, ..self }
    }

    /// What the registry scan does to an entry it passes: a detached
    /// entry whose garbage has been fully drained is retired in place;
    /// every other entry is left alone.
    pub open spec fn prune_step(self) -> Participant {
        if self.status == Status::Exited && self.bag@.len() == 0 {
            Participant { status: Status::Removed, ..self }
        } else {
            self
        }
    }

    /// `n` nested pins, all taken while the global epoch reads `global`.
    pub open spec fn pin_n(self, global: u64, n: nat) -> Participant
        decreases n,
    {
        if n == 0 {
            self
        } else {
            self.pin_n(global, (n - 1) as nat).pin_step(global)
        }
    }

    /// `k` unpins.
    pub open spec fn unpin_n(self, k: nat) -> Participant
        decreases k,
    {
        if k == 0 {
            self
        } else {
            self.unpin_n((k - 1) as nat).unpin_step()
        }
    }
}

proof fn lemma_pin_n_shape(p: Participant, global: u64, n: nat)
    requires
        p.pin_depth == 0,
        1 <= n,
        n <= usize::MAX,
    ensures
        p.pin_n(global, n).pin_depth == n,
        p.pin_n(global, n).local_epoch == global,
        p.pin_n(global, n).thread == p.thread,
        p.pin_n(global, n).status == p.status,
    decreases n,
{
    if n == 1 {
        assert(p.pin_n(global, 0) == p);
    } else {
        lemma_pin_n_shape(p, global, (n - 1) as nat);
    }
}

proof fn lemma_unpin_n_shape(p: Participant, k: nat)
    requires
        k <= p.pin_depth,
    ensures
        p.unpin_n(k).pin_depth == p.pin_depth - k,
        p.unpin_n(k).local_epoch == p.local_epoch,
        p.unpin_n(k).thread == p.thread,
        p.unpin_n(k).status == p.status,
    decreases k,
{
    if k == 1 {
        assert(p.unpin_n(0) == p);
    } else if k > 1 {
        lemma_unpin_n_shape(p, (k - 1) as nat);
    }
}

/// Reentrancy law.  Starting from an unpinned participant, `n >= 1` nested
/// pins share the single epoch snapshot taken by the outermost pin — every
/// intermediate state carries the same `local_epoch` — and after `k` of
/// the matching unpins the thread is still pinned exactly when `k < n`.
pub proof fn lemma_reentrant_pins(p: Participant, global: u64, n: nat, k: nat)
    requires
        p.pin_depth == 0,
        1 <= n,
        n <= usize::MAX,
        k <= n,
    ensures
        forall|j: nat|
            1 <= j <= n ==> #[trigger] p.pin_n(global, j).local_epoch == global,
        p.pin_n(global, n).unpin_n(k).is_pinned_spec() <==> k < n,
        p.pin_n(global, n).unpin_n(k).local_epoch == global,
{
    assert forall|j: nat| 1 <= j <= n implies #[trigger] p.pin_n(global, j).local_epoch
        == global by {
        lemma_pin_n_shape(p, global, j);
    }
    lemma_pin_n_shape(p, global, n);
    lemma_unpin_n_shape(p.pin_n(global, n), k);
}

} // verus!

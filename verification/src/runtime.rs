//! Explicit process-scoped state: the set of reclamation domains.
//!
//! Instead of a lazily initialized global singleton, the process's
//! collectors live in one explicit `EpochRuntime` value with a documented
//! initialization boundary: `initialize` creates the default domain
//! (index 0), and `new_domain` creates an independent, isolated domain.
//! The isolation law at the bottom states that an operation on one domain
//! leaves every other domain — its epoch, its registry, which of its
//! threads are pinned — untouched.

use vstd::prelude::*;

use crate::collector::Collector;
use crate::guard::Guard;

verus! {

/// All reclamation domains of one process.
#[derive(Debug)]
pub struct EpochRuntime {
    /// Domain 0 is the process-wide default collector; later entries are
    /// independently constructed collector instances.
    pub domains: Vec<Collector>,
}

impl EpochRuntime {
    pub open spec fn wf(self) -> bool {
        forall|d: int| 0 <= d < self.domains@.len() ==> (#[trigger] self.domains@[d]).wf()
    }

    /// Creates the process runtime with the default domain in place.
    /// This is the explicit initialization-on-first-use boundary.
    pub fn initialize() -> (rt: EpochRuntime)
        ensures
            rt.wf(),
            rt.domains@.len() == 1,
            rt.domains@[0].epoch == 0,
            rt.domains@[0].participants@.len() == 0,
    {
        let mut domains: Vec<Collector> = Vec::new();
        domains.push(Collector::new());
        EpochRuntime { domains }
    }

    /// Creates a fresh, isolated reclamation domain and returns its
    /// index.  The new domain shares no registry and no epoch with any
    /// existing one.
    pub fn new_domain(&mut self) -> (d: usize)
        requires
            old(self).wf(),
        ensures
            final(self).wf(),
            d == old(self).domains@.len(),
            final(self).domains@ == old(self).domains@.push(final(self).domains@[d as int]),
            final(self).domains@[d as int].epoch == 0,
            final(self).domains@[d as int].participants@.len() == 0,
            final(self).domains@[d as int].garbage@.len() == 0,
            final(self).domains@[d as int].slots@.len() == 0,
    {
        let d = self.domains.len();
        self.domains.push(Collector::new());
        d
    }

    /// Pins thread `t` in domain `d`: the resolve-or-create pin of
    /// `Collector::pin_thread`, addressed by domain index.
    pub fn pin_in(&mut self, d: usize, t: u64) -> (g: Guard)
        requires
            old(self).wf(),
            d < old(self).domains@.len(),
            old(self).domains@[d as int].can_pin_thread(t),
        ensures
            final(self).wf(),
            final(self).domains@ == old(self).domains@.update(
                d as int,
                final(self).domains@[d as int],
            ),
            final(self).domains@[d as int].epoch == old(self).domains@[d as int].epoch,
            final(self).domains@[d as int].garbage@ == old(self).domains@[d as int].garbage@,
            final(self).domains@[d as int].slots@ == old(self).domains@[d as int].slots@,
            g.participant < final(self).domains@[d as int].participants@.len(),
            final(self).domains@[d as int].participants@[g.participant as int].pin_depth > 0,
            final(self).domains@[d as int].participants@[g.participant as int].thread == t,
            final(self).domains@[d as int].thread_pinned_spec(t),
            !old(self).domains@[d as int].has_active_thread(t) ==> g.participant == old(
                self,
            ).domains@[d as int].participants@.len() && final(self).domains@[d as int].participants@
                == old(self).domains@[d as int].participants@.push(
                final(self).domains@[d as int].participants@[g.participant as int],
            ),
            old(self).domains@[d as int].has_active_thread(t) ==> final(self).domains@[d as int].participants@ == old(self).domains@[d as int].participants@.update(
                g.participant as int,
                old(self).domains@[d as int].participants@[g.participant as int].pin_step(
                    old(self).domains@[d as int].epoch,
                ),
            ),
    {
        let c = &mut self.domains[d];
        let g = c.pin_thread(t);
        proof {
            assert(final(self).domains@ =~= old(self).domains@.update(
                d as int,
                final(self).domains@[d as int],
            ));
        }
        g
    }

    /// Releases one pin taken through `pin_in` on domain `d`.
    pub fn unpin_in(&mut self, d: usize, g: Guard)
        requires
            old(self).wf(),
            d < old(self).domains@.len(),
            g.participant < old(self).domains@[d as int].participants@.len(),
            old(self).domains@[d as int].participants@[g.participant as int].pin_depth > 0,
        ensures
            final(self).wf(),
            final(self).domains@ == old(self).domains@.update(
                d as int,
                final(self).domains@[d as int],
            ),
            final(self).domains@[d as int].participants@ == old(
                self,
            ).domains@[d as int].participants@.update(
                g.participant as int,
                old(self).domains@[d as int].participants@[g.participant as int].unpin_step(),
            ),
            final(self).domains@[d as int].epoch == old(self).domains@[d as int].epoch,
            final(self).domains@[d as int].garbage@ == old(self).domains@[d as int].garbage@,
            final(self).domains@[d as int].slots@ == old(self).domains@[d as int].slots@,
    {
        let c = &mut self.domains[d];
        c.unpin(g);
        proof {
            assert(final(self).domains@ =~= old(self).domains@.update(
                d as int,
                final(self).domains@[d as int],
            ));
        }
    }

    /// True iff thread `t` holds a pin in domain `d` — and only there:
    /// the answer reads no other domain's state.
    pub fn is_pinned_in(&self, d: usize, t: u64) -> (r: bool)
        requires
            d < self.domains@.len(),
        ensures
            r == self.domains@[d as int].thread_pinned_spec(t),
    {
        self.domains[d].is_pinned_thread(t)
    }
}

/// Isolation law.  Every mutating runtime operation reshapes the domain
/// vector by updating only the domain it names — that is exactly the
/// `update` shape each of their contracts ensures.  Consequently any
/// other domain keeps its whole state: its epoch never moves, and a
/// thread is pinned there afterwards exactly as it was before.
pub proof fn lemma_domain_isolation(a: EpochRuntime, b: EpochRuntime, d: int)
    requires
        0 <= d < a.domains@.len(),
        b.domains@ == a.domains@.update(d, b.domains@[d]),
    ensures
        forall|d2: int|
            0 <= d2 < a.domains@.len() && d2 != d ==> #[trigger] b.domains@[d2]
                == a.domains@[d2],
        forall|d2: int, t: u64|
            0 <= d2 < a.domains@.len() && d2 != d ==> (b.domains@[d2].epoch
                == a.domains@[d2].epoch && ((#[trigger] b.domains@[d2].thread_pinned_spec(t))
                <==> a.domains@[d2].thread_pinned_spec(t))),
{
}

} // verus!

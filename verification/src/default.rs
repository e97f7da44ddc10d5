//! The default garbage collector and the capability interface for
//! choosing which collector backs a pin.
//!
//! A collector type implements `CustomCollector` by naming the runtime
//! domain that backs it; `pin` and `is_pinned` then run the same
//! pin/unpin protocol against that domain.  `DefaultCollector` names the
//! process-wide default domain.  Per-thread handles are resolved — or
//! lazily created, including after this thread's own registration has
//! been torn down — inside `Collector::pin_thread`.

use vstd::prelude::*;

use crate::guard::Guard;
use crate::runtime::EpochRuntime;

verus! {

/// A collector choice: a type that names the runtime domain backing it.
pub trait CustomCollector {
    /// The index of the backing reclamation domain.
    spec fn collector_spec() -> int;

    /// Returns the index of the backing reclamation domain.
    fn collector() -> (d: usize)
        ensures
            d as int == Self::collector_spec(),
    ;
}

/// The object-safe form of the same capability, for callers that pick
/// the backing collector at run time.
pub trait DynCustomCollector {
    /// The index of the backing reclamation domain.
    spec fn collector_dyn_spec(&self) -> int;

    /// Returns the index of the backing reclamation domain.
    fn collector(&self) -> (d: usize)
        ensures
            d as int == self.collector_dyn_spec(),
    ;
}

/// The process-wide default garbage collector: runtime domain 0.
#[derive(Clone, Copy, Debug)]
pub struct DefaultCollector;

impl CustomCollector for DefaultCollector {
    open spec fn collector_spec() -> int {
        0
    }

    fn collector() -> usize {
        0
    }
}

impl DynCustomCollector for DefaultCollector {
    open spec fn collector_dyn_spec(&self) -> int {
        0
    }

    fn collector(&self) -> usize {
        0
    }
}

/// Pins thread `t` against the collector chosen by `C`, resolving or
/// lazily creating the thread's participant there.
pub fn pin<C: CustomCollector>(rt: &mut EpochRuntime, t: u64) -> (g: Guard)
    requires
        old(rt).wf(),
        0 <= C::collector_spec() < old(rt).domains@.len(),
        old(rt).domains@[C::collector_spec()].can_pin_thread(t),
    ensures
        final(rt).wf(),
        final(rt).domains@ == old(rt).domains@.update(
            C::collector_spec(),
            final(rt).domains@[C::collector_spec()],
        ),
        final(rt).domains@[C::collector_spec()].thread_pinned_spec(t),
        g.participant < final(rt).domains@[C::collector_spec()].participants@.len(),
        final(rt).domains@[C::collector_spec()].participants@[g.participant as int].pin_depth
            > 0,
        final(rt).domains@[C::collector_spec()].participants@[g.participant as int].thread == t,
{
    let d = C::collector();
    rt.pin_in(d, t)
}

/// Returns `true` if thread `t` is pinned against the collector chosen
/// by `C`.
pub fn is_pinned<C: CustomCollector>(rt: &EpochRuntime, t: u64) -> (r: bool)
    requires
        0 <= C::collector_spec() < rt.domains@.len(),
    ensures
        r == rt.domains@[C::collector_spec()].thread_pinned_spec(t),
{
    let d = C::collector();
    rt.is_pinned_in(d, t)
}

} // verus!

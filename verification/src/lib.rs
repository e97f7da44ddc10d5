//! Epoch-based memory reclamation for lock-free data structures, as an
//! explicit, verified state machine.
//!
//! A `Collector` owns a global epoch counter, a registry of per-thread
//! `Participant` records and an arena of reclaimable slots.  Threads pin
//! themselves before touching shared structures, retire slots through a
//! `Guard`, and the collector frees a retired slot only once the global
//! epoch has advanced at least two generations past the retirement epoch.
//! The grace-period invariant — no pinned participant can still observe a
//! slot by the time it is freed — is part of `Collector::wf` and is proved
//! to be preserved by every operation.

use vstd::prelude::*;

pub mod affinity;
pub mod channel;
pub mod collector;
pub mod default;
pub mod garbage;
pub mod guard;
pub mod message;
pub mod participant;
pub mod runtime;
pub mod workload;

verus! {

} // verus!

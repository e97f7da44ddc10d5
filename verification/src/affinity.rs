//! CPU-affinity bookkeeping for the workload driver.
//!
//! Only the bookkeeping lives here: which core ids remain in the shared
//! pool and whether the main thread has taken its core yet.  Querying
//! the machine for its core list and actually binding a thread to a core
//! are platform effects that stay with the caller, which passes the
//! queried list in as plain ids.

use vstd::prelude::*;

verus! {

/// The pool of core ids not yet handed to a worker thread.
#[derive(Debug)]
pub struct CpuPool {
    /// Core ids still available, taken from the back.
    pub ids: Vec<usize>,
    /// Whether the main thread has already taken its core.
    pub main_set: bool,
}

impl CpuPool {
    pub fn new() -> (p: CpuPool)
        ensures
            p.ids@ == Seq::<usize>::empty(),
            !p.main_set,
    {
        CpuPool { ids: Vec::new(), main_set: false }
    }

    /// Takes the next core id from the pool, refilling the pool first
    /// from `fresh` — the machine's current core list — when it is
    /// empty.  Refilling with an empty list would leave nothing to take,
    /// so at least one side must be non-empty.
    #[verifier::loop_isolation(false)]
    pub fn core_id(&mut self, fresh: &Vec<usize>) -> (r: usize)
        requires
            old(self).ids@.len() > 0 || fresh@.len() > 0,
        ensures
            final(self).main_set == old(self).main_set,
            old(self).ids@.len() > 0 ==> r == old(self).ids@.last() && final(self).ids@ == old(
                self,
            ).ids@.drop_last(),
            old(self).ids@.len() == 0 ==> r == fresh@.last() && final(self).ids@
                == fresh@.drop_last(),
    {
        if self.ids.len() == 0 {
            let n = fresh.len();
            let mut k: usize = 0;
            while k < n
                invariant
                    0 <= k <= n,
                    self.ids@ == fresh@.subrange(0, k as int),
                    self.main_set == old(self).main_set,
                decreases n - k,
            {
                self.ids.push(fresh[k]);
                proof {
                    assert(self.ids@ =~= fresh@.subrange(0, k + 1));
                }
                k = k + 1;
            }
            proof {
                assert(self.ids@ =~= fresh@);
            }
        }
        let r = self.ids.pop().unwrap();
        proof {
            assert(final(self).ids@ =~= old(self).ids@.drop_last() || final(self).ids@
                =~= fresh@.drop_last());
        }
        r
    }

    /// Reserves a core for the main thread, once: the first call takes a
    /// core id out of the pool and remembers it did, later calls do
    /// nothing.
    pub fn set_on_main_thread(&mut self, fresh: &Vec<usize>)
        requires
            old(self).main_set || old(self).ids@.len() > 0 || fresh@.len() > 0,
        ensures
            final(self).main_set,
            old(self).main_set ==> final(self).ids@ == old(self).ids@,
            !old(self).main_set && old(self).ids@.len() > 0 ==> final(self).ids@ == old(
                self,
            ).ids@.drop_last(),
            !old(self).main_set && old(self).ids@.len() == 0 ==> final(self).ids@
                == fresh@.drop_last(),
    {
        if !self.main_set {
            self.main_set = true;
            let _reserved = self.core_id(fresh);
        }
    }
}

} // verus!

//! The lease discipline of the credential-store pool: a bounded count of
//! outstanding leases against a fixed ceiling.  Acquisition fails — it never
//! over-hands-out — once the ceiling is reached, and every release returns
//! exactly one lease.

use vstd::prelude::*;
use crate::errors::PoolError;

verus! {

/// The bookkeeping of the pool: the configured ceiling and how many leases
/// are outstanding.  The count never exceeds the ceiling.  Deliberately
/// neither clonable nor copyable: a copied counter would fork the
/// outstanding count.
#[derive(Debug)]
pub struct LeasePool {
    ceiling: usize,
    outstanding: usize,
}

impl LeasePool {
    /// The configured ceiling.
    pub closed spec fn spec_ceiling(&self) -> int {
        self.ceiling as int
    }

    /// How many leases are outstanding.
    pub closed spec fn spec_outstanding(&self) -> int {
        self.outstanding as int
    }

    /// At most `ceiling` leases are outstanding at any time.
    pub open spec fn wf(&self) -> bool {
        0 <= self.spec_outstanding() <= self.spec_ceiling()
    }

    /// A pool with no lease outstanding.
    pub fn new(ceiling: usize) -> (r: LeasePool)
        ensures
            r.wf(),
            r.spec_ceiling() == ceiling,
            r.spec_outstanding() == 0,
    {
        LeasePool { ceiling, outstanding: 0 }
    }

    /// The configured ceiling.
    pub fn ceiling(&self) -> (r: usize)
        ensures
            r == self.spec_ceiling(),
    {
        self.ceiling
    }

    /// How many leases are outstanding.
    pub fn outstanding(&self) -> (r: usize)
        ensures
            r == self.spec_outstanding(),
    {
        self.outstanding
    }

    /// Takes one lease.  Succeeds exactly while the count is under the
    /// ceiling; the request past the ceiling observes `Exhausted` and the
    /// count does not move, so the ceiling is never exceeded.
    pub fn acquire(&mut self) -> (r: Result<(), PoolError>)
        requires
            old(self).wf(),
        ensures
            final(self).wf(),
            final(self).spec_ceiling() == old(self).spec_ceiling(),
            r is Ok <==> old(self).spec_outstanding() < old(self).spec_ceiling(),
            r is Ok ==> final(self).spec_outstanding() == old(self).spec_outstanding() + 1,
            r is Err ==> final(self).spec_outstanding() == old(self).spec_outstanding() && r
                == Err::<(), PoolError>(PoolError::Exhausted),
    {
        if self.outstanding < self.ceiling {
            self.outstanding = self.outstanding + 1;
            Ok(())
        } else {
            Err(PoolError::Exhausted)
        }
    }

    /// Returns one lease.  Every borrowing operation calls this on each of
    /// its exit paths, success and failure alike.
    pub fn release(&mut self)
        requires
            old(self).wf(),
            old(self).spec_outstanding() >= 1,
        ensures
            final(self).wf(),
            final(self).spec_ceiling() == old(self).spec_ceiling(),
            final(self).spec_outstanding() == old(self).spec_outstanding() - 1,
    {
        self.outstanding = self.outstanding - 1;
    }
}

} // verus!

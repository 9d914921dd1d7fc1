//! The gas meter of one execution.

use vstd::prelude::*;
use crate::error::EvmError;

verus! {

/// A gas meter: a limit and the gas used so far, which never exceeds it.
#[derive(Debug)]
pub struct Gas {
    limit: u64,
    used: u64,
}

impl Gas {
    #[verifier::type_invariant]
    spec fn within_limit(&self) -> bool {
        self.used <= self.limit
    }

    /// The limit the meter was made with.
    pub closed spec fn spec_limit(&self) -> nat {
        self.limit as nat
    }

    /// The gas used so far.
    pub closed spec fn spec_used(&self) -> nat {
        self.used as nat
    }

    pub fn new(limit: u64) -> (r: Self)
        ensures
            r.spec_limit() == limit,
            r.spec_used() == 0,
    {
        Self { limit, used: 0 }
    }

    /// Uses `cost` more gas, or fails with `OutOfGas`, leaving the meter as it
    /// was, when that would exceed the limit.
    pub fn consume(&mut self, cost: u64) -> (r: Result<(), EvmError>)
        ensures
            final(self).spec_limit() == old(self).spec_limit(),
            final(self).spec_used() <= final(self).spec_limit(),
            old(self).spec_used() + cost > old(self).spec_limit() ==> {
                &&& r == Err::<(), EvmError>(EvmError::OutOfGas)
                &&& final(self).spec_used() == old(self).spec_used()
            },
            old(self).spec_used() + cost <= old(self).spec_limit() ==> {
                &&& r is Ok
                &&& final(self).spec_used() == old(self).spec_used() + cost
            },
    {
        proof { use_type_invariant(&*self); }
        if cost > self.limit - self.used {
            return Err(EvmError::OutOfGas);
        }
        self.used = self.used + cost;
        Ok(())
    }

    pub fn remaining(&self) -> (r: u64)
        ensures
            r == self.spec_limit() - self.spec_used(),
    {
        proof { use_type_invariant(self); }
        self.limit - self.used
    }

    pub fn used(&self) -> (r: u64)
        ensures
            r == self.spec_used(),
    {
        self.used
    }
}

impl Clone for Gas {
    fn clone(&self) -> (r: Self)
        ensures
            r.spec_limit() == self.spec_limit(),
            r.spec_used() == self.spec_used(),
    {
        proof { use_type_invariant(self); }
        Gas { limit: self.limit, used: self.used }
    }
}

} // verus!

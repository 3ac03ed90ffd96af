//! A version number that only moves forward.
use vstd::prelude::*;

verus! {

/// A version: a counter that starts at zero and is stepped by `next`.
#[derive(Debug, Clone, Copy, PartialEq, Eq, Structural, PartialOrd, Ord)]
pub struct Version {
    inner: u64,
}

impl Version {
    /// The number of steps taken since the first version.
    pub closed spec fn count(self) -> u64 {
        self.inner
    }

    pub fn new() -> (v: Self)
        ensures
            v.count() == 0,
    {
        Version { inner: 0 }
    }

    /// Steps to the next version and returns a copy of it.  The counter may
    /// not pass `u64::MAX`.
    pub fn next(&mut self) -> (v: Self)
        requires
            old(self).count() < u64::MAX,
        ensures
            final(self).count() == old(self).count() + 1,
            v == *final(self),
    {
        self.inner = match self.inner.checked_add(1) {
            Some(n) => n,
            None => vstd::pervasive::unreached(),
        };
        Version { inner: self.inner }
    }
}

} // verus!

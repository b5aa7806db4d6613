//! A counting microsecond delay: the test double for the scheduler's
//! "suspend for a duration" primitive. It tracks how long has been waited
//! instead of spinning on a hardware timer.

use vstd::prelude::*;

verus! {

pub struct Delay {
    elapsed: u64,
}

impl Delay {
    /// Total microseconds waited so far.
    pub closed spec fn elapsed_spec(&self) -> u64 {
        self.elapsed
    }

    pub fn new() -> (r: Delay)
        ensures
            r.elapsed_spec() == 0,
    {
        Delay { elapsed: 0 }
    }

    /// Wait for `us` microseconds.
    pub fn delay_us(&mut self, us: u32)
        requires
            old(self).elapsed_spec() + us <= u64::MAX,
        ensures
            final(self).elapsed_spec() == old(self).elapsed_spec() + us,
    {
        self.elapsed = self.elapsed + us as u64;
    }

    /// Total microseconds waited so far.
    pub fn elapsed_us(&self) -> (r: u64)
        ensures
            r == self.elapsed_spec(),
    {
        self.elapsed
    }
}

} // verus!

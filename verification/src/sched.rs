//! The fixed-priority scheduling and resource-sharing model.
//!
//! A single core runs independent activities under fixed-priority
//! preemption: an activity preempts the running one only when its priority
//! is strictly higher. Each shared resource is guarded by a
//! priority-ceiling lock: acquiring it raises the holder's effective
//! priority to the resource's ceiling, the highest static priority of any
//! activity that ever touches the resource. No user of the resource can
//! then preempt the holder, so mutual exclusion holds without a blocking
//! mutex, and worst-case blocking is one critical-section length.

use vstd::prelude::*;

verus! {

/// Whether an activity of priority `incoming` preempts an activity running
/// at effective priority `executing`: only a strictly higher priority
/// preempts.
pub open spec fn preempts(incoming: u8, executing: u8) -> bool {
    incoming > executing
}

/// The ceiling of a resource given the static priorities of its users: the
/// highest of them (0 when nothing uses the resource).
pub open spec fn spec_ceiling(users: Seq<u8>) -> int
    decreases users.len(),
{
    if users.len() == 0 {
        0
    } else if users.last() as int >= spec_ceiling(users.drop_last()) {
        users.last() as int
    } else {
        spec_ceiling(users.drop_last())
    }
}

/// Every user's priority is bounded by the ceiling.
pub proof fn lemma_ceiling_bounds(users: Seq<u8>, i: int)
    requires
        0 <= i < users.len(),
    ensures
        users[i] as int <= spec_ceiling(users),
    decreases users.len(),
{
    if i < users.len() - 1 {
        lemma_ceiling_bounds(users.drop_last(), i);
    }
}

/// The priority-ceiling discipline is race-free: while any activity holds a
/// resource it runs at the resource's ceiling, and no other user of the
/// resource can preempt it, whatever its static priority.
pub proof fn lemma_ceiling_excludes_users(users: Seq<u8>, i: int)
    requires
        0 <= i < users.len(),
    ensures
        !preempts(users[i], spec_ceiling(users) as u8),
{
    lemma_ceiling_bounds(users, i);
    assert(spec_ceiling(users) <= 255) by {
        lemma_ceiling_fits(users);
    };
}

/// The ceiling of byte-sized priorities is itself byte-sized.
proof fn lemma_ceiling_fits(users: Seq<u8>)
    ensures
        0 <= spec_ceiling(users) <= 255,
    decreases users.len(),
{
    if users.len() > 0 {
        lemma_ceiling_fits(users.drop_last());
    }
}

/// Compute a resource's ceiling from its users' static priorities.
pub fn ceiling_of(users: &Vec<u8>) -> (r: u8)
    ensures
        r as int == spec_ceiling(users@),
{
    let mut r: u8 = 0;
    let mut i: usize = 0;
    while i < users.len()
        invariant
            i <= users@.len(),
            r as int == spec_ceiling(users@.take(i as int)),
        decreases users@.len() - i,
    {
        let p = users[i];
        proof {
            assert(users@.take(i + 1).drop_last() =~= users@.take(i as int));
            assert(users@.take(i + 1).last() == users@[i as int]);
        }
        if p > r {
            r = p;
        }
        i += 1;
    }
    proof {
        assert(users@.take(users@.len() as int) =~= users@);
    }
    r
}

/// One priority-ceiling lock, bound to its resource's static ceiling.
///
/// At most one writer at a time; readers are serialized through the same
/// lock. Acquiring records the holder's previous effective priority and
/// raises it to the ceiling; releasing restores it.
pub struct CeilingLock {
    ceiling: u8,
    held: bool,
    saved: u8,
}

impl CeilingLock {
    /// The resource's ceiling priority.
    pub closed spec fn ceiling_prio(&self) -> u8 {
        self.ceiling
    }

    /// Whether the resource is currently held.
    pub closed spec fn is_held(&self) -> bool {
        self.held
    }

    /// The effective priority the holder will return to.
    pub closed spec fn saved_prio(&self) -> u8 {
        self.saved
    }

    pub fn new(ceiling: u8) -> (r: CeilingLock)
        ensures
            r.ceiling_prio() == ceiling,
            !r.is_held(),
    {
        CeilingLock { ceiling, held: false, saved: 0 }
    }

    /// Acquire the resource: the caller, a user of the resource running at
    /// effective priority `current` (by the ceiling's definition at most the
    /// ceiling), continues at the ceiling priority that is returned.
    pub fn acquire(&mut self, current: u8) -> (r: u8)
        requires
            !old(self).is_held(),
            current <= old(self).ceiling_prio(),
        ensures
            final(self).is_held(),
            final(self).ceiling_prio() == old(self).ceiling_prio(),
            final(self).saved_prio() == current,
            r == old(self).ceiling_prio(),
    {
        self.saved = current;
        self.held = true;
        self.ceiling
    }

    /// Release the resource: the caller returns to the effective priority it
    /// had when it acquired, which is returned.
    pub fn release(&mut self) -> (r: u8)
        requires
            old(self).is_held(),
        ensures
            !final(self).is_held(),
            final(self).ceiling_prio() == old(self).ceiling_prio(),
            r == old(self).saved_prio(),
    {
        self.held = false;
        self.saved
    }
}

/// The deadline of the `n`-th cycle of a drift-free periodic schedule:
/// each cycle's deadline is the previous deadline plus the period, never
/// "now plus the period".
pub open spec fn nth_deadline(start: int, period: int, n: nat) -> int
    decreases n,
{
    if n == 0 {
        start
    } else {
        nth_deadline(start, period, (n - 1) as nat) + period
    }
}

/// A drift-free periodic schedule accumulates no error: the `n`-th deadline
/// is exactly the start plus `n` periods, however many cycles have run.
pub proof fn lemma_no_drift(start: int, period: int, n: nat)
    ensures
        nth_deadline(start, period, n) == start + n * period,
    decreases n,
{
    if n == 0 {
        assert(n * period == 0) by (nonlinear_arith)
            requires
                n == 0,
        ;
    } else {
        lemma_no_drift(start, period, (n - 1) as nat);
        assert(n * period == (n - 1) * period + period) by (nonlinear_arith);
    }
}

/// Advance a deadline by one period.
pub fn next_deadline(prev: u64, period: u64) -> (r: u64)
    requires
        prev + period <= u64::MAX,
    ensures
        r == prev + period,
{
    prev + period
}

} // verus!

//! Bounded message channels connecting the control loop to the storage and
//! console collaborators.

use vstd::prelude::*;

verus! {

/// A capacity-1 "latest value" mailbox.
///
/// A send never blocks the producer: it drops the stale pending value and
/// leaves the newer one observable to the next receive (latest-wins). A
/// receive takes the pending value, leaving the mailbox empty.
pub struct LatestCell<T> {
    slot: Option<T>,
}

impl<T> LatestCell<T> {
    /// The value a receive would observe, if any.
    pub closed spec fn pending(&self) -> Option<T> {
        self.slot
    }

    pub fn new() -> (r: LatestCell<T>)
        ensures
            r.pending() is None,
    {
        LatestCell { slot: None }
    }

    /// Publish a value, replacing whatever was pending. This is total: the
    /// producer is never blocked, and the newer value wins.
    pub fn send(&mut self, value: T)
        ensures
            final(self).pending() == Some(value),
    {
        self.slot = Some(value);
    }

    /// Take the pending value, if any.
    pub fn recv(&mut self) -> (r: Option<T>)
        ensures
            r == old(self).pending(),
            final(self).pending() is None,
    {
        self.slot.take()
    }
}

/// A bounded first-in-first-out channel.
///
/// A send into a full channel is refused with the value handed back; the
/// scheduler layer decides whether to suspend and retry or drop the message
/// best-effort. A receive from an empty channel yields nothing (the
/// scheduler layer suspends the receiver).
pub struct BoundedChannel<T> {
    items: Vec<T>,
    limit: usize,
}

impl<T> BoundedChannel<T> {
    /// The queued messages, oldest first.
    pub closed spec fn contents(&self) -> Seq<T> {
        self.items@
    }

    /// The capacity the channel was created with.
    pub closed spec fn bound(&self) -> nat {
        self.limit as nat
    }

    pub fn new(capacity: usize) -> (r: BoundedChannel<T>)
        ensures
            r.contents() == Seq::<T>::empty(),
            r.bound() == capacity,
    {
        BoundedChannel { items: Vec::new(), limit: capacity }
    }

    /// Queue a message, or hand it back when the channel is full.
    pub fn try_send(&mut self, value: T) -> (r: Result<(), T>)
        ensures
            final(self).bound() == old(self).bound(),
            old(self).contents().len() < old(self).bound() ==> r is Ok && final(self).contents()
                == old(self).contents().push(value),
            old(self).contents().len() >= old(self).bound() ==> r == Err::<(), T>(value)
                && final(self).contents() == old(self).contents(),
    {
        if self.items.len() < self.limit {
            self.items.push(value);
            Ok(())
        } else {
            Err(value)
        }
    }

    /// Take the oldest queued message, if any.
    pub fn try_recv(&mut self) -> (r: Option<T>)
        ensures
            final(self).bound() == old(self).bound(),
            old(self).contents().len() == 0 ==> r is None
                && final(self).contents() == old(self).contents(),
            old(self).contents().len() > 0 ==> r == Some(old(self).contents()[0])
                && final(self).contents() == old(self).contents().skip(1),
    {
        if self.items.len() == 0 {
            None
        } else {
            let v = self.items.remove(0);
            proof {
                assert(self.items@ =~= old(self).contents().skip(1));
            }
            Some(v)
        }
    }
}

} // verus!

//! A scripted test double for the bus line.

use vstd::prelude::*;

use crate::onewire::error::PinFault;
use crate::onewire::BusLine;

verus! {

/// A simulated open-drain line driven from a fixed script.
///
/// Each `sample` on a released line pops the next scripted level; a line this
/// side drives low always samples low, and an exhausted script samples high
/// (the pull-up wins when no device answers). Delays advance a ghost clock
/// only.
pub struct SimLine {
    /// Levels to present to successive samples of the released line.
    levels: Vec<bool>,
    next: usize,
    driven: bool,
    clock: Ghost<nat>,
    low_clock: Ghost<nat>,
    seen: Ghost<Seq<bool>>,
}

impl SimLine {
    /// The script positions not yet consumed.
    pub closed spec fn remaining(&self) -> Seq<bool> {
        if self.next as int <= self.levels@.len() {
            self.levels@.skip(self.next as int)
        } else {
            Seq::empty()
        }
    }

    pub fn new(levels: Vec<bool>) -> (r: SimLine)
        ensures
            r.remaining() == levels@,
            !r.driven_low(),
    {
        let r = SimLine {
            levels,
            next: 0,
            driven: false,
            clock: Ghost(0),
            low_clock: Ghost(0),
            seen: Ghost(Seq::empty()),
        };
        proof {
            assert(r.remaining() =~= r.levels@);
        }
        r
    }
}

impl BusLine for SimLine {
    closed spec fn now_us(&self) -> nat {
        self.clock@
    }

    closed spec fn low_us(&self) -> nat {
        self.low_clock@
    }

    closed spec fn driven_low(&self) -> bool {
        self.driven
    }

    closed spec fn sampled(&self) -> Seq<bool> {
        self.seen@
    }

    fn set_low(&mut self) -> (r: Result<(), PinFault>)
        ensures
            final(self).remaining() == old(self).remaining(),
    {
        self.driven = true;
        Ok(())
    }

    fn set_high(&mut self) -> (r: Result<(), PinFault>)
        ensures
            final(self).remaining() == old(self).remaining(),
    {
        self.driven = false;
        Ok(())
    }

    fn sample(&mut self) -> (r: Result<bool, PinFault>)
        ensures
            old(self).driven_low() ==> final(self).remaining() == old(self).remaining(),
            !old(self).driven_low() ==> {
                &&& (old(self).remaining().len() > 0 ==> r == Ok::<bool, PinFault>(
                    old(self).remaining()[0],
                ) && final(self).remaining() == old(self).remaining().skip(1))
                &&& (old(self).remaining().len() == 0 ==> r == Ok::<bool, PinFault>(true)
                    && final(self).remaining() == old(self).remaining())
            },
    {
        if self.driven {
            proof {
                self.seen@ = self.seen@.push(false);
            }
            Ok(false)
        } else if self.next < self.levels.len() {
            let level = self.levels[self.next];
            let ghost prev = self.next as int;
            self.next += 1;
            proof {
                assert(self.levels@.skip(prev + 1) =~= self.levels@.skip(prev).skip(1));
                self.seen@ = self.seen@.push(level);
            }
            Ok(level)
        } else {
            proof {
                self.seen@ = self.seen@.push(true);
            }
            Ok(true)
        }
    }

    fn delay_us(&mut self, us: u32)
        ensures
            final(self).remaining() == old(self).remaining(),
    {
        proof {
            self.clock@ = (self.clock@ + us) as nat;
            if self.driven {
                self.low_clock@ = (self.low_clock@ + us) as nat;
            }
        }
    }
}

} // verus!

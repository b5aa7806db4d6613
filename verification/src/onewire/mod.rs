//! Single-wire, time-multiplexed bus: signaling layer and ROM command layer.
//!
//! The signaling layer drives a single open-drain line to produce reset,
//! bit-write, and bit-read time slots; it has no knowledge of commands or
//! devices. The ROM command layer sends select, skip, and search commands
//! atop it.

pub mod address;
pub mod commands;
pub mod crc;
pub mod error;
pub mod search;
pub mod sim;

pub use address::Address;
pub use error::{Error, PinFault};
pub use search::DeviceSearch;

use vstd::prelude::*;

use crate::onewire::address::addr_bytes;
use crate::onewire::crc::u8_bit;

verus! {

/// One logical operation carried out on the bus, as recorded in the driver's
/// ghost log. Read bits carry the level that was actually sampled.
pub enum BusOp {
    /// A reset slot; `present` records whether a presence pulse was seen.
    Reset { present: bool },
    /// One written bit slot.
    WriteBit { bit: bool },
    /// One read bit slot and the level it sampled.
    ReadBit { bit: bool },
}

/// The open-drain line and the time source behind the bus driver.
///
/// `now_us` is the line's microsecond clock; `driven_low` says whether this
/// side currently drives the line low. While the line is driven low, an
/// open-drain bus always samples low, whatever any device does; a released
/// line samples at the devices' (or the pull-up's) discretion, so `sample`
/// promises nothing about the level it returns then.
pub trait BusLine: Sized {
    spec fn now_us(&self) -> nat;

    /// Cumulative microseconds this side has spent driving the line low:
    /// the pulse-width clock behind the slot contracts.
    spec fn low_us(&self) -> nat;

    spec fn driven_low(&self) -> bool;

    /// The levels this side has sampled off the line so far, in order.
    spec fn sampled(&self) -> Seq<bool>;

    /// Pull the line low.
    fn set_low(&mut self) -> (r: Result<(), PinFault>)
        ensures
            final(self).now_us() == old(self).now_us(),
            final(self).low_us() == old(self).low_us(),
            final(self).sampled() == old(self).sampled(),
            r is Ok ==> final(self).driven_low(),
    ;

    /// Release the line to the pull-up resistor.
    fn set_high(&mut self) -> (r: Result<(), PinFault>)
        ensures
            final(self).now_us() == old(self).now_us(),
            final(self).low_us() == old(self).low_us(),
            final(self).sampled() == old(self).sampled(),
            r is Ok ==> !final(self).driven_low(),
    ;

    /// Sample the line level (true = high).
    fn sample(&mut self) -> (r: Result<bool, PinFault>)
        ensures
            final(self).now_us() == old(self).now_us(),
            final(self).low_us() == old(self).low_us(),
            final(self).driven_low() == old(self).driven_low(),
            r matches Ok(v) ==> final(self).sampled() == old(self).sampled().push(v),
            r is Err ==> final(self).sampled() == old(self).sampled(),
            old(self).driven_low() && r is Ok ==> r->Ok_0 == false,
    ;

    /// Wait for `us` microseconds without touching the line.
    fn delay_us(&mut self, us: u32)
        ensures
            final(self).now_us() == old(self).now_us() + us,
            final(self).low_us() == old(self).low_us() + (if old(self).driven_low() {
                us as nat
            } else {
                0
            }),
            final(self).sampled() == old(self).sampled(),
            final(self).driven_low() == old(self).driven_low(),
    ;
}

/// A run of `j` consecutive low samples.
pub open spec fn low_run(j: nat) -> Seq<bool> {
    Seq::new(j, |i: int| false)
}

/// Whether `a` is a prefix of `b`: a transfer aborted by a fault leaves a
/// prefix of the intended operations on the bus and nothing further.
pub open spec fn is_op_prefix(a: Seq<BusOp>, b: Seq<BusOp>) -> bool {
    a.len() <= b.len() && a == b.take(a.len() as int)
}

/// The read slots that sampled the given levels, in order.
pub open spec fn read_bits_ops(bs: Seq<bool>) -> Seq<BusOp> {
    Seq::new(bs.len(), |i: int| BusOp::ReadBit { bit: bs[i] })
}

/// A sequence is a prefix of itself extended.
proof fn lemma_prefix_extend(a: Seq<BusOp>, b: Seq<BusOp>)
    ensures
        is_op_prefix(a, a + b),
{
    assert((a + b).take(a.len() as int) =~= a);
}

/// Prefixing distributes over concatenation on the left.
proof fn lemma_prefix_concat_left(c: Seq<BusOp>, a: Seq<BusOp>, b: Seq<BusOp>)
    requires
        is_op_prefix(a, b),
    ensures
        is_op_prefix(c + a, c + b),
{
    assert((c + b).take((c.len() + a.len()) as int) =~= c + b.take(a.len() as int));
}

/// Prefixes chain.
proof fn lemma_prefix_trans(a: Seq<BusOp>, b: Seq<BusOp>, c: Seq<BusOp>)
    requires
        is_op_prefix(a, b),
        is_op_prefix(b, c),
    ensures
        is_op_prefix(a, c),
{
    assert(c.take(a.len() as int) =~= c.take(b.len() as int).take(a.len() as int));
}

/// A prefix of a log is a prefix of that log with more appended.
pub proof fn lemma_op_prefix_extends(a: Seq<BusOp>, b: Seq<BusOp>, c: Seq<BusOp>)
    requires
        is_op_prefix(a, b),
    ensures
        is_op_prefix(a, b + c),
{
    assert((b + c).take(a.len() as int) =~= b.take(a.len() as int));
}

/// The write slots of a byte-sequence prefix are a prefix of the whole.
proof fn lemma_bytes_write_ops_monotone(st: Seq<u8>, m: int)
    requires
        0 <= m <= st.len(),
    ensures
        is_op_prefix(bytes_write_ops(st.take(m)), bytes_write_ops(st)),
    decreases st.len(),
{
    if m == st.len() {
        assert(st.take(m) =~= st);
        assert(bytes_write_ops(st).take(bytes_write_ops(st).len() as int) =~= bytes_write_ops(st));
    } else {
        assert(st.drop_last().take(m) =~= st.take(m));
        lemma_bytes_write_ops_monotone(st.drop_last(), m);
        lemma_prefix_extend(bytes_write_ops(st.drop_last()), byte_write_ops(st.last()));
        lemma_prefix_trans(
            bytes_write_ops(st.take(m)),
            bytes_write_ops(st.drop_last()),
            bytes_write_ops(st),
        );
    }
}

/// The levels one byte's read slots sample, least-significant bit first.
pub open spec fn byte_bits(b: u8) -> Seq<bool> {
    Seq::new(8, |i: int| u8_bit(b, i as u8))
}

/// The levels a byte sequence's read slots sample, in order.
pub open spec fn bytes_bits(v: Seq<u8>) -> Seq<bool>
    decreases v.len(),
{
    if v.len() == 0 {
        Seq::empty()
    } else {
        bytes_bits(v.drop_last()) + byte_bits(v.last())
    }
}

/// Reading bytes is reading their bits: the byte-level read log flattens to
/// the bit-level one.
pub proof fn lemma_bytes_read_ops_bits(v: Seq<u8>)
    ensures
        bytes_read_ops(v) == read_bits_ops(bytes_bits(v)),
        bytes_bits(v).len() == 8 * v.len(),
    decreases v.len(),
{
    if v.len() > 0 {
        lemma_bytes_read_ops_bits(v.drop_last());
        assert(byte_read_ops(v.last()) =~= read_bits_ops(byte_bits(v.last())));
        assert(read_bits_ops(bytes_bits(v.drop_last())) + read_bits_ops(byte_bits(v.last()))
            =~= read_bits_ops(bytes_bits(v.drop_last()) + byte_bits(v.last())));
    } else {
        assert(bytes_read_ops(v) =~= read_bits_ops(bytes_bits(v)));
    }
}

/// The write slots that transmit one byte, least-significant bit first.
pub open spec fn byte_write_ops(b: u8) -> Seq<BusOp> {
    Seq::new(8, |i: int| BusOp::WriteBit { bit: u8_bit(b, i as u8) })
}

/// The read slots that received one byte, least-significant bit first.
pub open spec fn byte_read_ops(b: u8) -> Seq<BusOp> {
    Seq::new(8, |i: int| BusOp::ReadBit { bit: u8_bit(b, i as u8) })
}

/// The write slots that transmit a byte sequence in order.
pub open spec fn bytes_write_ops(s: Seq<u8>) -> Seq<BusOp>
    decreases s.len(),
{
    if s.len() == 0 {
        Seq::empty()
    } else {
        bytes_write_ops(s.drop_last()) + byte_write_ops(s.last())
    }
}

/// The read slots that received a byte sequence in order.
pub open spec fn bytes_read_ops(s: Seq<u8>) -> Seq<BusOp>
    decreases s.len(),
{
    if s.len() == 0 {
        Seq::empty()
    } else {
        bytes_read_ops(s.drop_last()) + byte_read_ops(s.last())
    }
}

/// The entry sequence for a broadcast function command: reset, ROM skip,
/// then the command byte.
pub open spec fn cmd_ops_skip(command: u8) -> Seq<BusOp> {
    seq![BusOp::Reset { present: true }] + byte_write_ops(commands::SKIP_ROM) + byte_write_ops(
        command,
    )
}

/// The entry sequence for a targeted function command: reset, ROM match with
/// the eight address bytes, then the command byte.
pub open spec fn cmd_ops_match(a: u64, command: u8) -> Seq<BusOp> {
    seq![BusOp::Reset { present: true }] + byte_write_ops(commands::MATCH_ROM) + bytes_write_ops(
        addr_bytes(a),
    ) + byte_write_ops(command)
}

/// The bus driver: owns the single line handle and keeps a ghost log of the
/// logical operations it has carried out.
pub struct OneWire<P: BusLine> {
    pin: P,
    ops: Ghost<Seq<BusOp>>,
}

impl<P: BusLine> OneWire<P> {
    /// The log of logical bus operations since construction.
    pub closed spec fn ops_log(&self) -> Seq<BusOp> {
        self.ops@
    }

    /// The line's microsecond clock.
    pub closed spec fn now_us(&self) -> nat {
        self.pin.now_us()
    }

    /// Cumulative microseconds this side has spent driving the line low.
    pub closed spec fn low_us(&self) -> nat {
        self.pin.low_us()
    }

    /// Whether this side currently drives the line low.
    pub closed spec fn driven_low(&self) -> bool {
        self.pin.driven_low()
    }

    /// The levels this side has sampled off the line so far, in order.
    pub closed spec fn sampled(&self) -> Seq<bool> {
        self.pin.sampled()
    }

    pub fn new(pin: P) -> (r: OneWire<P>)
        ensures
            r.ops_log() == Seq::<BusOp>::empty(),
            r.now_us() == pin.now_us(),
            r.driven_low() == pin.driven_low(),
    {
        OneWire { pin, ops: Ghost(Seq::empty()) }
    }

    /// Perform a reset initialization sequence: poll for a released line
    /// (up to ~250 us in 2 us steps), pull low for 480 us, release, sample
    /// the presence pulse after 70 us, and complete the ~960 us slot.
    ///
    /// A line that never reads high fails with `BusNotHigh`; an absent
    /// presence pulse fails with `UnexpectedResponse`.
    pub fn reset(&mut self) -> (r: Result<(), Error<PinFault>>)
        ensures
            final(self).now_us() >= old(self).now_us(),
            r is Ok ==> final(self).ops_log() == old(self).ops_log().push(
                BusOp::Reset { present: true },
            ) && final(self).low_us() == old(self).low_us() + 480 && !final(self).driven_low()
                && exists|j: nat|
                j <= 125 && final(self).sampled() == old(self).sampled() + #[trigger] low_run(
                    j,
                ).push(true).push(false) && final(self).now_us() == old(self).now_us() + 2 * j
                    + 960,
            r matches Err(e) ==> {
                &&& (e is UnexpectedResponse ==> final(self).ops_log() == old(self).ops_log().push(
                    BusOp::Reset { present: false },
                ) && final(self).low_us() == old(self).low_us() + 480 && exists|j: nat|
                    j <= 125 && final(self).sampled() == old(self).sampled() + #[trigger] low_run(
                        j,
                    ).push(true).push(true) && final(self).now_us() == old(self).now_us() + 2 * j
                        + 960)
                &&& (e is BusNotHigh || e is Pin ==> final(self).ops_log() == old(self).ops_log())
                &&& (e is BusNotHigh ==> final(self).now_us() == old(self).now_us() + 250
                    && final(self).sampled() == old(self).sampled() + low_run(126))
                &&& (e is UnexpectedResponse || e is BusNotHigh || e is Pin)
            },
            r is Err ==> final(self).now_us() <= old(self).now_us() + 1210,
    {
        // Wait for the bus to be pulled high by the pull-up resistor.
        let mut retries: u32 = 125;
        loop
            invariant_except_break
                self.sampled() == old(self).sampled() + low_run((125 - retries) as nat),
            invariant
                retries <= 125,
                self.ops_log() == old(self).ops_log(),
                self.now_us() == old(self).now_us() + 2 * (125 - retries),
                self.driven_low() == old(self).driven_low(),
                !old(self).driven_low() ==> self.low_us() == old(self).low_us(),
            ensures
                self.ops_log() == old(self).ops_log(),
                !self.driven_low(),
                self.low_us() == old(self).low_us(),
                exists|j: nat|
                    j <= 125 && self.sampled() == old(self).sampled() + #[trigger] low_run(j).push(
                        true,
                    ) && self.now_us() == old(self).now_us() + 2 * j,
            decreases retries,
        {
            let ghost polls = (125 - retries) as nat;
            match self.pin.sample() {
                Err(f) => {
                    return Err(Error::Pin(f));
                },
                Ok(true) => {
                    proof {
                        assert(self.sampled() =~= old(self).sampled() + low_run(polls).push(true));
                    }
                    break;
                },
                Ok(false) => {
                    proof {
                        assert(old(self).sampled() + low_run(polls).push(false) =~= old(
                            self,
                        ).sampled() + low_run((polls + 1) as nat));
                    }
                    if retries == 0 {
                        proof {
                            assert(old(self).sampled() + low_run(126) =~= self.sampled());
                        }
                        return Err(Error::BusNotHigh);
                    }
                    retries -= 1;
                    self.pin.delay_us(2);
                },
            }
        }

        // Pull the bus low for 480 us.
        if let Err(f) = self.pin.set_low() {
            return Err(Error::Pin(f));
        }
        self.pin.delay_us(480);

        // Release the bus and give devices 70 us to answer.
        if let Err(f) = self.pin.set_high() {
            return Err(Error::Pin(f));
        }
        self.pin.delay_us(70);

        // A low sample here is the presence pulse of at least one device.
        let ghost after_poll = self.sampled();
        let high = match self.pin.sample() {
            Err(f) => {
                return Err(Error::Pin(f));
            },
            Ok(h) => h,
        };

        // Complete the reset slot.
        self.pin.delay_us(410);

        proof {
            let j = choose|j: nat|
                j <= 125 && after_poll == old(self).sampled() + #[trigger] low_run(j).push(true)
                    && self.now_us() == old(self).now_us() + 2 * j + 960;
            assert(self.sampled() =~= old(self).sampled() + low_run(j).push(true).push(high));
        }
        if high {
            proof {
                self.ops@ = self.ops@.push(BusOp::Reset { present: false });
            }
            Err(Error::UnexpectedResponse)
        } else {
            proof {
                self.ops@ = self.ops@.push(BusOp::Reset { present: true });
            }
            Ok(())
        }
    }

    /// Write a single bit: one time slot of near-constant duration whatever
    /// the value, preserving bus timing for any listener. A one is a 10 us
    /// low pulse with a 55 us idle tail, a zero a 65 us low pulse with a
    /// 5 us tail.
    pub fn write_bit(&mut self, bit: bool) -> (r: Result<(), Error<PinFault>>)
        ensures
            final(self).now_us() >= old(self).now_us(),
            final(self).now_us() <= old(self).now_us() + 70,
            r is Err ==> final(self).ops_log() == old(self).ops_log(),
            r is Ok ==> final(self).ops_log() == old(self).ops_log().push(
                BusOp::WriteBit { bit },
            ) && final(self).now_us() == old(self).now_us() + (if bit {
                65nat
            } else {
                70nat
            }) && final(self).low_us() == old(self).low_us() + (if bit {
                10nat
            } else {
                65nat
            }) && !final(self).driven_low(),
            r matches Err(e) ==> e is Pin,
    {
        let low_us: u32 = if bit {
            10
        } else {
            65
        };
        let idle_us: u32 = if bit {
            55
        } else {
            5
        };

        if let Err(f) = self.pin.set_low() {
            return Err(Error::Pin(f));
        }
        self.pin.delay_us(low_us);
        if let Err(f) = self.pin.set_high() {
            return Err(Error::Pin(f));
        }
        self.pin.delay_us(idle_us);

        proof {
            self.ops@ = self.ops@.push(BusOp::WriteBit { bit });
        }
        Ok(())
    }

    /// Read a single bit: pull low for 1 us, release, give a responding
    /// device 1 us to assert the line, sample, and idle out the 55 us slot.
    ///
    /// The sampling window is only about a microsecond wide, so on real
    /// hardware the pull-release-sample steps must run without interruption
    /// (one uninterruptible critical section).
    pub fn read_bit(&mut self) -> (r: Result<bool, Error<PinFault>>)
        ensures
            final(self).now_us() >= old(self).now_us(),
            final(self).now_us() <= old(self).now_us() + 55,
            r is Err ==> final(self).ops_log() == old(self).ops_log(),
            r matches Ok(b) ==> final(self).ops_log() == old(self).ops_log().push(
                BusOp::ReadBit { bit: b },
            ) && final(self).now_us() == old(self).now_us() + 55 && final(self).low_us() == old(
                self,
            ).low_us() + 1 && !final(self).driven_low(),
            r matches Err(e) ==> e is Pin,
    {
        if let Err(f) = self.pin.set_low() {
            return Err(Error::Pin(f));
        }
        self.pin.delay_us(1);
        if let Err(f) = self.pin.set_high() {
            return Err(Error::Pin(f));
        }
        self.pin.delay_us(1);
        let high = match self.pin.sample() {
            Err(f) => {
                return Err(Error::Pin(f));
            },
            Ok(h) => h,
        };
        self.pin.delay_us(53);

        proof {
            self.ops@ = self.ops@.push(BusOp::ReadBit { bit: high });
        }
        Ok(high)
    }

    /// Write a single byte, least-significant bit first.
    pub fn write_byte(&mut self, byte: u8) -> (r: Result<(), Error<PinFault>>)
        ensures
            final(self).now_us() >= old(self).now_us(),
            final(self).now_us() <= old(self).now_us() + 560,
            r is Ok ==> final(self).ops_log() == old(self).ops_log() + byte_write_ops(byte)
                && old(self).now_us() + 520 <= final(self).now_us() <= old(self).now_us() + 560
                && !final(self).driven_low(),
            r is Err ==> exists|k: int|
                0 <= k <= 8 && final(self).ops_log() == old(self).ops_log()
                    + #[trigger] byte_write_ops(byte).take(k),
            r matches Err(e) ==> e is Pin,
    {
        let mut i: usize = 0;
        proof {
            assert(old(self).ops_log() + byte_write_ops(byte).take(0) =~= old(self).ops_log());
        }
        while i < 8
            invariant
                i <= 8,
                self.ops_log() == old(self).ops_log() + byte_write_ops(byte).take(i as int),
                old(self).now_us() + 65 * i <= self.now_us() <= old(self).now_us() + 70 * i,
                i > 0 ==> !self.driven_low(),
            decreases 8 - i,
        {
            let bit = (byte >> (i as u8)) & 1 == 1;
            match self.write_bit(bit) {
                Ok(()) => (),
                Err(e) => {
                    proof {
                        assert(self.ops_log() == old(self).ops_log() + byte_write_ops(byte).take(
                            i as int,
                        ));
                    }
                    return Err(e);
                },
            }
            proof {
                assert(byte_write_ops(byte).take(i + 1) =~= byte_write_ops(byte).take(
                    i as int,
                ).push(BusOp::WriteBit { bit: u8_bit(byte, i as u8) }));
            }
            i += 1;
        }
        proof {
            assert(byte_write_ops(byte).take(8) =~= byte_write_ops(byte));
        }
        Ok(())
    }

    /// Write multiple bytes in order.
    pub fn write_bytes(&mut self, bytes: &[u8]) -> (r: Result<(), Error<PinFault>>)
        ensures
            final(self).now_us() >= old(self).now_us(),
            final(self).now_us() <= old(self).now_us() + 560 * bytes@.len(),
            r is Ok ==> final(self).ops_log() == old(self).ops_log() + bytes_write_ops(bytes@)
                && old(self).now_us() + 520 * bytes@.len() <= final(self).now_us()
                && (bytes@.len() > 0 ==> !final(self).driven_low())
                && (bytes@.len() == 0 ==> final(self).driven_low() == old(self).driven_low()),
            r is Err ==> is_op_prefix(
                final(self).ops_log(),
                old(self).ops_log() + bytes_write_ops(bytes@),
            ),
            r matches Err(e) ==> e is Pin,
    {
        let mut k: usize = 0;
        proof {
            assert(old(self).ops_log() + bytes_write_ops(bytes@.take(0)) =~= old(self).ops_log());
        }
        while k < bytes.len()
            invariant
                k <= bytes@.len(),
                self.ops_log() == old(self).ops_log() + bytes_write_ops(bytes@.take(k as int)),
                old(self).now_us() + 520 * k <= self.now_us() <= old(self).now_us() + 560 * k,
                k == 0 ==> self.driven_low() == old(self).driven_low(),
                k > 0 ==> !self.driven_low(),
            decreases bytes@.len() - k,
        {
            let ghost base_k = self.ops_log();
            match self.write_byte(bytes[k]) {
                Ok(()) => (),
                Err(e) => {
                    proof {
                        let kp = choose|kp: int|
                            0 <= kp <= 8 && self.ops_log() == base_k + #[trigger] byte_write_ops(
                                bytes@[k as int],
                            ).take(kp);
                        let partial = byte_write_ops(bytes@[k as int]).take(kp);
                        let whole = byte_write_ops(bytes@[k as int]);
                        assert(is_op_prefix(partial, whole)) by {
                            assert(whole.take(partial.len() as int) =~= partial);
                        };
                        lemma_prefix_concat_left(base_k, partial, whole);
                        lemma_bytes_write_ops_take(bytes@, k as int);
                        assert(base_k + whole =~= old(self).ops_log() + bytes_write_ops(
                            bytes@.take(k + 1),
                        ));
                        assert(bytes@.take(k + 1) =~= bytes@.take(k + 1));
                        lemma_bytes_write_ops_monotone(bytes@, k + 1);
                        lemma_prefix_concat_left(
                            old(self).ops_log(),
                            bytes_write_ops(bytes@.take(k + 1)),
                            bytes_write_ops(bytes@),
                        );
                        lemma_prefix_trans(
                            self.ops_log(),
                            base_k + whole,
                            old(self).ops_log() + bytes_write_ops(bytes@),
                        );
                    }
                    return Err(e);
                },
            }
            proof {
                lemma_bytes_write_ops_take(bytes@, k as int);
            }
            k += 1;
        }
        proof {
            assert(bytes@.take(bytes@.len() as int) =~= bytes@);
        }
        Ok(())
    }

    /// Read a single byte, least-significant bit first.
    pub fn read_byte(&mut self) -> (r: Result<u8, Error<PinFault>>)
        ensures
            final(self).now_us() >= old(self).now_us(),
            final(self).now_us() <= old(self).now_us() + 440,
            r matches Ok(b) ==> final(self).ops_log() == old(self).ops_log() + byte_read_ops(b)
                && final(self).now_us() == old(self).now_us() + 440 && !final(self).driven_low(),
            r is Err ==> exists|bs: Seq<bool>|
                bs.len() < 8 && final(self).ops_log() == old(self).ops_log()
                    + #[trigger] read_bits_ops(bs),
            r matches Err(e) ==> e is Pin,
    {
        let mut ret: u8 = 0;
        let mut i: usize = 0;
        proof {
            assert forall|j: u8| j < 8 implies !u8_bit(0u8, j) by {
                assert((0u8 >> j) & 1 == 0) by (bit_vector);
            }
            assert(old(self).ops_log() + Seq::new(
                0,
                |j: int| BusOp::ReadBit { bit: u8_bit(0u8, j as u8) },
            ) =~= old(self).ops_log());
        }
        while i < 8
            invariant
                i <= 8,
                self.ops_log() == old(self).ops_log() + Seq::new(
                    i as nat,
                    |j: int| BusOp::ReadBit { bit: u8_bit(ret, j as u8) },
                ),
                self.now_us() == old(self).now_us() + 55 * i,
                self.now_us() <= old(self).now_us() + 440,
                i > 0 ==> !self.driven_low(),
                forall|j: u8| i <= j < 8 ==> !u8_bit(ret, j),
            decreases 8 - i,
        {
            let prev = ret;
            let bit = match self.read_bit() {
                Ok(b) => b,
                Err(e) => {
                    proof {
                        let bs = Seq::new(i as nat, |j: int| u8_bit(ret, j as u8));
                        assert(read_bits_ops(bs) =~= Seq::new(
                            i as nat,
                            |j: int| BusOp::ReadBit { bit: u8_bit(ret, j as u8) },
                        ));
                    }
                    return Err(e);
                },
            };
            if bit {
                ret = ret | (1u8 << (i as u8));
            }
            proof {
                let iu = i as u8;
                assert(i <= iu < 8);
                assert(!u8_bit(prev, iu));
                if bit {
                    assert(ret == prev | (1u8 << iu));
                    assert forall|j: u8| j < 8 implies #[trigger] u8_bit(ret, j) == (j == iu
                        || u8_bit(prev, j)) by {
                        assert(((prev | (1u8 << iu)) >> j) & 1 == 1 <==> (j == iu || ((prev >> j)
                            & 1 == 1))) by (bit_vector)
                            requires
                                iu < 8,
                                j < 8,
                        ;
                        assert(u8_bit(prev | (1u8 << iu), j) == (j == iu || u8_bit(prev, j)));
                    }
                }
                assert(u8_bit(ret, iu) == bit);
                assert forall|j: int| 0 <= j < i implies #[trigger] u8_bit(ret, j as u8)
                    == u8_bit(prev, j as u8) by {
                    assert(j as u8 != iu);
                }
                assert(Seq::new(
                    (i + 1) as nat,
                    |j: int| BusOp::ReadBit { bit: u8_bit(ret, j as u8) },
                ) =~= Seq::new(i as nat, |j: int| BusOp::ReadBit { bit: u8_bit(prev, j as u8) },
                ).push(BusOp::ReadBit { bit }));
            }
            i += 1;
        }
        proof {
            assert(byte_read_ops(ret) =~= Seq::new(
                8nat,
                |j: int| BusOp::ReadBit { bit: u8_bit(ret, j as u8) },
            ));
        }
        Ok(ret)
    }

    /// Read `n` bytes in order.
    pub fn read_bytes(&mut self, n: usize) -> (r: Result<Vec<u8>, Error<PinFault>>)
        ensures
            final(self).now_us() >= old(self).now_us(),
            final(self).now_us() <= old(self).now_us() + 440 * n,
            r matches Ok(v) ==> v@.len() == n && final(self).ops_log() == old(self).ops_log()
                + bytes_read_ops(v@) && final(self).now_us() == old(self).now_us() + 440 * n,
            r is Err ==> exists|bs: Seq<bool>|
                bs.len() < 8 * n && final(self).ops_log() == old(self).ops_log()
                    + #[trigger] read_bits_ops(bs),
            r matches Err(e) ==> e is Pin,
    {
        let mut out: Vec<u8> = Vec::new();
        let mut k: usize = 0;
        while k < n
            invariant
                k <= n,
                out@.len() == k,
                self.ops_log() == old(self).ops_log() + bytes_read_ops(out@),
                self.now_us() == old(self).now_us() + 440 * k,
                self.now_us() <= old(self).now_us() + 440 * n,
            decreases n - k,
        {
            let ghost prev = out@;
            let b = match self.read_byte() {
                Ok(b) => b,
                Err(e) => {
                    proof {
                        let bsp = choose|bsp: Seq<bool>|
                            bsp.len() < 8 && self.ops_log() == (old(self).ops_log()
                                + bytes_read_ops(prev)) + #[trigger] read_bits_ops(bsp);
                        lemma_bytes_read_ops_bits(prev);
                        let bs = bytes_bits(prev) + bsp;
                        assert(read_bits_ops(bytes_bits(prev)) + read_bits_ops(bsp)
                            =~= read_bits_ops(bs));
                        assert(self.ops_log() =~= old(self).ops_log() + read_bits_ops(bs));
                    }
                    return Err(e);
                },
            };
            out.push(b);
            proof {
                assert(out@.drop_last() =~= prev);
            }
            k += 1;
        }
        Ok(out)
    }

    /// Address a single device: ROM match command followed by the eight
    /// address bytes.
    pub fn select_address(&mut self, device: &Address) -> (r: Result<(), Error<PinFault>>)
        ensures
            final(self).now_us() >= old(self).now_us(),
            final(self).now_us() <= old(self).now_us() + 5040,
            r is Ok ==> final(self).ops_log() == old(self).ops_log() + byte_write_ops(
                commands::MATCH_ROM,
            ) + bytes_write_ops(addr_bytes(device.0)) && old(self).now_us() + 4680
                <= final(self).now_us() <= old(self).now_us() + 5040
                && !final(self).driven_low(),
            r is Err ==> is_op_prefix(
                final(self).ops_log(),
                old(self).ops_log() + byte_write_ops(commands::MATCH_ROM) + bytes_write_ops(
                    addr_bytes(device.0),
                ),
            ),
            r matches Err(e) ==> e is Pin,
    {
        let ghost whole = byte_write_ops(commands::MATCH_ROM) + bytes_write_ops(
            addr_bytes(device.0),
        );
        match self.write_byte(commands::MATCH_ROM) {
            Ok(()) => (),
            Err(e) => {
                proof {
                    let kp = choose|kp: int|
                        0 <= kp <= 8 && self.ops_log() == old(self).ops_log()
                            + #[trigger] byte_write_ops(commands::MATCH_ROM).take(kp);
                    let partial = byte_write_ops(commands::MATCH_ROM).take(kp);
                    assert(is_op_prefix(partial, whole)) by {
                        assert(whole.take(partial.len() as int) =~= partial);
                    };
                    lemma_prefix_concat_left(old(self).ops_log(), partial, whole);
                    assert(old(self).ops_log() + whole =~= old(self).ops_log() + byte_write_ops(
                        commands::MATCH_ROM,
                    ) + bytes_write_ops(addr_bytes(device.0)));
                }
                return Err(e);
            },
        }
        let mut bytes: [u8; 8] = [0; 8];
        let mut k: usize = 0;
        while k < 8
            invariant
                k <= 8,
                forall|j: int| 0 <= j < k ==> bytes@[j] == addr_bytes(device.0)[j],
            decreases 8 - k,
        {
            bytes[k] = device.byte(k);
            k += 1;
        }
        proof {
            assert(bytes@ =~= addr_bytes(device.0));
        }
        let ghost mid = self.ops_log();
        match self.write_bytes(&bytes) {
            Ok(()) => (),
            Err(e) => {
                proof {
                    assert(mid + bytes_write_ops(bytes@) =~= old(self).ops_log() + byte_write_ops(
                        commands::MATCH_ROM,
                    ) + bytes_write_ops(addr_bytes(device.0)));
                }
                return Err(e);
            },
        }
        Ok(())
    }

    /// Broadcast: ROM skip command.
    pub fn skip_address(&mut self) -> (r: Result<(), Error<PinFault>>)
        ensures
            final(self).now_us() >= old(self).now_us(),
            final(self).now_us() <= old(self).now_us() + 560,
            r is Ok ==> final(self).ops_log() == old(self).ops_log() + byte_write_ops(
                commands::SKIP_ROM,
            ) && old(self).now_us() + 520 <= final(self).now_us() <= old(self).now_us() + 560
                && !final(self).driven_low(),
            r is Err ==> is_op_prefix(
                final(self).ops_log(),
                old(self).ops_log() + byte_write_ops(commands::SKIP_ROM),
            ),
            r matches Err(e) ==> e is Pin,
    {
        let r = self.write_byte(commands::SKIP_ROM);
        proof {
            if r is Err {
                let kp = choose|kp: int|
                    0 <= kp <= 8 && self.ops_log() == old(self).ops_log()
                        + #[trigger] byte_write_ops(commands::SKIP_ROM).take(kp);
                let partial = byte_write_ops(commands::SKIP_ROM).take(kp);
                assert(is_op_prefix(partial, byte_write_ops(commands::SKIP_ROM))) by {
                    assert(byte_write_ops(commands::SKIP_ROM).take(partial.len() as int)
                        =~= partial);
                };
                lemma_prefix_concat_left(
                    old(self).ops_log(),
                    partial,
                    byte_write_ops(commands::SKIP_ROM),
                );
            }
        }
        r
    }

    /// Send a command to the bus: reset, select the given address (or skip if
    /// none), then write the function command byte. This is the entry
    /// sequence for every sensor operation.
    pub fn send_command(&mut self, address: Option<&Address>, command: u8) -> (r: Result<
        (),
        Error<PinFault>,
    >)
        ensures
            final(self).now_us() >= old(self).now_us(),
            final(self).now_us() <= old(self).now_us() + 6810,
            r is Ok && address is None ==> final(self).ops_log() == old(self).ops_log()
                + cmd_ops_skip(command),
            r is Ok && address is Some ==> final(self).ops_log() == old(self).ops_log()
                + cmd_ops_match(address->Some_0.0, command),
            r is Ok ==> !final(self).driven_low(),
            r is Err ==> ({
                ||| (address is None && is_op_prefix(
                    final(self).ops_log(),
                    old(self).ops_log() + cmd_ops_skip(command),
                ))
                ||| (address is Some && is_op_prefix(
                    final(self).ops_log(),
                    old(self).ops_log() + cmd_ops_match(address->Some_0.0, command),
                ))
                ||| final(self).ops_log() == old(self).ops_log().push(
                    BusOp::Reset { present: false },
                )
            }),
            r matches Err(e) ==> (e is Pin || e is BusNotHigh || e is UnexpectedResponse),
    {
        let ghost base = self.ops_log();
        let ghost intended: Seq<BusOp> = match address {
            Some(device) => cmd_ops_match(device.0, command),
            None => cmd_ops_skip(command),
        };
        match self.reset() {
            Ok(()) => (),
            Err(e) => {
                proof {
                    if self.ops_log() == base {
                        assert(is_op_prefix(base, base + intended)) by {
                            lemma_prefix_extend(base, intended);
                        };
                    }
                }
                return Err(e);
            },
        }
        let ghost after_reset = self.ops_log();
        proof {
            assert(after_reset =~= base + seq![BusOp::Reset { present: true }]);
        }
        match address {
            Some(device) => {
                let ghost tail = byte_write_ops(commands::MATCH_ROM) + bytes_write_ops(
                    addr_bytes(device.0),
                );
                match self.select_address(device) {
                    Ok(()) => (),
                    Err(e) => {
                        proof {
                            assert(after_reset + byte_write_ops(commands::MATCH_ROM)
                                + bytes_write_ops(addr_bytes(device.0)) =~= after_reset + tail);
                            lemma_prefix_extend(after_reset + tail, byte_write_ops(command));
                            lemma_prefix_trans(
                                self.ops_log(),
                                after_reset + tail,
                                (after_reset + tail) + byte_write_ops(command),
                            );
                            assert((after_reset + tail) + byte_write_ops(command) =~= base
                                + cmd_ops_match(device.0, command));
                        }
                        return Err(e);
                    },
                }
                let ghost mid = self.ops_log();
                match self.write_byte(command) {
                    Ok(()) => (),
                    Err(e) => {
                        proof {
                            let kp = choose|kp: int|
                                0 <= kp <= 8 && self.ops_log() == mid + #[trigger] byte_write_ops(
                                    command,
                                ).take(kp);
                            let partial = byte_write_ops(command).take(kp);
                            assert(is_op_prefix(partial, byte_write_ops(command))) by {
                                assert(byte_write_ops(command).take(partial.len() as int)
                                    =~= partial);
                            };
                            lemma_prefix_concat_left(mid, partial, byte_write_ops(command));
                            assert(mid + byte_write_ops(command) =~= base + cmd_ops_match(
                                device.0,
                                command,
                            ));
                        }
                        return Err(e);
                    },
                }
                proof {
                    assert(self.ops_log() =~= base + cmd_ops_match(device.0, command));
                }
            },
            None => {
                let ghost tail = byte_write_ops(commands::SKIP_ROM);
                match self.skip_address() {
                    Ok(()) => (),
                    Err(e) => {
                        proof {
                            lemma_prefix_extend(after_reset + tail, byte_write_ops(command));
                            lemma_prefix_trans(
                                self.ops_log(),
                                after_reset + tail,
                                (after_reset + tail) + byte_write_ops(command),
                            );
                            assert((after_reset + tail) + byte_write_ops(command) =~= base
                                + cmd_ops_skip(command));
                        }
                        return Err(e);
                    },
                }
                let ghost mid = self.ops_log();
                match self.write_byte(command) {
                    Ok(()) => (),
                    Err(e) => {
                        proof {
                            let kp = choose|kp: int|
                                0 <= kp <= 8 && self.ops_log() == mid + #[trigger] byte_write_ops(
                                    command,
                                ).take(kp);
                            let partial = byte_write_ops(command).take(kp);
                            assert(is_op_prefix(partial, byte_write_ops(command))) by {
                                assert(byte_write_ops(command).take(partial.len() as int)
                                    =~= partial);
                            };
                            lemma_prefix_concat_left(mid, partial, byte_write_ops(command));
                            assert(mid + byte_write_ops(command) =~= base + cmd_ops_skip(command));
                        }
                        return Err(e);
                    },
                }
                proof {
                    assert(self.ops_log() =~= base + cmd_ops_skip(command));
                }
            },
        }
        Ok(())
    }

    /// Wait without touching the line: the scheduler-level suspension used
    /// between starting a conversion and reading its result.
    pub fn wait_us(&mut self, us: u32)
        ensures
            final(self).ops_log() == old(self).ops_log(),
            final(self).now_us() == old(self).now_us() + us,
            final(self).driven_low() == old(self).driven_low(),
    {
        self.pin.delay_us(us);
    }

    /// Start an enumeration of the devices on the bus: a fresh search cursor.
    pub fn devices(&self) -> (r: DeviceSearch)
        ensures
            r == DeviceSearch::start(),
    {
        DeviceSearch::new()
    }
}

/// Extending a byte sequence extends its write slots on the right.
proof fn lemma_bytes_write_ops_take(s: Seq<u8>, k: int)
    requires
        0 <= k < s.len(),
    ensures
        bytes_write_ops(s.take(k + 1)) == bytes_write_ops(s.take(k)) + byte_write_ops(s[k]),
{
    assert(s.take(k + 1).drop_last() =~= s.take(k));
    assert(s.take(k + 1).last() == s[k]);
}

} // verus!

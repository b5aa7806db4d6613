//! Iterative binary-tree device discovery (the alternating-pair search).
//!
//! A search pass walks 64 bit positions; at each one it reads two
//! complementary probe bits from all still-participating devices, chooses a
//! direction, writes it back (forcing non-matching devices off the bus for
//! this pass), and moves on. The cursor carried between passes makes the
//! next pass discover the next address in ascending binary order; once
//! enumeration is exhausted the cursor resets so a fresh pass can restart it.

use vstd::prelude::*;

use crate::onewire::address::{addr_valid, Address};
use crate::onewire::commands::SEARCH_NORMAL;
use crate::onewire::error::{Error, PinFault};
use crate::onewire::{byte_write_ops, BusLine, BusOp, OneWire};

verus! {

/// Bit `k` of a 64-bit candidate address.
pub open spec fn u64_bit(a: u64, k: u64) -> bool {
    (a >> k) & 1 == 1
}

/// Explicit carry-over state for device enumeration across repeated passes.
///
/// Resetting it restarts enumeration from the beginning. Once
/// `last_discrepancy == 0 && last_device_flag`, no further devices exist.
#[derive(Debug, Copy, Clone, PartialEq, Eq, Structural)]
pub struct DeviceSearch {
    /// The 64-bit candidate address under construction.
    pub rom_no: u64,
    /// Bit index (1-based) of the most recent unresolved 0/1 branch.
    pub last_discrepancy: u8,
    /// The most recent branch index that fell within the family-code byte.
    pub last_family_discrepancy: u8,
    /// True once enumeration is exhausted.
    pub last_device_flag: bool,
}

/// The direction the search takes at position `k` (0-based), given the
/// cursor at the start of the pass and the probe pair read there: if the
/// probes differ, every participating device agrees on that bit; if they are
/// equal (both low), replay the previous pass below the last discrepancy,
/// take 1 at it, and 0 above it.
pub open spec fn probe_dir(cur: DeviceSearch, probes: Seq<(bool, bool)>, k: int) -> bool {
    let id = probes[k].0;
    let cmp = probes[k].1;
    if id != cmp {
        id
    } else if k + 1 < cur.last_discrepancy as int {
        u64_bit(cur.rom_no, k as u64)
    } else {
        k + 1 == cur.last_discrepancy as int
    }
}

/// The most recent position (1-based) among the first `n` where a zero was
/// chosen at a branch point, or 0 if there is none: the pass's "last zero".
pub open spec fn pass_last_zero(cur: DeviceSearch, probes: Seq<(bool, bool)>, n: int) -> int
    decreases n,
{
    if n <= 0 {
        0
    } else if probes[n - 1].0 == probes[n - 1].1 && !probe_dir(cur, probes, n - 1) {
        n
    } else {
        pass_last_zero(cur, probes, n - 1)
    }
}

/// The carried family discrepancy after the first `n` positions: the most
/// recent branch-point zero that fell within the family-code byte.
pub open spec fn pass_family_disc(cur: DeviceSearch, probes: Seq<(bool, bool)>, n: int) -> int
    decreases n,
{
    if n <= 0 {
        cur.last_family_discrepancy as int
    } else if probes[n - 1].0 == probes[n - 1].1 && !probe_dir(cur, probes, n - 1) && n < 9 {
        n
    } else {
        pass_family_disc(cur, probes, n - 1)
    }
}

/// No probe pair among the first `n` came back with both bits high (which
/// would mean no device answered).
pub open spec fn no_both_high(probes: Seq<(bool, bool)>, n: int) -> bool {
    forall|j: int| 0 <= j < n ==> !((#[trigger] probes[j]).0 && probes[j].1)
}

/// The bus operations of the first `n` search positions: two probe reads and
/// one direction write each.
pub open spec fn search_ops(cur: DeviceSearch, probes: Seq<(bool, bool)>, n: int) -> Seq<BusOp>
    decreases n,
{
    if n <= 0 {
        Seq::empty()
    } else {
        search_ops(cur, probes, n - 1) + seq![
            BusOp::ReadBit { bit: probes[n - 1].0 },
            BusOp::ReadBit { bit: probes[n - 1].1 },
            BusOp::WriteBit { bit: probe_dir(cur, probes, n - 1) },
        ]
    }
}

/// Everything one search pass puts on the bus: a reset, the search ROM
/// command, and the first `n` positions.
pub open spec fn pass_prefix_ops(cur: DeviceSearch, probes: Seq<(bool, bool)>, n: int) -> Seq<
    BusOp,
> {
    seq![BusOp::Reset { present: true }] + byte_write_ops(SEARCH_NORMAL) + search_ops(
        cur,
        probes,
        n,
    )
}

/// A completed pass: 64 positions were walked against the probe pairs
/// `probes`, the new candidate address collects the chosen directions, and
/// the cursor records the pass's last zero (exhaustion when it is 0).
pub open spec fn completed_pass(
    cur: DeviceSearch,
    new: DeviceSearch,
    probes: Seq<(bool, bool)>,
) -> bool {
    &&& probes.len() == 64
    &&& no_both_high(probes, 64)
    &&& (forall|k: u64|
        k < 64 ==> #[trigger] u64_bit(new.rom_no, k) == probe_dir(cur, probes, k as int))
    &&& new.last_discrepancy as int == pass_last_zero(cur, probes, 64)
    &&& new.last_family_discrepancy as int == pass_family_disc(cur, probes, 64)
    &&& new.last_device_flag == (pass_last_zero(cur, probes, 64) == 0)
}

/// An aborted pass: after some prefix of answered positions, both probe
/// slots of the next position read high — no device was left participating —
/// and the pass stopped there without writing a direction back.
pub open spec fn aborted_pass(cur: DeviceSearch, probes: Seq<(bool, bool)>) -> bool {
    probes.len() < 64 && no_both_high(probes, probes.len() as int)
}

/// The bus operations of an aborted pass: the answered prefix, then the two
/// probe reads that both came back high.
pub open spec fn aborted_pass_ops(cur: DeviceSearch, probes: Seq<(bool, bool)>) -> Seq<BusOp> {
    pass_prefix_ops(cur, probes, probes.len() as int) + seq![
        BusOp::ReadBit { bit: true },
        BusOp::ReadBit { bit: true },
    ]
}

/// A completed pass whose candidate carries family code zero: every
/// direction chosen within the family-code byte was a zero, so the candidate
/// is no real device and is not surfaced.
pub open spec fn zero_family_pass(cur: DeviceSearch, probes: Seq<(bool, bool)>) -> bool {
    &&& probes.len() == 64
    &&& no_both_high(probes, 64)
    &&& (forall|k: int| 0 <= k < 8 ==> !(#[trigger] probe_dir(cur, probes, k)))
}

/// The pass model depends only on the probe pairs already read.
proof fn lemma_model_prefix(
    cur: DeviceSearch,
    p1: Seq<(bool, bool)>,
    p2: Seq<(bool, bool)>,
    n: int,
)
    requires
        n <= p1.len(),
        n <= p2.len(),
        forall|j: int| 0 <= j < n ==> p1[j] == p2[j],
    ensures
        pass_last_zero(cur, p1, n) == pass_last_zero(cur, p2, n),
        pass_family_disc(cur, p1, n) == pass_family_disc(cur, p2, n),
        search_ops(cur, p1, n) == search_ops(cur, p2, n),
    decreases n,
{
    if n > 0 {
        lemma_model_prefix(cur, p1, p2, n - 1);
        assert(p1[n - 1] == p2[n - 1]);
        assert(probe_dir(cur, p1, n - 1) == probe_dir(cur, p2, n - 1));
    }
}

/// Setting bit `ku` leaves the other bits alone.
proof fn lemma_u64_set_bit(rom: u64, ku: u64, j: u64)
    requires
        ku < 64,
        j < 64,
    ensures
        u64_bit(rom | (1u64 << ku), j) == (j == ku || u64_bit(rom, j)),
{
    assert(((rom | (1u64 << ku)) >> j) & 1 == 1 <==> (j == ku || ((rom >> j) & 1 == 1)))
        by (bit_vector)
        requires
            ku < 64,
            j < 64,
    ;
}

/// Clearing bit `ku` leaves the other bits alone.
proof fn lemma_u64_clear_bit(rom: u64, ku: u64, j: u64)
    requires
        ku < 64,
        j < 64,
    ensures
        u64_bit(rom & !(1u64 << ku), j) == (j != ku && u64_bit(rom, j)),
{
    assert(((rom & !(1u64 << ku)) >> j) & 1 == 1 <==> (j != ku && ((rom >> j) & 1 == 1)))
        by (bit_vector)
        requires
            ku < 64,
            j < 64,
    ;
}

/// Two 64-bit values with the same bits are the same value.
proof fn lemma_u64_bit_ext(x: u64, y: u64)
    requires
        forall|k: u64| k < 64 ==> #[trigger] u64_bit(x, k) == u64_bit(y, k),
    ensures
        x == y,
{
    lemma_u64_low_bits_eq(x, y, 63);
    let j: u64 = 63;
    assert(u64_bit(x, j) == u64_bit(y, j));
    assert((x >> j) & 1 == (y >> j) & 1) by (bit_vector)
        requires
            ((x >> j) & 1 == 1) == ((y >> j) & 1 == 1),
    ;
    assert(x == y) by (bit_vector)
        requires
            x & (((1u64 << 63u64) - 1) as u64) == y & (((1u64 << 63u64) - 1) as u64),
            (x >> 63u64) & 1 == (y >> 63u64) & 1,
    ;
}

/// Values that agree on bits below `k` agree under the low-bits mask.
proof fn lemma_u64_low_bits_eq(x: u64, y: u64, k: u64)
    requires
        k <= 63,
        forall|j: u64| j < k ==> #[trigger] u64_bit(x, j) == u64_bit(y, j),
    ensures
        x & (((1u64 << k) - 1) as u64) == y & (((1u64 << k) - 1) as u64),
    decreases k,
{
    if k == 0 {
        assert(x & (((1u64 << 0u64) - 1) as u64) == y & (((1u64 << 0u64) - 1) as u64)) by (bit_vector);
    } else {
        lemma_u64_low_bits_eq(x, y, (k - 1) as u64);
        let j = (k - 1) as u64;
        assert(((1u64 << j) - 1) as u64 == ((1u64 << (k - 1) as u64) - 1) as u64);
        assert(u64_bit(x, j) == u64_bit(y, j));
        assert((x >> j) & 1 == (y >> j) & 1) by (bit_vector)
            requires
                ((x >> j) & 1 == 1) == ((y >> j) & 1 == 1),
        ;
        assert(x & (((1u64 << k) - 1) as u64) == y & (((1u64 << k) - 1) as u64)) by (bit_vector)
            requires
                1 <= k <= 63,
                x & (((1u64 << (k - 1) as u64) - 1) as u64) == y & (((1u64 << (k - 1) as u64) - 1)
                    as u64),
                (x >> ((k - 1) as u64)) & 1 == (y >> ((k - 1) as u64)) & 1,
        ;
    }
}

/// The probe pairs a lone device with address `d` answers: it drives its
/// own bit in the first slot of each position and the complement in the
/// second.
pub open spec fn lone_device_probes(d: u64, probes: Seq<(bool, bool)>) -> bool {
    probes.len() == 64 && forall|k: int|
        0 <= k < 64 ==> #[trigger] probes[k] == (u64_bit(d, k as u64), !u64_bit(d, k as u64))
}

/// With a lone device the probe pairs always differ, so no branch point
/// arises anywhere in the pass.
proof fn lemma_lone_pass_has_no_branch(cur: DeviceSearch, d: u64, probes: Seq<(bool, bool)>, n: int)
    requires
        lone_device_probes(d, probes),
        n <= 64,
    ensures
        pass_last_zero(cur, probes, n) == 0,
    decreases n,
{
    if n > 0 {
        lemma_lone_pass_has_no_branch(cur, d, probes, n - 1);
    }
}

/// Enumeration over a bus with a single device returns exactly that device:
/// a completed pass against the device's probe answers builds its address
/// bit for bit, and, with no branch point left open, marks enumeration
/// exhausted in one pass.
pub proof fn lemma_lone_device_found(
    cur: DeviceSearch,
    new: DeviceSearch,
    d: u64,
    probes: Seq<(bool, bool)>,
)
    requires
        lone_device_probes(d, probes),
        completed_pass(cur, new, probes),
    ensures
        new.rom_no == d,
        new.last_device_flag,
{
    assert forall|k: u64| k < 64 implies #[trigger] u64_bit(new.rom_no, k) == u64_bit(d, k) by {
        assert(probes[k as int] == (u64_bit(d, k), !u64_bit(d, k)));
        assert(probe_dir(cur, probes, k as int) == u64_bit(d, k));
    }
    lemma_u64_bit_ext(new.rom_no, d);
    lemma_lone_pass_has_no_branch(cur, d, probes, 64);
}

/// Whether device `d` is still participating after the first `k` positions
/// of a pass: it has matched every direction written back so far (a written
/// bit forces non-matching devices off the bus for the rest of the pass).
pub open spec fn device_in_play(
    cur: DeviceSearch,
    probes: Seq<(bool, bool)>,
    d: u64,
    k: int,
) -> bool {
    forall|j: int| 0 <= j < k ==> u64_bit(d, j as u64) == #[trigger] probe_dir(cur, probes, j)
}
/// Every device participating at position `k` drives a one there, so the
/// open-drain line's first probe slot reads high.
#[verifier::opaque]
pub open spec fn all_in_play_high(
    cur: DeviceSearch,
    probes: Seq<(bool, bool)>,
    devs: Set<u64>,
    k: int,
) -> bool {
    forall|d: u64|
        #[trigger] devs.contains(d) && device_in_play(cur, probes, d, k) ==> u64_bit(d, k as u64)
}

/// Every device participating at position `k` drives a zero there, so the
/// complement probe slot reads high.
#[verifier::opaque]
pub open spec fn all_in_play_low(
    cur: DeviceSearch,
    probes: Seq<(bool, bool)>,
    devs: Set<u64>,
    k: int,
) -> bool {
    forall|d: u64|
        #[trigger] devs.contains(d) && device_in_play(cur, probes, d, k) ==> !u64_bit(d, k as u64)
}

/// Whether the probe pairs are the open-drain answers of the device set: a
/// slot reads high exactly when no participating device pulls it low, so
/// the first slot of a position is high when they all drive ones there, and
/// the complement slot when they all drive zeros.
pub open spec fn probes_of_devices(
    cur: DeviceSearch,
    probes: Seq<(bool, bool)>,
    devs: Set<u64>,
) -> bool {
    forall|k: int|
        0 <= k < probes.len() ==> #[trigger] probes[k] == (
            all_in_play_high(cur, probes, devs, k),
            all_in_play_low(cur, probes, devs, k),
        )
}

/// A participating device drives a one where the first probe slot read high.
proof fn lemma_high_member(
    cur: DeviceSearch,
    probes: Seq<(bool, bool)>,
    devs: Set<u64>,
    k: int,
    d: u64,
)
    requires
        all_in_play_high(cur, probes, devs, k),
        devs.contains(d),
        device_in_play(cur, probes, d, k),
    ensures
        u64_bit(d, k as u64),
{
    reveal(all_in_play_high);
}

/// A participating device drives a zero where the complement slot read high.
proof fn lemma_low_member(
    cur: DeviceSearch,
    probes: Seq<(bool, bool)>,
    devs: Set<u64>,
    k: int,
    d: u64,
)
    requires
        all_in_play_low(cur, probes, devs, k),
        devs.contains(d),
        device_in_play(cur, probes, d, k),
    ensures
        !u64_bit(d, k as u64),
{
    reveal(all_in_play_low);
}

/// A low complement slot means some participating device drives a one.
proof fn lemma_not_low_witness(
    cur: DeviceSearch,
    probes: Seq<(bool, bool)>,
    devs: Set<u64>,
    k: int,
) -> (d: u64)
    requires
        !all_in_play_low(cur, probes, devs, k),
    ensures
        devs.contains(d) && device_in_play(cur, probes, d, k) && u64_bit(d, k as u64),
{
    reveal(all_in_play_low);
    choose|d: u64| devs.contains(d) && device_in_play(cur, probes, d, k) && u64_bit(d, k as u64)
}

/// A low first slot means some participating device drives a zero.
proof fn lemma_not_high_witness(
    cur: DeviceSearch,
    probes: Seq<(bool, bool)>,
    devs: Set<u64>,
    k: int,
) -> (d: u64)
    requires
        !all_in_play_high(cur, probes, devs, k),
    ensures
        devs.contains(d) && device_in_play(cur, probes, d, k) && !u64_bit(d, k as u64),
{
    reveal(all_in_play_high);
    choose|d: u64| devs.contains(d) && device_in_play(cur, probes, d, k) && !u64_bit(d, k as u64)
}

/// On a bus that answers for a non-empty device set, some device survives
/// every written direction: agreeing positions keep everyone, and at a
/// branch point both subsets are inhabited, so whichever direction the pass
/// takes, a matching device remains.
proof fn lemma_some_device_survives(
    cur: DeviceSearch,
    probes: Seq<(bool, bool)>,
    devs: Set<u64>,
    d0: u64,
    k: int,
) -> (d: u64)
    requires
        probes.len() == 64,
        probes_of_devices(cur, probes, devs),
        devs.contains(d0),
        0 <= k <= 64,
    ensures
        devs.contains(d) && device_in_play(cur, probes, d, k),
    decreases k,
{
    if k == 0 {
        d0
    } else {
        let dp = lemma_some_device_survives(cur, probes, devs, d0, k - 1);
        let id = probes[k - 1].0;
        let cmp = probes[k - 1].1;
        assert(id == all_in_play_high(cur, probes, devs, k - 1));
        assert(cmp == all_in_play_low(cur, probes, devs, k - 1));
        if id != cmp {
            // Every participating device agrees on this bit, and the pass
            // adopts it, so the surviving device keeps surviving.
            if id {
                lemma_high_member(cur, probes, devs, k - 1, dp);
            } else {
                lemma_low_member(cur, probes, devs, k - 1, dp);
            }
            assert(probe_dir(cur, probes, k - 1) == id);
            dp
        } else {
            // Were both slots high, the device surviving so far would have
            // to drive both a one and a zero; so both read low, and each
            // direction has a matching device.
            if id {
                lemma_high_member(cur, probes, devs, k - 1, dp);
                lemma_low_member(cur, probes, devs, k - 1, dp);
            }
            if probe_dir(cur, probes, k - 1) {
                lemma_not_low_witness(cur, probes, devs, k - 1)
            } else {
                lemma_not_high_witness(cur, probes, devs, k - 1)
            }
        }
    }
}

/// Every address a completed pass yields belongs to the device set whose
/// answers drove the pass: the search adopts only directions that some
/// participating device matches, so the candidate it assembles bit for bit
/// is one of the devices.
pub proof fn lemma_found_address_is_a_device(
    cur: DeviceSearch,
    new: DeviceSearch,
    probes: Seq<(bool, bool)>,
    devs: Set<u64>,
    d0: u64,
)
    requires
        devs.contains(d0),
        probes_of_devices(cur, probes, devs),
        completed_pass(cur, new, probes),
    ensures
        devs.contains(new.rom_no),
{
    let d = lemma_some_device_survives(cur, probes, devs, d0, 64);
    assert forall|k: u64| k < 64 implies #[trigger] u64_bit(d, k) == u64_bit(new.rom_no, k) by {
        assert(u64_bit(d, k) == probe_dir(cur, probes, k as int));
    }
    lemma_u64_bit_ext(d, new.rom_no);
}

/// Over a bus whose devices all carry checksum-valid addresses, every
/// candidate a completed pass yields is itself checksum-valid: the search
/// never surfaces a corrupted address, because what it assembles is one of
/// the devices.
pub proof fn lemma_found_address_is_valid(
    cur: DeviceSearch,
    new: DeviceSearch,
    probes: Seq<(bool, bool)>,
    devs: Set<u64>,
    d0: u64,
)
    requires
        devs.contains(d0),
        probes_of_devices(cur, probes, devs),
        completed_pass(cur, new, probes),
        forall|d: u64| devs.contains(d) ==> #[trigger] addr_valid(d),
    ensures
        addr_valid(new.rom_no),
{
    lemma_found_address_is_a_device(cur, new, probes, devs, d0);
}

/// A populated honest bus never aborts a pass: while some device answers,
/// the two probe slots of the next position cannot both read high.
pub proof fn lemma_populated_bus_never_aborts(
    cur: DeviceSearch,
    probes: Seq<(bool, bool)>,
    devs: Set<u64>,
    d0: u64,
    k: int,
)
    requires
        devs.contains(d0),
        probes_of_devices(cur, probes, devs),
        0 <= k < probes.len(),
        no_both_high(probes, k),
    ensures
        !(probes[k].0 && probes[k].1),
{
    let d = lemma_some_device_survives_prefix(cur, probes, devs, d0, k);
    assert(probes[k] == (all_in_play_high(cur, probes, devs, k), all_in_play_low(
        cur,
        probes,
        devs,
        k,
    )));
    if probes[k].0 && probes[k].1 {
        lemma_high_member(cur, probes, devs, k, d);
        lemma_low_member(cur, probes, devs, k, d);
    }
}

/// As `lemma_some_device_survives`, but only the first `k` positions need
/// to have been answered without a both-high pair.
proof fn lemma_some_device_survives_prefix(
    cur: DeviceSearch,
    probes: Seq<(bool, bool)>,
    devs: Set<u64>,
    d0: u64,
    k: int,
) -> (d: u64)
    requires
        probes_of_devices(cur, probes, devs),
        devs.contains(d0),
        0 <= k < probes.len(),
        no_both_high(probes, k),
    ensures
        devs.contains(d) && device_in_play(cur, probes, d, k),
    decreases k,
{
    if k == 0 {
        d0
    } else {
        let dp = lemma_some_device_survives_prefix(cur, probes, devs, d0, k - 1);
        let id = probes[k - 1].0;
        let cmp = probes[k - 1].1;
        assert(id == all_in_play_high(cur, probes, devs, k - 1));
        assert(cmp == all_in_play_low(cur, probes, devs, k - 1));
        if id != cmp {
            if id {
                lemma_high_member(cur, probes, devs, k - 1, dp);
            } else {
                lemma_low_member(cur, probes, devs, k - 1, dp);
            }
            assert(probe_dir(cur, probes, k - 1) == id);
            dp
        } else {
            if id {
                lemma_high_member(cur, probes, devs, k - 1, dp);
                lemma_low_member(cur, probes, devs, k - 1, dp);
            }
            if probe_dir(cur, probes, k - 1) {
                lemma_not_low_witness(cur, probes, devs, k - 1)
            } else {
                lemma_not_high_witness(cur, probes, devs, k - 1)
            }
        }
    }
}

/// A populated honest bus whose devices all carry nonzero family codes
/// never completes a zero-family pass: the assembled candidate matches a
/// surviving device, whose family byte is not zero, so some direction
/// within the family byte is a one. With the abort lemma above, a pass
/// over such a bus yields `Ok(None)` only when the cursor was already
/// exhausted (or a pin fault turned the pass into an error).
pub proof fn lemma_populated_bus_family_nonzero(
    cur: DeviceSearch,
    probes: Seq<(bool, bool)>,
    devs: Set<u64>,
    d0: u64,
)
    requires
        devs.contains(d0),
        probes.len() == 64,
        no_both_high(probes, 64),
        probes_of_devices(cur, probes, devs),
        forall|d: u64| devs.contains(d) ==> #[trigger] (d & 0xff) != 0,
    ensures
        exists|k: int| 0 <= k < 8 && #[trigger] probe_dir(cur, probes, k),
{
    let d = lemma_some_device_survives(cur, probes, devs, d0, 64);
    if forall|k: int| 0 <= k < 8 ==> !(#[trigger] probe_dir(cur, probes, k)) {
        assert forall|k: u64| k < 8 implies ((d >> k) & 1) != 1 by {
            assert(u64_bit(d, k) == probe_dir(cur, probes, k as int));
        }
        lemma_low_byte_zero(d);
        assert((d & 0xff) != 0);
    }
}

/// A value whose low eight bits are all clear has a zero low byte.
proof fn lemma_low_byte_zero(d: u64)
    requires
        forall|k: u64| k < 8 ==> #[trigger] ((d >> k) & 1) != 1,
    ensures
        d & 0xff == 0,
{
    assert(d & 0xff == 0) by (bit_vector)
        requires
            (d >> 0u64) & 1 != 1,
            (d >> 1u64) & 1 != 1,
            (d >> 2u64) & 1 != 1,
            (d >> 3u64) & 1 != 1,
            (d >> 4u64) & 1 != 1,
            (d >> 5u64) & 1 != 1,
            (d >> 6u64) & 1 != 1,
            (d >> 7u64) & 1 != 1,
    ;
}

/// A positive last zero marks a branch point where the pass chose zero.
proof fn lemma_last_zero_is_branch(cur: DeviceSearch, probes: Seq<(bool, bool)>, n: int)
    requires
        pass_last_zero(cur, probes, n) > 0,
    ensures
        ({
            let lz = pass_last_zero(cur, probes, n);
            &&& lz <= n
            &&& probes[lz - 1].0 == probes[lz - 1].1
            &&& !probe_dir(cur, probes, lz - 1)
        }),
    decreases n,
{
    if n > 0 {
        if !(probes[n - 1].0 == probes[n - 1].1 && !probe_dir(cur, probes, n - 1)) {
            lemma_last_zero_is_branch(cur, probes, n - 1);
        }
    }
}

/// While two passes have written the same directions, each device's
/// participation is the same in both.
proof fn lemma_in_play_agrees(
    c0: DeviceSearch,
    c1: DeviceSearch,
    p1: Seq<(bool, bool)>,
    p2: Seq<(bool, bool)>,
    d: u64,
    k: int,
)
    requires
        forall|i: int| 0 <= i < k ==> #[trigger] probe_dir(c1, p2, i) == probe_dir(c0, p1, i),
    ensures
        device_in_play(c1, p2, d, k) == device_in_play(c0, p1, d, k),
{
    if device_in_play(c1, p2, d, k) {
        assert forall|i: int| 0 <= i < k implies u64_bit(d, i as u64) == #[trigger] probe_dir(
            c0,
            p1,
            i,
        ) by {
            assert(u64_bit(d, i as u64) == probe_dir(c1, p2, i));
        }
    }
    if device_in_play(c0, p1, d, k) {
        assert forall|i: int| 0 <= i < k implies u64_bit(d, i as u64) == #[trigger] probe_dir(
            c1,
            p2,
            i,
        ) by {
            assert(u64_bit(d, i as u64) == probe_dir(c0, p1, i));
        }
    }
}

/// While two passes over one honest device set have written the same
/// directions, the next position's probe slots read the same levels.
proof fn lemma_slots_agree(
    c0: DeviceSearch,
    c1: DeviceSearch,
    p1: Seq<(bool, bool)>,
    p2: Seq<(bool, bool)>,
    devs: Set<u64>,
    k: int,
)
    requires
        forall|i: int| 0 <= i < k ==> #[trigger] probe_dir(c1, p2, i) == probe_dir(c0, p1, i),
    ensures
        all_in_play_high(c1, p2, devs, k) == all_in_play_high(c0, p1, devs, k),
        all_in_play_low(c1, p2, devs, k) == all_in_play_low(c0, p1, devs, k),
{
    assert forall|d: u64| #[trigger] device_in_play(c1, p2, d, k) == device_in_play(
        c0,
        p1,
        d,
        k,
    ) by {
        lemma_in_play_agrees(c0, c1, p1, p2, d, k);
    }
    reveal(all_in_play_high);
    reveal(all_in_play_low);
    if all_in_play_high(c1, p2, devs, k) {
        assert forall|d: u64|
            #[trigger] devs.contains(d) && device_in_play(c0, p1, d, k) implies u64_bit(
            d,
            k as u64,
        ) by {
            assert(device_in_play(c1, p2, d, k));
        }
    }
    if all_in_play_high(c0, p1, devs, k) {
        assert forall|d: u64|
            #[trigger] devs.contains(d) && device_in_play(c1, p2, d, k) implies u64_bit(
            d,
            k as u64,
        ) by {
            assert(device_in_play(c0, p1, d, k));
        }
    }
    if all_in_play_low(c1, p2, devs, k) {
        assert forall|d: u64|
            #[trigger] devs.contains(d) && device_in_play(c0, p1, d, k) implies !u64_bit(
            d,
            k as u64,
        ) by {
            assert(device_in_play(c1, p2, d, k));
        }
    }
    if all_in_play_low(c0, p1, devs, k) {
        assert forall|d: u64|
            #[trigger] devs.contains(d) && device_in_play(c1, p2, d, k) implies !u64_bit(
            d,
            k as u64,
        ) by {
            assert(device_in_play(c0, p1, d, k));
        }
    }
}

/// While two passes over one honest device set have written the same
/// directions, the next probe pair they sample is the same.
proof fn lemma_probe_pair_agrees(
    c0: DeviceSearch,
    c1: DeviceSearch,
    p1: Seq<(bool, bool)>,
    p2: Seq<(bool, bool)>,
    devs: Set<u64>,
    k: int,
)
    requires
        probes_of_devices(c0, p1, devs),
        probes_of_devices(c1, p2, devs),
        p1.len() == 64,
        p2.len() == 64,
        0 <= k < 64,
        forall|i: int| 0 <= i < k ==> #[trigger] probe_dir(c1, p2, i) == probe_dir(c0, p1, i),
    ensures
        p2[k] == p1[k],
{
    lemma_slots_agree(c0, c1, p1, p2, devs, k);
    assert(p1[k] == (all_in_play_high(c0, p1, devs, k), all_in_play_low(c0, p1, devs, k)));
    assert(p2[k] == (all_in_play_high(c1, p2, devs, k), all_in_play_low(c1, p2, devs, k)));
}

/// Below the carried discrepancy, a pass replays its predecessor: against
/// one honest device set the probe pairs repeat and the directions written
/// back are the same.
proof fn lemma_replay_prefix(
    c0: DeviceSearch,
    c1: DeviceSearch,
    p1: Seq<(bool, bool)>,
    p2: Seq<(bool, bool)>,
    devs: Set<u64>,
    j: int,
)
    requires
        completed_pass(c0, c1, p1),
        probes_of_devices(c0, p1, devs),
        probes_of_devices(c1, p2, devs),
        p2.len() == 64,
        0 <= j < c1.last_discrepancy as int,
        j <= 64,
    ensures
        forall|i: int| 0 <= i < j ==> p2[i] == #[trigger] p1[i],
        forall|i: int| 0 <= i < j ==> #[trigger] probe_dir(c1, p2, i) == probe_dir(c0, p1, i),
    decreases j,
{
    if j > 0 {
        lemma_replay_prefix(c0, c1, p1, p2, devs, j - 1);
        lemma_probe_pair_agrees(c0, c1, p1, p2, devs, j - 1);
        assert(probe_dir(c1, p2, j - 1) == probe_dir(c0, p1, j - 1)) by {
            if p1[j - 1].0 == p1[j - 1].1 {
                // A branch position below the discrepancy: the new pass
                // replays the candidate bit, which is the direction the
                // previous pass chose there.
                assert(u64_bit(c1.rom_no, (j - 1) as u64) == probe_dir(c0, p1, j - 1));
            }
        }
        assert forall|i: int| 0 <= i < j implies p2[i] == #[trigger] p1[i] by {
            if i < j - 1 {
                assert(probe_dir(c1, p2, i) == probe_dir(c0, p1, i));
            }
        }
        assert forall|i: int| 0 <= i < j implies #[trigger] probe_dir(c1, p2, i) == probe_dir(
            c0,
            p1,
            i,
        ) by {
            if i < j - 1 {
                assert(probe_dir(c1, p2, i) == probe_dir(c0, p1, i));
            }
        }
    }
}

/// `a` comes before `b` in the search's ascending binary order: walking the
/// 64 candidate bits from the family code's least significant bit upward,
/// at the first position where the two differ, `a` has the zero.
pub open spec fn rom_precedes(a: u64, b: u64) -> bool {
    exists|j: u64|
        j < 64 && !u64_bit(a, j) && (#[trigger] u64_bit(b, j)) && (forall|i: u64|
            i < j ==> u64_bit(a, i) == u64_bit(b, i))
}

/// The ascending binary order is strict: an address never precedes itself.
pub proof fn lemma_rom_precedes_strict(a: u64, b: u64)
    requires
        rom_precedes(a, b),
    ensures
        a != b,
{
    let j = choose|j: u64|
        j < 64 && !u64_bit(a, j) && (#[trigger] u64_bit(b, j)) && (forall|i: u64|
            i < j ==> u64_bit(a, i) == u64_bit(b, i));
    assert(u64_bit(b, j) && !u64_bit(a, j));
}

/// The ascending binary order is transitive, so chaining the consecutive
/// ascent below along a whole enumeration yields pairwise distinct addresses
/// in ascending order.
pub proof fn lemma_rom_precedes_transitive(a: u64, b: u64, c: u64)
    requires
        rom_precedes(a, b),
        rom_precedes(b, c),
    ensures
        rom_precedes(a, c),
{
    let j1 = choose|j: u64|
        j < 64 && !u64_bit(a, j) && (#[trigger] u64_bit(b, j)) && (forall|i: u64|
            i < j ==> u64_bit(a, i) == u64_bit(b, i));
    let j2 = choose|j: u64|
        j < 64 && !u64_bit(b, j) && (#[trigger] u64_bit(c, j)) && (forall|i: u64|
            i < j ==> u64_bit(b, i) == u64_bit(c, i));
    if j1 < j2 {
        // a and b differ first at j1; b and c still agree there, so a and c
        // differ first at j1 as well.
        assert(u64_bit(c, j1) == u64_bit(b, j1));
        assert forall|i: u64| i < j1 implies u64_bit(a, i) == u64_bit(c, i) by {
            assert(u64_bit(a, i) == u64_bit(b, i));
            assert(u64_bit(b, i) == u64_bit(c, i));
        }
        assert(j1 < 64 && !u64_bit(a, j1) && u64_bit(c, j1));
    } else if j2 < j1 {
        // b and c differ first at j2, where a still agrees with b.
        assert(u64_bit(a, j2) == u64_bit(b, j2));
        assert forall|i: u64| i < j2 implies u64_bit(a, i) == u64_bit(c, i) by {
            assert(u64_bit(a, i) == u64_bit(b, i));
            assert(u64_bit(b, i) == u64_bit(c, i));
        }
        assert(j2 < 64 && !u64_bit(a, j2) && u64_bit(c, j2));
    } else {
        // One witness position cannot carry both a zero and a one of b.
        assert(u64_bit(b, j1) && !u64_bit(b, j2));
        assert(false);
    }
}

/// The carried cursor makes progress in ascending binary order: of two
/// consecutive completed passes over one honest device set, the second
/// replays the first below its deepest zero branch and flips that branch to
/// one, so its address strictly follows the first pass's (in particular the
/// two differ).
pub proof fn lemma_consecutive_passes_ascend(
    c0: DeviceSearch,
    c1: DeviceSearch,
    c2: DeviceSearch,
    p1: Seq<(bool, bool)>,
    p2: Seq<(bool, bool)>,
    devs: Set<u64>,
)
    requires
        completed_pass(c0, c1, p1),
        probes_of_devices(c0, p1, devs),
        completed_pass(c1, c2, p2),
        probes_of_devices(c1, p2, devs),
        c1.last_discrepancy > 0,
    ensures
        rom_precedes(c1.rom_no, c2.rom_no),
        c2.rom_no != c1.rom_no,
{
    let lz = c1.last_discrepancy as int;
    lemma_last_zero_is_branch(c0, p1, 64);
    lemma_replay_prefix(c0, c1, p1, p2, devs, lz - 1);
    lemma_probe_pair_agrees(c0, c1, p1, p2, devs, lz - 1);
    // At the branch the previous pass resolved with zero, this pass takes
    // one: the two candidates differ there and agree below.
    let jw = (lz - 1) as u64;
    assert(probe_dir(c1, p2, lz - 1));
    assert(u64_bit(c2.rom_no, jw));
    assert(!u64_bit(c1.rom_no, jw));
    assert forall|i: u64| i < jw implies u64_bit(c1.rom_no, i) == u64_bit(c2.rom_no, i) by {
        assert(u64_bit(c1.rom_no, i) == probe_dir(c0, p1, i as int));
        assert(u64_bit(c2.rom_no, i) == probe_dir(c1, p2, i as int));
    }
    assert(rom_precedes(c1.rom_no, c2.rom_no)) by {
        assert(jw < 64 && !u64_bit(c1.rom_no, jw) && u64_bit(c2.rom_no, jw));
    }
}

/// Over a whole enumeration — a chain of completed passes against one
/// honest device set, each pass starting from the cursor the previous one
/// left (`cursors[k]` into `cursors[k + 1]` against `probes[k]`), none of
/// the intermediate cursors exhausted — the candidate addresses come out
/// pairwise distinct and in ascending binary order.
pub proof fn lemma_enumeration_ascends(
    cursors: Seq<DeviceSearch>,
    probes: Seq<Seq<(bool, bool)>>,
    devs: Set<u64>,
    i: int,
    j: int,
)
    requires
        cursors.len() == probes.len() + 1,
        forall|k: int|
            0 <= k < probes.len() ==> completed_pass(cursors[k], cursors[k + 1], #[trigger] probes[k])
                && probes_of_devices(cursors[k], probes[k], devs),
        forall|k: int| 1 <= k < probes.len() ==> (#[trigger] cursors[k]).last_discrepancy > 0,
        1 <= i < j <= probes.len(),
    ensures
        rom_precedes(cursors[i].rom_no, cursors[j].rom_no),
        cursors[i].rom_no != cursors[j].rom_no,
    decreases j - i,
{
    if j == i + 1 {
        lemma_consecutive_passes_ascend(
            cursors[i - 1],
            cursors[i],
            cursors[i + 1],
            probes[i - 1],
            probes[i],
            devs,
        );
    } else {
        lemma_enumeration_ascends(cursors, probes, devs, i, j - 1);
        lemma_consecutive_passes_ascend(
            cursors[j - 2],
            cursors[j - 1],
            cursors[j],
            probes[j - 2],
            probes[j - 1],
            devs,
        );
        lemma_rom_precedes_transitive(cursors[i].rom_no, cursors[j - 1].rom_no, cursors[j].rom_no);
    }
    lemma_rom_precedes_strict(cursors[i].rom_no, cursors[j].rom_no);
}

/// Bit `k` of a 64-bit candidate, as executable code.
fn rom_bit_at(rom: u64, k: usize) -> (r: bool)
    requires
        k < 64,
    ensures
        r == u64_bit(rom, k as u64),
{
    (rom >> (k as u64)) & 1 == 1
}

impl DeviceSearch {
    /// The cursor that starts enumeration from the beginning.
    pub open spec fn start() -> DeviceSearch {
        DeviceSearch {
            rom_no: 0,
            last_discrepancy: 0,
            last_family_discrepancy: 0,
            last_device_flag: false,
        }
    }

    pub fn new() -> (r: DeviceSearch)
        ensures
            r == DeviceSearch::start(),
    {
        DeviceSearch {
            rom_no: 0,
            last_discrepancy: 0,
            last_family_discrepancy: 0,
            last_device_flag: false,
        }
    }

    /// Run one pass of the alternating-pair search and carry the cursor
    /// forward.
    ///
    /// A pass that walks all 64 positions yields one candidate address built
    /// from the chosen directions; the updated cursor makes the next pass
    /// discover the next address. A pass aborted because no device answered
    /// (both probe bits high), a candidate with family code 0, and a pass
    /// started on an exhausted cursor all yield `None` and reset the cursor
    /// so enumeration can restart from scratch.
    pub fn search<P: BusLine>(&mut self, wire: &mut OneWire<P>) -> (r: Result<
        Option<Address>,
        Error<PinFault>,
    >)
        ensures
            r matches Err(e) ==> (e is Pin || e is BusNotHigh || e is UnexpectedResponse),
            r is Ok ==> final(wire).now_us() <= old(wire).now_us() + 13290,
            old(self).last_device_flag ==> r == Ok::<Option<Address>, Error<PinFault>>(None)
                && *final(wire) == *old(wire),
            r is Ok && r->Ok_0 is None ==> final(self).last_discrepancy == 0
                && !final(self).last_device_flag,
            (!old(self).last_device_flag && r is Ok && r->Ok_0 is None) ==> exists|
                probes: Seq<(bool, bool)>,
            |
                #![trigger pass_prefix_ops(*old(self), probes, probes.len() as int)]
                {
                    ||| (aborted_pass(*old(self), probes) && final(wire).ops_log() == old(
                        wire,
                    ).ops_log() + aborted_pass_ops(*old(self), probes))
                    ||| (zero_family_pass(*old(self), probes) && final(wire).ops_log() == old(
                        wire,
                    ).ops_log() + pass_prefix_ops(*old(self), probes, 64))
                },
            (!old(self).last_device_flag && r is Ok && r->Ok_0 is Some) ==> ({
                let addr = r->Ok_0->Some_0;
                &&& addr.0 == final(self).rom_no
                &&& addr.0 & 0xff != 0
                &&& exists|probes: Seq<(bool, bool)>|
                    #[trigger] completed_pass(*old(self), *final(self), probes)
                        && final(wire).ops_log() == old(wire).ops_log() + pass_prefix_ops(
                        *old(self),
                        probes,
                        64,
                    )
            }),
    {
        if self.last_device_flag {
            self.last_discrepancy = 0;
            self.last_device_flag = false;
            return Ok(None);
        }

        let ghost cur = *self;
        let ghost base = wire.ops_log();
        let ghost base_now = wire.now_us();

        wire.reset()?;
        wire.write_byte(SEARCH_NORMAL)?;

        let ghost mut probes: Seq<(bool, bool)> = Seq::empty();
        let mut last_zero: u8 = 0;
        let mut k: usize = 0;

        proof {
            assert(wire.ops_log() =~= base + pass_prefix_ops(cur, probes, 0));
        }

        while k < 64
            invariant
                cur == *old(self),
                !cur.last_device_flag,
                base == old(wire).ops_log(),
                base_now == old(wire).now_us(),
                wire.now_us() <= base_now + 1770 + 180 * k,
                k <= 64,
                probes.len() == k,
                no_both_high(probes, k as int),
                wire.ops_log() == base + pass_prefix_ops(cur, probes, k as int),
                forall|j: u64|
                    j < k ==> #[trigger] u64_bit(self.rom_no, j) == probe_dir(cur, probes, j as int),
                forall|j: u64|
                    k <= j < 64 ==> #[trigger] u64_bit(self.rom_no, j) == u64_bit(cur.rom_no, j),
                last_zero as int == pass_last_zero(cur, probes, k as int),
                self.last_family_discrepancy as int == pass_family_disc(cur, probes, k as int),
                self.last_discrepancy == cur.last_discrepancy,
                self.last_device_flag == cur.last_device_flag,
            decreases 64 - k,
        {
            let id_bit = wire.read_bit()?;
            let cmp_id_bit = wire.read_bit()?;

            // Both probe bits high: no device answered; abort this pass.
            if id_bit && cmp_id_bit {
                self.last_discrepancy = 0;
                self.last_device_flag = false;
                proof {
                    assert(wire.ops_log() =~= base + aborted_pass_ops(cur, probes));
                }
                return Ok(None);
            }

            let dir: bool;
            if id_bit != cmp_id_bit {
                // All participating devices agree on this bit: adopt it.
                dir = id_bit;
            } else {
                // A branch point: replay, take 1, or take 0 depending on
                // where this position falls relative to the carried
                // discrepancy.
                let sd: bool;
                if (k as u8) + 1 < self.last_discrepancy {
                    sd = rom_bit_at(self.rom_no, k);
                } else {
                    sd = (k as u8) + 1 == self.last_discrepancy;
                }
                if !sd {
                    last_zero = (k as u8) + 1;
                    if last_zero < 9 {
                        self.last_family_discrepancy = last_zero;
                    }
                }
                dir = sd;
            }

            let ghost rom_prev = self.rom_no;
            let ghost probes_prev = probes;

            if dir {
                self.rom_no = self.rom_no | (1u64 << (k as u64));
            } else {
                self.rom_no = self.rom_no & (!(1u64 << (k as u64)));
            }

            wire.write_bit(dir)?;

            proof {
                probes = probes.push((id_bit, cmp_id_bit));
                lemma_model_prefix(cur, probes_prev, probes, k as int);
                assert(probes[k as int] == (id_bit, cmp_id_bit));
                assert(probe_dir(cur, probes, k as int) == dir);

                assert forall|j: u64| j < 64 implies #[trigger] u64_bit(self.rom_no, j) == (if j
                    == k as u64 {
                    dir
                } else {
                    u64_bit(rom_prev, j)
                }) by {
                    if dir {
                        lemma_u64_set_bit(rom_prev, k as u64, j);
                    } else {
                        lemma_u64_clear_bit(rom_prev, k as u64, j);
                    }
                }

                assert(wire.ops_log() =~= base + pass_prefix_ops(cur, probes, k + 1));
                assert(pass_last_zero(cur, probes, k + 1) == last_zero as int);
                assert(pass_family_disc(cur, probes, k + 1)
                    == self.last_family_discrepancy as int);
            }

            k += 1;
        }

        // All 64 positions (plus the leading command acknowledgment) were
        // walked: the pass found one candidate. Record the branch state for
        // the next pass; a last zero of 0 means enumeration is exhausted.
        self.last_discrepancy = last_zero;
        if last_zero == 0 {
            self.last_device_flag = true;
        }

        if self.rom_no & 0xff == 0 {
            // A family code of 0 is no real device: reset so enumeration can
            // restart from scratch.
            proof {
                let rom = self.rom_no;
                assert forall|k: int| 0 <= k < 8 implies !(#[trigger] probe_dir(
                    cur,
                    probes,
                    k,
                )) by {
                    let ku = k as u64;
                    assert((rom >> ku) & 1 != 1) by (bit_vector)
                        requires
                            rom & 0xff == 0,
                            ku < 8,
                    ;
                    assert(!u64_bit(rom, ku));
                }
                assert(zero_family_pass(cur, probes));
            }
            self.last_discrepancy = 0;
            self.last_device_flag = false;
            Ok(None)
        } else {
            proof {
                assert(completed_pass(cur, *self, probes));
            }
            Ok(Some(Address(self.rom_no)))
        }
    }
}

} // verus!

//! Dallas/Maxim CRC-8 integrity layer (reflected form of the polynomial
//! x^8 + x^5 + x^4 + 1), computed over all bytes preceding the trailing CRC
//! byte of a 64-bit address or a 9-byte scratchpad.

use vstd::prelude::*;

use crate::onewire::error::Error;

verus! {

/// Bit `i` of byte `b` (least-significant bit is bit 0).
pub open spec fn u8_bit(b: u8, i: u8) -> bool {
    (b >> i) & 1 == 1
}

/// One shift step of the reflected CRC-8 register: mix the incoming bit with
/// the register's low bit, shift right, and fold in the reflected polynomial
/// image 0x8c when the mix bit was set.
pub open spec fn crc8_step(crc: u8, bit: bool) -> u8 {
    if ((crc & 1) == 1) != bit {
        (crc >> 1) ^ 0x8c
    } else {
        crc >> 1
    }
}

/// Feed bits `i..8` of byte `b` (LSB first) into the register `crc`.
pub open spec fn crc8_bits(crc: u8, b: u8, i: int) -> u8
    decreases 8 - i,
{
    if i < 0 || i >= 8 {
        crc
    } else {
        crc8_bits(crc8_step(crc, u8_bit(b, i as u8)), b, i + 1)
    }
}

/// Feed one whole byte into the register.
pub open spec fn crc8_update(crc: u8, b: u8) -> u8 {
    crc8_bits(crc, b, 0)
}

/// CRC-8 of the first `n` bytes of `s`, starting from register value 0.
pub open spec fn crc8_prefix(s: Seq<u8>, n: int) -> u8
    decreases n,
{
    if n <= 0 {
        0
    } else {
        crc8_update(crc8_prefix(s, n - 1), s[n - 1])
    }
}

/// CRC-8 of a whole byte sequence.
pub open spec fn crc8_of(s: Seq<u8>) -> u8 {
    crc8_prefix(s, s.len() as int)
}

/// CRC-8 of the first `n` bytes of a slice.
pub fn crc8_upto(data: &[u8], n: usize) -> (r: u8)
    requires
        n <= data@.len(),
    ensures
        r == crc8_prefix(data@, n as int),
{
    let mut crc: u8 = 0;
    let mut i: usize = 0;
    while i < n
        invariant
            i <= n <= data@.len(),
            crc == crc8_prefix(data@, i as int),
        decreases n - i,
    {
        let b = data[i];
        let entry = crc;
        let mut j: usize = 0;
        while j < 8
            invariant
                j <= 8,
                crc8_bits(crc, b, j as int) == crc8_update(entry, b),
            decreases 8 - j,
        {
            let bit = (b >> (j as u8)) & 1 == 1;
            assert(bit == u8_bit(b, j as u8));
            let mix = (crc & 1) == 1;
            crc = if mix != bit {
                (crc >> 1u8) ^ 0x8c
            } else {
                crc >> 1u8
            };
            j += 1;
        }
        i += 1;
    }
    crc
}

/// CRC-8 of a whole slice.
pub fn crc8(data: &[u8]) -> (r: u8)
    ensures
        r == crc8_of(data@),
{
    crc8_upto(data, data.len())
}

/// Recompute the checksum over all bytes but the last and compare it with the
/// trailing byte; a mismatch surfaces as `CrcMismatch` and the caller must
/// discard the data.
pub fn check_crc8<E>(data: &[u8]) -> (r: Result<(), Error<E>>)
    requires
        data@.len() >= 1,
    ensures
        r is Ok <==> crc8_prefix(data@, data@.len() - 1) == data@[data@.len() - 1],
        r is Err ==> r->Err_0 is CrcMismatch,
{
    let n = data.len();
    let computed = crc8_upto(data, n - 1);
    if computed == data[n - 1] {
        Ok(())
    } else {
        Err(Error::CrcMismatch)
    }
}

/// The register value after the first `n` bytes depends only on those bytes.
pub proof fn lemma_crc8_prefix_agree(s1: Seq<u8>, s2: Seq<u8>, n: int)
    requires
        n <= s1.len(),
        n <= s2.len(),
        forall|j: int| 0 <= j < n ==> s1[j] == s2[j],
    ensures
        crc8_prefix(s1, n) == crc8_prefix(s2, n),
    decreases n,
{
    if n > 0 {
        lemma_crc8_prefix_agree(s1, s2, n - 1);
    }
}

/// One register step is injective in the register for a fixed input bit.
proof fn lemma_step_inj(c1: u8, c2: u8, bit: bool)
    requires
        crc8_step(c1, bit) == crc8_step(c2, bit),
    ensures
        c1 == c2,
{
    assert((if ((c1 & 1) == 1) != bit {
        (c1 >> 1) ^ 0x8c
    } else {
        c1 >> 1
    }) == (if ((c2 & 1) == 1) != bit {
        (c2 >> 1) ^ 0x8c
    } else {
        c2 >> 1
    }) ==> c1 == c2) by (bit_vector);
}

/// One register step distinguishes the two values of the input bit.
proof fn lemma_step_bit_sens(c: u8, b1: bool, b2: bool)
    requires
        b1 != b2,
    ensures
        crc8_step(c, b1) != crc8_step(c, b2),
{
    assert((if ((c & 1) == 1) != b1 {
        (c >> 1) ^ 0x8c
    } else {
        c >> 1
    }) != (if ((c & 1) == 1) != b2 {
        (c >> 1) ^ 0x8c
    } else {
        c >> 1
    })) by (bit_vector)
        requires
            b1 != b2,
    ;
}

/// Distinct register values stay distinct while equal bit tails are fed in.
proof fn lemma_bits_inj_agree(c1: u8, c2: u8, b1: u8, b2: u8, i: int)
    requires
        c1 != c2,
        forall|j: u8| i <= j < 8 ==> #[trigger] u8_bit(b1, j) == u8_bit(b2, j),
    ensures
        crc8_bits(c1, b1, i) != crc8_bits(c2, b2, i),
    decreases 8 - i,
{
    if 0 <= i < 8 {
        let bit = u8_bit(b1, i as u8);
        assert(u8_bit(b2, i as u8) == bit);
        let d1 = crc8_step(c1, bit);
        let d2 = crc8_step(c2, bit);
        if d1 == d2 {
            lemma_step_inj(c1, c2, bit);
        }
        lemma_bits_inj_agree(d1, d2, b1, b2, i + 1);
    }
}

/// Flipping one bit of the input byte changes the register that comes out.
proof fn lemma_bits_flip(c: u8, b1: u8, b2: u8, jf: u8, i: int)
    requires
        jf < 8,
        b2 == b1 ^ (1u8 << jf),
        0 <= i <= jf,
    ensures
        crc8_bits(c, b1, i) != crc8_bits(c, b2, i),
    decreases 8 - i,
{
    assert forall|j: u8| j < 8 && j != jf implies #[trigger] u8_bit(b1, j) == u8_bit(
        b1 ^ (1u8 << jf),
        j,
    ) by {
        assert((b1 >> j) & 1 == ((b1 ^ (1u8 << jf)) >> j) & 1) by (bit_vector)
            requires
                j < 8,
                jf < 8,
                j != jf,
        ;
    }
    if i == jf {
        let bit1 = u8_bit(b1, jf);
        let bit2 = u8_bit(b2, jf);
        assert(((b1 >> jf) & 1 == 1) != (((b1 ^ (1u8 << jf)) >> jf) & 1 == 1)) by (bit_vector)
            requires
                jf < 8,
        ;
        assert(bit1 != bit2);
        lemma_step_bit_sens(c, bit1, bit2);
        lemma_bits_inj_agree(crc8_step(c, bit1), crc8_step(c, bit2), b1, b2, i + 1);
    } else {
        let bit = u8_bit(b1, i as u8);
        assert(u8_bit(b2, i as u8) == bit);
        lemma_bits_flip(crc8_step(c, bit), b1, b2, jf, i + 1);
    }
}

/// Feeding a byte keeps distinct register values distinct.
proof fn lemma_update_inj(c1: u8, c2: u8, b: u8)
    requires
        c1 != c2,
    ensures
        crc8_update(c1, b) != crc8_update(c2, b),
{
    lemma_bits_inj_agree(c1, c2, b, b, 0);
}

/// Feeding a byte with one bit flipped changes the register that comes out.
proof fn lemma_update_flip(c: u8, b: u8, jf: u8)
    requires
        jf < 8,
    ensures
        crc8_update(c, b) != crc8_update(c, b ^ (1u8 << jf)),
{
    lemma_bits_flip(c, b, b ^ (1u8 << jf), jf, 0);
}

/// A single-bit corruption anywhere in the first `n` bytes changes their
/// CRC-8: the two sequences agree everywhere below `n` except at byte `m`,
/// where they differ in exactly bit `jf`.
pub proof fn lemma_crc8_prefix_flip(s1: Seq<u8>, s2: Seq<u8>, n: int, m: int, jf: u8)
    requires
        0 <= m < n <= s1.len(),
        n <= s2.len(),
        forall|j: int| 0 <= j < n && j != m ==> s1[j] == s2[j],
        jf < 8,
        s2[m] == s1[m] ^ (1u8 << jf),
    ensures
        crc8_prefix(s1, n) != crc8_prefix(s2, n),
    decreases n,
{
    if n - 1 == m {
        lemma_crc8_prefix_agree(s1, s2, m);
        lemma_update_flip(crc8_prefix(s1, m), s1[m], jf);
    } else {
        lemma_crc8_prefix_flip(s1, s2, n - 1, m, jf);
        lemma_update_inj(crc8_prefix(s1, n - 1), crc8_prefix(s2, n - 1), s1[n - 1]);
    }
}

} // verus!

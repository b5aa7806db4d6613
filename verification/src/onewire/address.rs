//! 64-bit device addresses: 1 family-code byte (LSB), 6 serial bytes, and a
//! trailing CRC-8 byte.

use vstd::prelude::*;

use crate::onewire::crc::{crc8_prefix, crc8_upto, lemma_crc8_prefix_agree, lemma_crc8_prefix_flip};

verus! {

/// A 64-bit address of a device. These are globally unique, and used to
/// single out a single device on a potentially crowded bus.
#[derive(Debug, Copy, Clone, PartialEq, Eq, Structural)]
pub struct Address(pub u64);

/// Byte `k` of the address value, in transmission (little-endian) order.
pub open spec fn addr_byte(a: u64, k: int) -> u8 {
    ((a >> ((8 * k) as u64)) & 0xff) as u8
}

/// The address bytes in transmission order.
pub open spec fn addr_bytes(a: u64) -> Seq<u8> {
    Seq::new(8, |k: int| addr_byte(a, k))
}

/// An address is valid when the CRC-8 of its first seven bytes equals its
/// trailing byte.
pub open spec fn addr_valid(a: u64) -> bool {
    crc8_prefix(addr_bytes(a), 7) == addr_byte(a, 7)
}

impl Address {
    /// The family-code byte, the least significant byte of the address.
    pub fn family_code(self) -> (r: u8)
        ensures
            r == addr_byte(self.0, 0),
    {
        let r = (self.0 & 0xff) as u8;
        proof {
            let a = self.0;
            assert((a >> 0u64) & 0xff == a & 0xff) by (bit_vector);
        }
        r
    }

    /// Byte `k` of the address in transmission order.
    pub fn byte(self, k: usize) -> (r: u8)
        requires
            k < 8,
        ensures
            r == addr_byte(self.0, k as int),
    {
        let sh = 8 * (k as u64);
        let r = ((self.0 >> sh) & 0xff) as u8;
        r
    }

    /// Recompute the CRC-8 of the first seven bytes and compare it with the
    /// trailing byte.
    pub fn is_valid(self) -> (r: bool)
        ensures
            r == addr_valid(self.0),
    {
        let mut bytes: [u8; 8] = [0; 8];
        let mut k: usize = 0;
        while k < 8
            invariant
                k <= 8,
                forall|j: int| 0 <= j < k ==> bytes@[j] == addr_byte(self.0, j),
            decreases 8 - k,
        {
            bytes[k] = self.byte(k);
            k += 1;
        }
        let computed = crc8_upto(&bytes, 7);
        proof {
            lemma_crc8_prefix_agree(bytes@, addr_bytes(self.0), 7);
        }
        computed == bytes[7]
    }
}

/// Every valid address passes the check by definition; this lemma states the
/// other half of the integrity property: corrupting any single bit of a
/// valid address makes validation fail.
pub proof fn lemma_crc8_detects_single_bit_flip(a: u64, i: u64)
    requires
        i < 64,
        addr_valid(a),
    ensures
        !addr_valid(a ^ (1u64 << i)),
{
    let a2 = a ^ (1u64 << i);
    let m = (i / 8) as int;
    let jf = (i % 8) as u8;
    assert(0 <= m < 8);
    assert(i % 8 < 8);
    assert(jf < 8);

    // Bytes other than byte m are unchanged by the flip.
    assert forall|k: int| 0 <= k < 8 && k != m implies addr_byte(a2, k) == addr_byte(a, k) by {
        let ku = k as u64;
        assert(((a ^ (1u64 << i)) >> (8 * ku as u64)) & 0xff == (a >> (8 * ku as u64)) & 0xff)
            by (bit_vector)
            requires
                i < 64,
                ku < 8,
                ku != i / 8,
        ;
    }

    // Byte m of the corrupted value is the uncorrupted byte with exactly bit jf flipped.
    assert(addr_byte(a2, m) == addr_byte(a, m) ^ (1u8 << jf)) by {
        assert((((a ^ (1u64 << i)) >> (8 * (i / 8))) & 0xff) as u8 == (((a >> (8 * (i / 8)))
            & 0xff) as u8) ^ (1u8 << ((i % 8) as u8))) by (bit_vector)
            requires
                i < 64,
        ;
        assert((8 * m) as u64 == 8 * (i / 8));
    }

    if m == 7 {
        // The corruption hit the CRC byte: the recomputed checksum over the
        // unchanged data no longer matches the flipped trailing byte.
        lemma_crc8_prefix_agree(addr_bytes(a2), addr_bytes(a), 7);
        assert(addr_byte(a2, 7) != addr_byte(a, 7)) by {
            let x = addr_byte(a, 7);
            assert(x ^ (1u8 << jf) != x) by (bit_vector)
                requires
                    jf < 8,
            ;
        };
    } else {
        // The corruption hit a data byte: the recomputed checksum changes
        // while the trailing byte does not.
        lemma_crc8_prefix_flip(addr_bytes(a), addr_bytes(a2), 7, m, jf);
    }
}

} // verus!

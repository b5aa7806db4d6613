//! Pure helpers for the interactive console: line extraction from the
//! receive buffer and decimal rendering of counters and temperatures. The
//! console's I/O loop lives with the scheduler layer; only its computations
//! are here.

use vstd::prelude::*;

use crate::thermometer::Temperature;

verus! {

/// How many bytes the console receive buffer holds.
pub const BUFFER_SIZE: usize = 32;

/// Whether a byte ends a command line.
pub open spec fn is_nl(b: u8) -> bool {
    b == 10 || b == 13
}

/// Whether a byte separates command arguments.
pub open spec fn is_ws(b: u8) -> bool {
    b == 32 || b == 10 || b == 13 || b == 9
}

pub fn is_newline(b: u8) -> (r: bool)
    ensures
        r == is_nl(b),
{
    b == 10 || b == 13
}

pub fn is_whitespace(b: u8) -> (r: bool)
    ensures
        r == is_ws(b),
{
    b == 32 || b == 10 || b == 13 || b == 9
}

/// Whether receiving one more byte overflows the console input buffer.
/// Per the error-handling design an overflowing console buffer is a
/// programming-invariant violation and fatal — the system halts — not an
/// environmental fault to log and recover from.
pub fn console_overflow(len: usize, capacity: usize) -> (r: bool)
    ensures
        r <==> len >= capacity,
{
    len >= capacity
}

/// The index of the first line-ending byte, or -1 if there is none.
pub open spec fn first_nl(s: Seq<u8>) -> int
    decreases s.len(),
{
    if s.len() == 0 {
        -1
    } else if is_nl(s[0]) {
        0
    } else if first_nl(s.skip(1)) == -1 {
        -1
    } else {
        first_nl(s.skip(1)) + 1
    }
}

/// A sequence with no line-ending byte has no first one.
proof fn lemma_first_nl_none(s: Seq<u8>)
    requires
        forall|j: int| 0 <= j < s.len() ==> !is_nl(#[trigger] s[j]),
    ensures
        first_nl(s) == -1,
    decreases s.len(),
{
    if s.len() > 0 {
        assert(forall|j: int| 0 <= j < s.skip(1).len() ==> !is_nl(#[trigger] s.skip(1)[j]));
        lemma_first_nl_none(s.skip(1));
    }
}

/// The first line-ending byte after a clean prefix is the first overall.
proof fn lemma_first_nl_at(s: Seq<u8>, i: int)
    requires
        0 <= i < s.len(),
        is_nl(s[i]),
        forall|j: int| 0 <= j < i ==> !is_nl(#[trigger] s[j]),
    ensures
        first_nl(s) == i,
    decreases i,
{
    if i > 0 {
        assert(forall|j: int| 0 <= j < i - 1 ==> !is_nl(#[trigger] s.skip(1)[j]));
        lemma_first_nl_at(s.skip(1), i - 1);
    }
}

/// Find the first line-ending byte.
fn find_newline(buffer: &Vec<u8>) -> (r: Option<usize>)
    ensures
        r is None ==> first_nl(buffer@) == -1,
        r matches Some(idx) ==> idx < buffer@.len() && first_nl(buffer@) == idx as int,
{
    let mut i: usize = 0;
    while i < buffer.len()
        invariant
            i <= buffer@.len(),
            forall|j: int| 0 <= j < i ==> !is_nl(#[trigger] buffer@[j]),
        decreases buffer@.len() - i,
    {
        let b = buffer[i];
        if b == 10 || b == 13 {
            proof {
                lemma_first_nl_at(buffer@, i as int);
            }
            return Some(i);
        }
        i += 1;
    }
    proof {
        lemma_first_nl_none(buffer@);
    }
    None
}

/// Pop one complete line (ending byte included) off the front of the
/// receive buffer, or nothing when no complete line has arrived yet.
pub fn get_line(buffer: &mut Vec<u8>) -> (r: Option<Vec<u8>>)
    ensures
        first_nl(old(buffer)@) == -1 ==> r is None && final(buffer)@ == old(buffer)@,
        first_nl(old(buffer)@) >= 0 ==> ({
            let idx = first_nl(old(buffer)@);
            &&& (r matches Some(line) && line@ == old(buffer)@.take(idx + 1))
            &&& final(buffer)@ == old(buffer)@.skip(idx + 1)
        }),
{
    let idx = match find_newline(buffer) {
        None => {
            return None;
        },
        Some(idx) => idx,
    };
    let blen = buffer.len();
    let mut line: Vec<u8> = Vec::new();
    let mut i: usize = 0;
    while i <= idx
        invariant
            idx < blen,
            blen == buffer@.len(),
            i <= idx + 1,
            buffer@ == old(buffer)@,
            line@ == old(buffer)@.take(i as int),
        decreases idx + 1 - i,
    {
        let ghost prev = line@;
        line.push(buffer[i]);
        proof {
            assert(old(buffer)@.take(i + 1) =~= prev.push(old(buffer)@[i as int]));
        }
        i += 1;
    }
    let mut rest: Vec<u8> = Vec::new();
    let mut j: usize = idx + 1;
    while j < buffer.len()
        invariant
            idx < blen,
            blen == buffer@.len(),
            idx + 1 <= j <= buffer@.len(),
            buffer@ == old(buffer)@,
            rest@ == old(buffer)@.subrange(idx + 1, j as int),
        decreases buffer@.len() - j,
    {
        let ghost prev = rest@;
        rest.push(buffer[j]);
        proof {
            assert(old(buffer)@.subrange(idx as int + 1, j + 1) =~= prev.push(
                old(buffer)@[j as int],
            ));
        }
        j += 1;
    }
    *buffer = rest;
    proof {
        assert(buffer@ =~= old(buffer)@.skip(idx as int + 1));
    }
    Some(line)
}

/// Ten to the `n`-th.
pub open spec fn pow10(n: nat) -> int
    decreases n,
{
    if n == 0 {
        1
    } else {
        10 * pow10((n - 1) as nat)
    }
}

/// The number a sequence of ASCII digits denotes, most significant first.
pub open spec fn digits_val(s: Seq<u8>) -> int
    decreases s.len(),
{
    if s.len() == 0 {
        0
    } else {
        (s[0] - 48) * pow10((s.len() - 1) as nat) + digits_val(s.skip(1))
    }
}

/// Every byte is an ASCII digit.
pub open spec fn all_digits(s: Seq<u8>) -> bool {
    forall|j: int| 0 <= j < s.len() ==> 48 <= #[trigger] s[j] <= 57
}

/// The number denoted with the least significant digit first.
spec fn val_lsb(s: Seq<u8>) -> int
    decreases s.len(),
{
    if s.len() == 0 {
        0
    } else {
        val_lsb(s.drop_last()) + (s.last() - 48) * pow10((s.len() - 1) as nat)
    }
}

/// Reversing a digit sequence swaps the two readings.
proof fn lemma_reverse_val(rev: Seq<u8>, out: Seq<u8>)
    requires
        rev.len() == out.len(),
        forall|k: int| 0 <= k < out.len() ==> #[trigger] out[k] == rev[rev.len() - 1 - k],
    ensures
        digits_val(out) == val_lsb(rev),
    decreases rev.len(),
{
    if rev.len() > 0 {
        assert(forall|k: int|
            0 <= k < out.skip(1).len() ==> #[trigger] out.skip(1)[k] == rev.drop_last()[rev.len()
                - 2 - k]);
        lemma_reverse_val(rev.drop_last(), out.skip(1));
        assert(out[0] == rev.last());
    }
}

/// Render a counter in decimal: digits only, no leading zero (except for the
/// number zero itself), reading back to the same number.
pub fn format_uint(num: u32) -> (r: Vec<u8>)
    ensures
        all_digits(r@),
        r@.len() >= 1,
        digits_val(r@) == num,
        r@.len() > 1 ==> r@[0] != 48,
{
    let mut rev: Vec<u8> = Vec::new();
    let d0 = (num % 10) as u8 + 48;
    rev.push(d0);
    let mut n: u32 = num / 10;
    proof {
        assert(rev@.drop_last() =~= Seq::<u8>::empty());
        assert(num == val_lsb(rev@) + n * pow10(rev@.len() as nat)) by {
            assert(val_lsb(Seq::<u8>::empty()) == 0);
            assert(pow10(0) == 1);
            assert(pow10(1) == 10);
            assert(num == 10 * (num / 10) + num % 10);
        };
    }
    while n != 0
        invariant
            rev@.len() >= 1,
            num as int == val_lsb(rev@) + n * pow10(rev@.len() as nat),
            all_digits(rev@),
            (n == 0 && rev@.len() > 1) ==> rev@.last() != 48,
        decreases n,
    {
        let ghost prev = rev@;
        let ghost n0 = n;
        let d = (n % 10) as u8 + 48;
        rev.push(d);
        n = n / 10;
        proof {
            assert(rev@.drop_last() =~= prev);
            assert(val_lsb(rev@) == val_lsb(prev) + (d - 48) * pow10(prev.len() as nat));
            let p = pow10(prev.len() as nat);
            assert(pow10(rev@.len() as nat) == 10 * p);
            assert((n0 % 10) * p + (n0 / 10) * (10 * p) == n0 * p) by (nonlinear_arith)
                requires
                    n0 == 10 * (n0 / 10) + n0 % 10,
            ;
        }
    }
    proof {
        assert(n * pow10(rev@.len() as nat) == 0) by (nonlinear_arith)
            requires
                n == 0,
        ;
    }
    let mut out: Vec<u8> = Vec::new();
    let mut k: usize = rev.len();
    while k > 0
        invariant
            k <= rev@.len(),
            out@.len() == rev@.len() - k,
            forall|j: int| 0 <= j < out@.len() ==> #[trigger] out@[j] == rev@[rev@.len() - 1 - j],
        decreases k,
    {
        k -= 1;
        out.push(rev[k]);
    }
    proof {
        lemma_reverse_val(rev@, out@);
        if out@.len() > 1 {
            assert(out@[0] == rev@.last());
        }
    }
    out
}

/// The magnitude of a temperature's 1/16-degree count.
pub open spec fn abs_bits(t: Temperature) -> int {
    if t.bits < 0 {
        -(t.bits as int)
    } else {
        t.bits as int
    }
}

/// Decompose a temperature for display: its sign, its whole degrees, and
/// its fractional part in ten-thousandths of a degree (each 1/16 step is
/// 625 of them, so four zero-padded digits render it exactly).
pub fn temp_display_parts(t: Temperature) -> (r: (bool, u32, u32))
    ensures
        r.0 <==> t.bits < 0,
        r.1 == abs_bits(t) / 16,
        r.2 == (abs_bits(t) % 16) * 625,
        r.2 <= 9375,
{
    let neg = t.bits < 0;
    let a: u32 = if t.bits < 0 {
        (-(t.bits as i64)) as u32
    } else {
        t.bits as u32
    };
    let int_part = a / 16;
    let frac = (a % 16) * 625;
    (neg, int_part, frac)
}

} // verus!

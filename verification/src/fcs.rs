//! Frame check sequence of the LLC: a 32-bit CRC over the TL-SDU.

use crate::bits::{BitBuffer, BitsView};
use vstd::prelude::*;

verus! {

/// The generator polynomial without its leading term.
pub const FCS_POLYNOMIAL: u32 = 0x04C11DB7;

/// The CRC register after shifting in one bit.
pub open spec fn crc_step(crc: u32, bit: bool) -> u32 {
    if bit != (crc >> 31 == 1) {
        (crc << 1u32) ^ FCS_POLYNOMIAL
    } else {
        crc << 1u32
    }
}

/// The CRC register after shifting in `bits`, from the value `init`.
pub open spec fn crc_run(init: u32, bits: Seq<bool>) -> u32
    decreases bits.len(),
{
    if bits.len() == 0 {
        init
    } else {
        crc_step(crc_run(init, bits.drop_last()), bits.last())
    }
}

/// The start value of the register: all ones, aligned to the top for a string
/// that is shorter than the register.
pub open spec fn crc_init(len: nat) -> u32 {
    if 0 < len < 32 {
        0xFFFFFFFFu32 << ((32 - len) as u32)
    } else {
        0xFFFFFFFFu32
    }
}

/// The frame check sequence of a bit string.
pub open spec fn fcs_of(bits: Seq<bool>) -> u32 {
    !crc_run(crc_init(bits.len()), bits)
}

/// True when the last 32 of `bits` are the frame check sequence of the rest. With nothing
/// to check there is no valid one.
pub open spec fn fcs_valid(bits: Seq<bool>) -> bool {
    &&& bits.len() > 32
    &&& fcs_of(bits.take(bits.len() - 32)) as nat == crate::bits::bits_value(
        bits.skip(bits.len() - 32),
    )
}

/// Frame check sequence of the bits from index `start` up to `end`.
pub fn compute_fcs(bitbuf: &BitBuffer, start: usize, end: usize) -> (r: u32)
    requires
        start <= end <= bitbuf@.bits.len(),
    ensures
        r == fcs_of(bitbuf@.bits.subrange(start as int, end as int)),
{
    let len: usize = end - start;
    let mut crc: u32 = 0xFFFFFFFF;
    if len > 0 && len < 32 {
        let shift: u32 = 32 - len as u32;
        crc = crc << shift;
    }
    let ghost init = crc;
    let mut i: usize = 0;
    assert(bitbuf@.bits.subrange(start as int, start as int) =~= Seq::<bool>::empty());
    while i < len
        invariant
            i <= len,
            len == end - start,
            start <= end <= bitbuf@.bits.len(),
            crc == crc_run(init, bitbuf@.bits.subrange(start as int, start + i)),
        decreases len - i,
    {
        let bit: bool = bitbuf.get_bit(start + i);
        proof {
            let s0 = bitbuf@.bits.subrange(start as int, start + i);
            let s1 = bitbuf@.bits.subrange(start as int, start + i + 1);
            assert(s1.drop_last() =~= s0);
            assert(s1.last() == bit);
        }
        let feedback: bool = bit != (crc >> 31 == 1);
        crc = crc << 1;
        if feedback {
            crc = crc ^ FCS_POLYNOMIAL;
        }
        i = i + 1;
    }
    !crc
}

/// Checks the trailing 32 bits against the bits from the read position on. What
/// was read before, the LLC header, is not covered. A frame without payload is rejected.
pub fn check_fcs(bitbuf: &BitBuffer) -> (r: bool)
    ensures
        r == fcs_valid(bitbuf@.remaining()),
{
    if bitbuf.get_len_remaining() <= 32 {
        return false;
    }
    let pos: usize = bitbuf.get_pos();
    let end: usize = bitbuf.get_len() - 32;
    let computed: u32 = compute_fcs(bitbuf, pos, end);
    let extracted: Option<u64> = bitbuf.peek_bits_startoffset(end, 32);
    proof {
        let rem = bitbuf@.remaining();
        assert(rem.take(rem.len() - 32) =~= bitbuf@.bits.subrange(pos as int, end as int));
        assert(rem.skip(rem.len() - 32) =~= bitbuf@.bits.subrange(end as int, end + 32));
    }
    match extracted {
        Some(v) => computed as u64 == v,
        None => false,
    }
}

/// For a given input bit, different registers stay different.
proof fn lemma_crc_step_injective(a: u32, b: u32, bit: bool)
    requires
        a != b,
    ensures
        crc_step(a, bit) != crc_step(b, bit),
{
    assert(a != b ==> (if bit != (a >> 31 == 1) {
        (a << 1u32) ^ 0x04C11DB7u32
    } else {
        a << 1u32
    }) != (if bit != (b >> 31 == 1) {
        (b << 1u32) ^ 0x04C11DB7u32
    } else {
        b << 1u32
    })) by (bit_vector);
}

/// Different registers stay different over any common input.
proof fn lemma_crc_run_injective(a: u32, b: u32, bits: Seq<bool>)
    requires
        a != b,
    ensures
        crc_run(a, bits) != crc_run(b, bits),
    decreases bits.len(),
{
    if bits.len() > 0 {
        lemma_crc_run_injective(a, b, bits.drop_last());
        lemma_crc_step_injective(
            crc_run(a, bits.drop_last()),
            crc_run(b, bits.drop_last()),
            bits.last(),
        );
    }
}

/// Shifting in `x` and then `y` is shifting in their concatenation.
proof fn lemma_crc_run_concat(init: u32, x: Seq<bool>, y: Seq<bool>)
    ensures
        crc_run(init, x + y) == crc_run(crc_run(init, x), y),
    decreases y.len(),
{
    if y.len() == 0 {
        assert(x + y =~= x);
    } else {
        assert((x + y).drop_last() =~= x + y.drop_last());
        lemma_crc_run_concat(init, x, y.drop_last());
    }
}

/// When the low bits of two registers agree after a step, all but one of them agreed
/// before it: the lowest bit shows whether the polynomial went in.
proof fn lemma_step_back(u: u32, v: u32, p: bool, q: bool, i: u32)
    requires
        i <= 30,
        (crc_step(u, p) ^ crc_step(v, q)) << i == 0,
    ensures
        (u ^ v) << ((i + 1) as u32) == 0,
{
    assert(i <= 30 && ((if p != (u >> 31 == 1) {
        (u << 1u32) ^ 0x04C11DB7u32
    } else {
        u << 1u32
    }) ^ (if q != (v >> 31 == 1) {
        (v << 1u32) ^ 0x04C11DB7u32
    } else {
        v << 1u32
    })) << i == 0 ==> (u ^ v) << ((i + 1) as u32) == 0) by (bit_vector);
}

/// Going back over up to 31 steps of two runs.
proof fn lemma_run_back(x: u32, y: u32, a: Seq<bool>, b: Seq<bool>, i: u32)
    requires
        a.len() == b.len(),
        a.len() + i <= 31,
        (crc_run(x, a) ^ crc_run(y, b)) << i == 0,
    ensures
        (x ^ y) << ((i + a.len()) as u32) == 0,
    decreases a.len(),
{
    if a.len() > 0 {
        lemma_step_back(
            crc_run(x, a.drop_last()),
            crc_run(y, b.drop_last()),
            a.last(),
            b.last(),
            i,
        );
        lemma_run_back(x, y, a.drop_last(), b.drop_last(), (i + 1) as u32);
    }
}

/// From one register, two strings of up to 32 bits that begin differently lead to
/// different registers.
proof fn lemma_short_runs_differ(r: u32, a: Seq<bool>, b: Seq<bool>)
    requires
        a.len() == b.len(),
        1 <= a.len() <= 32,
        a[0] != b[0],
    ensures
        crc_run(r, a) != crc_run(r, b),
{
    let (a0, b0) = (a.take(1), b.take(1));
    let (a1, b1) = (a.skip(1), b.skip(1));
    assert(a =~= a0 + a1);
    assert(b =~= b0 + b1);
    lemma_crc_run_concat(r, a0, a1);
    lemma_crc_run_concat(r, b0, b1);
    reveal_with_fuel(crc_run, 2);
    assert(a0.drop_last() =~= Seq::<bool>::empty());
    assert(b0.drop_last() =~= Seq::<bool>::empty());
    let (x, y) = (crc_step(r, a[0]), crc_step(r, b[0]));
    let n = a1.len() as u32;
    assert(n <= 31 ==> (((r << 1u32) ^ 0x04C11DB7u32) ^ (r << 1u32)) << n != 0 && ((r << 1u32) ^ ((
    r << 1u32) ^ 0x04C11DB7u32)) << n != 0) by (bit_vector);
    if crc_run(r, a) == crc_run(r, b) {
        let z = crc_run(r, a);
        assert((z ^ z) << 0u32 == 0) by (bit_vector);
        lemma_run_back(x, y, a1, b1, 0);
    }
}

/// Only the bits that are covered count: what stands round them, and the read position,
/// does not matter.
pub proof fn law_fcs_depends_on_covered_bits(
    x: BitsView,
    sx: int,
    ex: int,
    y: BitsView,
    sy: int,
    ey: int,
)
    requires
        0 <= sx <= ex <= x.bits.len(),
        0 <= sy <= ey <= y.bits.len(),
        ex - sx == ey - sy,
        forall|k: int| 0 <= k < ex - sx ==> #[trigger] x.bits[sx + k] == y.bits[sy + k],
    ensures
        fcs_of(x.bits.subrange(sx, ex)) == fcs_of(y.bits.subrange(sy, ey)),
{
    let (a, b) = (x.bits.subrange(sx, ex), y.bits.subrange(sy, ey));
    assert forall|k: int| 0 <= k < a.len() implies a[k] == b[k] by {
        assert(x.bits[sx + k] == y.bits[sy + k]);
    }
    assert(a =~= b);
}

/// Two strings that differ in a burst of up to 32 bits have different frame check
/// sequences.
pub proof fn law_burst_changes_fcs(a: Seq<bool>, b: Seq<bool>, first: int, last: int)
    requires
        a.len() == b.len(),
        0 <= first <= last < a.len(),
        last - first < 32,
        a[first] != b[first],
        forall|k: int|
            0 <= k < a.len() && (k < first || k > last) ==> #[trigger] a[k] == b[k],
    ensures
        fcs_of(a) != fcs_of(b),
{
    let init = crc_init(a.len());
    let head = a.take(first);
    let tail = a.skip(last + 1);
    let (m, n) = (a.subrange(first, last + 1), b.subrange(first, last + 1));
    assert(a =~= head + m + tail);
    assert(b =~= head + n + tail);
    lemma_crc_run_concat(init, head + m, tail);
    lemma_crc_run_concat(init, head + n, tail);
    lemma_crc_run_concat(init, head, m);
    lemma_crc_run_concat(init, head, n);
    let r = crc_run(init, head);
    lemma_short_runs_differ(r, m, n);
    lemma_crc_run_injective(crc_run(r, m), crc_run(r, n), tail);
    let (x, y) = (crc_run(init, a), crc_run(init, b));
    assert(x != y ==> !x != !y) by (bit_vector);
}

/// A frame whose check sequence is valid is rejected after a burst of up to 32 payload
/// bits has changed.
pub proof fn law_payload_burst_rejected(frame: Seq<bool>, hit: Seq<bool>, first: int, last: int)
    requires
        fcs_valid(frame),
        hit.len() == frame.len(),
        0 <= first <= last < frame.len() - 32,
        last - first < 32,
        frame[first] != hit[first],
        forall|k: int|
            0 <= k < frame.len() && (k < first || k > last) ==> #[trigger] frame[k] == hit[k],
    ensures
        !fcs_valid(hit),
{
    let n = frame.len() - 32;
    law_burst_changes_fcs(frame.take(n), hit.take(n), first, last);
    assert(hit.skip(n) =~= frame.skip(n));
}

/// A frame whose check sequence is valid is rejected after any single payload
/// bit has been flipped.
pub proof fn law_payload_bit_flip_rejected(frame: Seq<bool>, i: int)
    requires
        fcs_valid(frame),
        0 <= i < frame.len() - 32,
    ensures
        !fcs_valid(frame.update(i, !frame[i])),
{
    law_payload_burst_rejected(frame, frame.update(i, !frame[i]), i, i);
}

/// The check sequence does not cover what was read before: flipping one of those
/// bits leaves the outcome as it was.
pub proof fn law_header_bit_flip_ignored(buf: BitsView, i: int)
    requires
        0 <= i < buf.pos <= buf.bits.len(),
    ensures
        fcs_valid((BitsView { bits: buf.bits.update(i, !buf.bits[i]), ..buf }).remaining())
            == fcs_valid(buf.remaining()),
{
    let flipped = BitsView { bits: buf.bits.update(i, !buf.bits[i]), ..buf };
    assert(flipped.remaining() =~= buf.remaining());
}

/// The string with its first 32 bits inverted, or all of them if it has fewer.
pub open spec fn head_inverted(bits: Seq<bool>) -> Seq<bool> {
    Seq::new(
        bits.len(),
        |i: int|
            if i < 32 {
                !bits[i]
            } else {
                bits[i]
            },
    )
}

/// Ones that have been shifted left by `n`.
spec fn ones_left(n: int) -> u32 {
    if 0 <= n < 32 {
        0xFFFFFFFFu32 << (n as u32)
    } else {
        0u32
    }
}

proof fn lemma_ones_left(n: int)
    requires
        n >= 0,
    ensures
        ones_left(n + 1) == ones_left(n) << 1u32,
        ones_left(n) >> 31 == 1u32 <==> n < 32,
{
    let k = n as u32;
    if n < 32 {
        assert(k <= 30 ==> (0xFFFFFFFFu32 << k) << 1u32 == 0xFFFFFFFFu32 << ((k + 1) as u32))
            by (bit_vector);
        assert((0xFFFFFFFFu32 << 31u32) << 1u32 == 0) by (bit_vector);
        assert(k <= 31 ==> (0xFFFFFFFFu32 << k) >> 31u32 == 1u32) by (bit_vector);
    } else {
        assert(0u32 << 1u32 == 0 && 0u32 >> 31u32 == 0) by (bit_vector);
    }
}

proof fn lemma_start_value_inverts(init: u32, s: int, bits: Seq<bool>, k: int)
    requires
        0 <= k <= bits.len(),
        0 <= s,
        init == ones_left(s),
        s == 0 || s + bits.len() == 32,
    ensures
        crc_run(init, bits.take(k)) == crc_run(0, head_inverted(bits).take(k)) ^ ones_left(s + k),
    decreases k,
{
    let inv = head_inverted(bits);
    if k == 0 {
        assert(0u32 ^ init == init) by (bit_vector);
    } else {
        lemma_start_value_inverts(init, s, bits, k - 1);
        lemma_ones_left(s + k - 1);
        let c = crc_run(0, inv.take(k - 1));
        let r = ones_left(s + k - 1);
        let (p, q) = (bits[k - 1], inv[k - 1]);
        assert(bits.take(k).drop_last() =~= bits.take(k - 1));
        assert(inv.take(k).drop_last() =~= inv.take(k - 1));
        assert(bits.take(k).last() == p);
        assert(inv.take(k).last() == q);
        let t = r >> 31 == 1u32;
        assert(q == (p != t));
        assert(t == (r >> 31u32 == 1u32) && q == (p != t) ==> (if p != ((c ^ r) >> 31u32 == 1u32) {
            ((c ^ r) << 1u32) ^ 0x04C11DB7u32
        } else {
            (c ^ r) << 1u32
        }) == (if q != (c >> 31u32 == 1u32) {
            (c << 1u32) ^ 0x04C11DB7u32
        } else {
            c << 1u32
        }) ^ (r << 1u32)) by (bit_vector);
    }
}

/// The frame check sequence is the inverse of what a register that starts at zero holds after
/// the string with its first 32 bits inverted, however short the string is.
pub proof fn law_fcs_inverts_head(bits: Seq<bool>)
    requires
        bits.len() > 0,
    ensures
        fcs_of(bits) == !crc_run(0, head_inverted(bits)),
{
    let n = bits.len() as int;
    let s = if n < 32 {
        32 - n
    } else {
        0
    };
    let init = crc_init(bits.len());
    assert(0xFFFFFFFFu32 << 0u32 == 0xFFFFFFFFu32) by (bit_vector);
    lemma_start_value_inverts(init, s, bits, n);
    assert(bits.take(n) =~= bits);
    assert(head_inverted(bits).take(n) =~= head_inverted(bits));
    let c = crc_run(0, head_inverted(bits));
    assert(c ^ 0u32 == c) by (bit_vector);
}

/// A frame is sound exactly if there is a payload and behind it stands its check sequence, 32
/// bits long, the most significant bit first.
pub proof fn law_frame_with_its_fcs(payload: Seq<bool>, check: Seq<bool>)
    requires
        check.len() == 32,
    ensures
        fcs_valid(payload + check) <==> payload.len() > 0 && crate::bits::bits_value(check)
            == fcs_of(payload),
{
    let f = payload + check;
    assert(f.take(f.len() - 32) =~= payload);
    assert(f.skip(f.len() - 32) =~= check);
}

} // verus!

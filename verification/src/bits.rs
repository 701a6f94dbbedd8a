//! Bit strings with a read position.

use vstd::arithmetic::power2::pow2;
use vstd::prelude::*;

verus! {

/// The value of a bit string read with the most significant bit first.
pub open spec fn bits_value(bits: Seq<bool>) -> nat
    decreases bits.len(),
{
    if bits.len() == 0 {
        0
    } else {
        2 * bits_value(bits.drop_last()) + (if bits.last() {
            1nat
        } else {
            0nat
        })
    }
}

/// What a [`BitBuffer`] holds: its bits and how many of them have been read.
#[verifier::ext_equal]
pub struct BitsView {
    pub bits: Seq<bool>,
    pub pos: int,
}

impl BitsView {
    /// The bits that have not been read yet.
    pub open spec fn remaining(self) -> Seq<bool> {
        self.bits.subrange(self.pos, self.bits.len() as int)
    }
}

/// A string of bits with a read position.
#[derive(Debug)]
pub struct BitBuffer {
    bits: Vec<bool>,
    pos: usize,
}

impl View for BitBuffer {
    type V = BitsView;

    closed spec fn view(&self) -> BitsView {
        BitsView { bits: self.bits@, pos: self.pos as int }
    }
}

impl BitBuffer {
    /// The read position lies inside the buffer.
    #[verifier::type_invariant]
    spec fn inv(self) -> bool {
        self.pos <= self.bits@.len()
    }

    /// A buffer over `bits`, positioned at its first bit.
    pub fn from_bits(bits: Vec<bool>) -> (r: BitBuffer)
        ensures
            r@ == (BitsView { bits: bits@, pos: 0 }),
    {
        BitBuffer { bits, pos: 0 }
    }

    /// A buffer that holds one bit per character, `'1'` for a set bit.
    pub fn from_bitstr(s: &str) -> (r: BitBuffer)
        ensures
            r@ == (BitsView { bits: s@.map_values(|c: char| c == '1'), pos: 0 }),
    {
        let n: usize = s.unicode_len();
        let mut bits: Vec<bool> = Vec::new();
        let mut i: usize = 0;
        while i < n
            invariant
                i <= n,
                n == s@.len(),
                bits@ =~= s@.take(i as int).map_values(|c: char| c == '1'),
            decreases n - i,
        {
            bits.push(s.get_char(i) == '1');
            i = i + 1;
        }
        assert(s@.take(n as int) =~= s@);
        BitBuffer { bits, pos: 0 }
    }

    /// Number of bits, read or not.
    pub fn get_len(&self) -> (r: usize)
        ensures
            r == self@.bits.len(),
    {
        self.bits.len()
    }

    /// The read position.
    pub fn get_pos(&self) -> (r: usize)
        ensures
            r == self@.pos,
            r <= self@.bits.len(),
    {
        proof {
            use_type_invariant(self);
        }
        self.pos
    }

    /// Number of bits left to read.
    pub fn get_len_remaining(&self) -> (r: usize)
        ensures
            r == self@.bits.len() - self@.pos,
            r == self@.remaining().len(),
    {
        proof {
            use_type_invariant(self);
        }
        self.bits.len() - self.pos
    }

    /// Moves the read position.
    pub fn seek(&mut self, pos: usize)
        requires
            pos <= old(self)@.bits.len(),
        ensures
            final(self)@ == (BitsView { pos: pos as int, ..old(self)@ }),
    {
        self.pos = pos;
    }

    /// The `n` bits from index `start` on as a number, or `None` when the buffer
    /// ends before or `n` exceeds 64.
    pub fn peek_bits_startoffset(&self, start: usize, n: usize) -> (r: Option<u64>)
        ensures
            r is Some <==> n <= 64 && start + n <= self@.bits.len(),
            r matches Some(v) ==> v as nat == bits_value(
                self@.bits.subrange(start as int, start + n),
            ),
    {
        if n > 64 || start > self.bits.len() || n > self.bits.len() - start {
            return None;
        }
        let mut v: u64 = 0;
        let mut i: usize = 0;
        proof {
            vstd::arithmetic::power2::lemma2_to64();
            assert(self.bits@.subrange(start as int, start as int) =~= Seq::<bool>::empty());
        }
        while i < n
            invariant
                i <= n <= 64,
                start + n <= self.bits.len(),
                v as nat == bits_value(self.bits@.subrange(start as int, start + i)),
                v < vstd::arithmetic::power2::pow2(i as nat),
            decreases n - i,
        {
            let bit: bool = self.bits[start + i];
            proof {
                vstd::arithmetic::power2::lemma_pow2_unfold((i + 1) as nat);
                vstd::arithmetic::power2::lemma2_to64_rest();
                vstd::arithmetic::power2::lemma2_to64();
                if i < 63 {
                    vstd::arithmetic::power2::lemma_pow2_strictly_increases((i + 1) as nat, 64);
                }
                let s0 = self.bits@.subrange(start as int, start + i);
                let s1 = self.bits@.subrange(start as int, start + i + 1);
                assert(s1.drop_last() =~= s0);
                assert(s1.last() == bit);
            }
            v = v * 2 + (if bit {
                1
            } else {
                0
            });
            i = i + 1;
        }
        Some(v)
    }

    /// The bit at index `i`.
    pub fn get_bit(&self, i: usize) -> (r: bool)
        requires
            i < self@.bits.len(),
        ensures
            r == self@.bits[i as int],
    {
        self.bits[i]
    }

    /// The bits that have not been read yet.
    pub fn take_remaining(self) -> (r: Vec<bool>)
        ensures
            r@ == self@.remaining(),
    {
        proof {
            use_type_invariant(&self);
        }
        copy_range(&self.bits, self.pos, self.bits.len())
    }

    /// A second buffer with the same bits and position.
    pub fn duplicate(&self) -> (r: BitBuffer)
        ensures
            r@ == self@,
    {
        proof {
            use_type_invariant(self);
        }
        let bits: Vec<bool> = copy_range(&self.bits, 0, self.bits.len());
        assert(bits@ =~= self.bits@);
        BitBuffer { bits, pos: self.pos }
    }
}

/// The elements of `v` from index `start` up to `end`.
fn copy_range(v: &Vec<bool>, start: usize, end: usize) -> (r: Vec<bool>)
    requires
        start <= end <= v@.len(),
    ensures
        r@ == v@.subrange(start as int, end as int),
{
    let mut r: Vec<bool> = Vec::new();
    let mut i: usize = start;
    while i < end
        invariant
            start <= i <= end <= v@.len(),
            r@ == v@.subrange(start as int, i as int),
        decreases end - i,
    {
        r.push(v[i]);
        i = i + 1;
    }
    r
}

/// The first bit of a string has the greatest weight: its value is that bit times the number of
/// values that the rest can have, plus the value of the rest. Every value is below the number of
/// strings of its length.
pub proof fn law_first_bit_weighs_most(bits: Seq<bool>)
    requires
        bits.len() > 0,
    ensures
        bits_value(bits) == (if bits[0] {
            pow2((bits.len() - 1) as nat)
        } else {
            0nat
        }) + bits_value(bits.drop_first()),
        bits_value(bits) < pow2(bits.len()),
    decreases bits.len(),
{
    let n = bits.len();
    vstd::arithmetic::power2::lemma_pow2_unfold(n);
    if n == 1 {
        assert(bits.drop_first() =~= Seq::<bool>::empty());
        assert(bits.drop_last() =~= Seq::<bool>::empty());
        assert(bits.last() == bits[0]);
        vstd::arithmetic::power2::lemma2_to64();
    } else {
        let h = bits.drop_last();
        law_first_bit_weighs_most(h);
        vstd::arithmetic::power2::lemma_pow2_unfold((n - 1) as nat);
        assert(bits.drop_first().drop_last() =~= h.drop_first());
        assert(bits.drop_first().last() == bits.last());
        assert(h[0] == bits[0]);
    }
}

} // verus!

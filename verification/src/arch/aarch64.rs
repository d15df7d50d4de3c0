//! The lane mask as a machine without a byte-mask instruction makes it: each
//! sixteen-bit pair of lanes is shifted right by four and narrowed to a byte,
//! which leaves four bits a lane in a 64-bit word.
//!
//! The register operations of such a machine compare bytes as unsigned
//! numbers, and are those of [`fallback`](super::fallback).

use crate::arch::fallback::byte;
use crate::arch::lane::{is_boolean, is_lane_bits, lane};
use vstd::prelude::*;

pub use crate::arch::fallback::{
    and, eq, greater_than, greater_than_or_eq, less_than, less_than_or_eq, load, load_aligned,
    load_partial, load_unchecked, not, or, splat, xor, Vector, STEP,
};

verus! {

/// The four bits that lane `i` has in a mask.
pub open spec fn nibble_of(m: u64, i: int) -> u8 {
    ((m >> ((4 * i) as u64)) & 0xF) as u8
}

/// What the narrowing shift keeps of the byte in lane `i`: the high four bits
/// of a lane with an even index, the low four bits of one with an odd index.
pub open spec fn narrowed(b: u8, i: int) -> u8 {
    if i % 2 == 0 {
        b >> 4
    } else {
        b & 0xF
    }
}

proof fn lemma_put_nibble(m: u64, n: u64, at: u64, sh: u64)
    by (bit_vector)
    requires
        at < 64,
        at % 4 == 0,
        sh < 64,
        sh % 4 == 0,
        n <= 0xF,
        (m >> at) & 0xF == 0,
    ensures
        sh != at ==> ((m | (n << at)) >> sh) & 0xF == (m >> sh) & 0xF,
        sh == at ==> ((m | (n << at)) >> sh) & 0xF == n,
{
}

proof fn lemma_nibble_bound(m: u64, sh: u64)
    by (bit_vector)
    ensures
        (m >> sh) & 0xF <= 0xF,
        (0u64 >> sh) & 0xF == 0,
{
}

proof fn lemma_narrowed_bound(b: u8)
    by (bit_vector)
    ensures
        b >> 4 <= 0xF,
        b & 0xF <= 0xF,
        b == 0xFF ==> b >> 4 == 0xF && b & 0xF == 0xF,
        b == 0 ==> b >> 4 == 0 && b & 0xF == 0,
{
}

proof fn lemma_full_nibbles(m: u64)
    by (bit_vector)
    ensures
        m == 0xFFFF_FFFF_FFFF_FFFF <==> ((m >> 0u64) & 0xF == 0xF && (m >> 4u64) & 0xF == 0xF && (m
            >> 8u64) & 0xF == 0xF && (m >> 12u64) & 0xF == 0xF && (m >> 16u64) & 0xF == 0xF && (m
            >> 20u64) & 0xF == 0xF && (m >> 24u64) & 0xF == 0xF && (m >> 28u64) & 0xF == 0xF && (m
            >> 32u64) & 0xF == 0xF && (m >> 36u64) & 0xF == 0xF && (m >> 40u64) & 0xF == 0xF && (m
            >> 44u64) & 0xF == 0xF && (m >> 48u64) & 0xF == 0xF && (m >> 52u64) & 0xF == 0xF && (m
            >> 56u64) & 0xF == 0xF && (m >> 60u64) & 0xF == 0xF),
{
}

proof fn lemma_nibble_of_bits(m: u64, j0: u64, j1: u64, j2: u64, j3: u64)
    by (bit_vector)
    requires
        j0 < 64,
        j0 % 4 == 0,
        j1 == j0 + 1,
        j2 == j0 + 2,
        j3 == j0 + 3,
    ensures
        (m >> j0) & 0xF == 0 <==> ((m >> j0) & 1 == 0 && (m >> j1) & 1 == 0 && (m >> j2) & 1 == 0
            && (m >> j3) & 1 == 0),
        (m >> j0) & 0xF == 0xF <==> ((m >> j0) & 1 == 1 && (m >> j1) & 1 == 1 && (m >> j2) & 1
            == 1 && (m >> j3) & 1 == 1),
{
}

proof fn lemma_quarter(t: u32)
    by (bit_vector)
    ensures
        t >> 2 == t / 4,
{
}

/// The lane mask of a register, four bits a lane.
pub struct MoveMask(u64);

impl View for MoveMask {
    type V = Seq<u8>;

    /// The four bits of each of the sixteen lanes, lane 0 first.
    closed spec fn view(&self) -> Seq<u8> {
        Seq::new(16, |i: int| nibble_of(self.0, i))
    }
}

impl MoveMask {
    /// What [`MoveMask::trailing_zeros`] returns when no lane is set.
    pub const MAX_TRAIL: u32 = 16;

    /// The mask of `input`: the four bits of lane `i` are the high four bits
    /// of the lane's byte if `i` is even, and its low four bits if `i` is odd.
    /// Of a register whose lanes are all ones or all zeros these are `0xF`
    /// where the lane is all ones, and zero where it is all zeros.
    #[must_use]
    pub fn new(input: Vector) -> (mask: Self)
        ensures
            mask@.len() == 16,
            forall|i: int| 0 <= i < 16 ==> #[trigger] mask@[i] == narrowed(lane(input, i), i),
            forall|i: int| 0 <= i < 16 && lane(input, i) == 0xFF ==> #[trigger] mask@[i] == 0xF,
            forall|i: int| 0 <= i < 16 && lane(input, i) == 0 ==> #[trigger] mask@[i] == 0,
    {
        let mut result: u64 = 0;
        let mut i: u32 = 0;
        proof {
            assert forall|j: int| 0 <= j < 16 implies nibble_of(result, j) == 0 by {
                lemma_nibble_bound(0, (4 * j) as u64);
            }
        }
        while i < 16
            invariant
                i <= 16,
                forall|j: int|
                    0 <= j < i ==> #[trigger] nibble_of(result, j) == narrowed(lane(input, j), j),
                forall|j: int| i <= j < 16 ==> #[trigger] nibble_of(result, j) == 0,
            decreases 16 - i,
        {
            let b = byte(input, i);
            let kept: u8 = if i % 2 == 0 {
                b >> 4
            } else {
                b & 0xF
            };
            let at: u64 = 4 * (i as u64);
            proof {
                lemma_narrowed_bound(b);
                assert forall|sh: u64| (result >> sh) & 0xF <= 0xF by {
                    lemma_nibble_bound(result, sh);
                }
                assert(nibble_of(result, i as int) == 0);
                assert forall|j: int| 0 <= j < 16 implies #[trigger] nibble_of(
                    result | ((kept as u64) << at),
                    j,
                ) == (if j == i {
                    kept
                } else {
                    nibble_of(result, j)
                }) by {
                    lemma_put_nibble(result, kept as u64, at, (4 * j) as u64);
                }
            }
            result |= (kept as u64) << at;
            i += 1;
        }
        proof {
            assert forall|i: int| 0 <= i < 16 implies (lane(input, i) == 0xFF ==> nibble_of(
                result,
                i,
            ) == 0xF) && (lane(input, i) == 0 ==> nibble_of(result, i) == 0) by {
                lemma_narrowed_bound(lane(input, i));
            }
        }
        Self(result)
    }

    /// Whether all four bits of every lane are set.
    #[must_use]
    pub fn all_bits_set(&self) -> (r: bool)
        ensures
            r == (forall|i: int| 0 <= i < 16 ==> self@[i] == 0xF),
    {
        proof {
            let m = self.0;
            lemma_full_nibbles(m);
            assert forall|sh: u64| (m >> sh) & 0xF <= 0xF by {
                lemma_nibble_bound(m, sh);
            }
            assert forall|i: int| 0 <= i < 16 implies self@[i] == nibble_of(m, i) by {}
            assert((nibble_of(m, 0) == 0xF) == ((m >> 0u64) & 0xF == 0xF));
            assert((nibble_of(m, 1) == 0xF) == ((m >> 4u64) & 0xF == 0xF));
            assert((nibble_of(m, 2) == 0xF) == ((m >> 8u64) & 0xF == 0xF));
            assert((nibble_of(m, 3) == 0xF) == ((m >> 12u64) & 0xF == 0xF));
            assert((nibble_of(m, 4) == 0xF) == ((m >> 16u64) & 0xF == 0xF));
            assert((nibble_of(m, 5) == 0xF) == ((m >> 20u64) & 0xF == 0xF));
            assert((nibble_of(m, 6) == 0xF) == ((m >> 24u64) & 0xF == 0xF));
            assert((nibble_of(m, 7) == 0xF) == ((m >> 28u64) & 0xF == 0xF));
            assert((nibble_of(m, 8) == 0xF) == ((m >> 32u64) & 0xF == 0xF));
            assert((nibble_of(m, 9) == 0xF) == ((m >> 36u64) & 0xF == 0xF));
            assert((nibble_of(m, 10) == 0xF) == ((m >> 40u64) & 0xF == 0xF));
            assert((nibble_of(m, 11) == 0xF) == ((m >> 44u64) & 0xF == 0xF));
            assert((nibble_of(m, 12) == 0xF) == ((m >> 48u64) & 0xF == 0xF));
            assert((nibble_of(m, 13) == 0xF) == ((m >> 52u64) & 0xF == 0xF));
            assert((nibble_of(m, 14) == 0xF) == ((m >> 56u64) & 0xF == 0xF));
            assert((nibble_of(m, 15) == 0xF) == ((m >> 60u64) & 0xF == 0xF));
            if forall|i: int| 0 <= i < 16 ==> self@[i] == 0xF {
                assert(
                    self@[0] == 0xF && self@[1] == 0xF && self@[2] == 0xF && self@[3] == 0xF &&
                        self@[4] == 0xF && self@[5] == 0xF && self@[6] == 0xF &&
                        self@[7] == 0xF && self@[8] == 0xF && self@[9] == 0xF &&
                        self@[10] == 0xF && self@[11] == 0xF && self@[12] == 0xF &&
                        self@[13] == 0xF && self@[14] == 0xF && self@[15] == 0xF);
            }
        }
        self.0 == 0xFFFF_FFFF_FFFF_FFFF
    }

    /// The first lane with a bit set, or [`MoveMask::MAX_TRAIL`] if there is
    /// none: the count of the word's trailing zero bits, in lanes.
    #[must_use]
    pub fn trailing_zeros(&self) -> (r: u32)
        ensures
            r <= 16,
            forall|i: int| 0 <= i < r ==> self@[i] == 0,
            r < 16 ==> self@[r as int] != 0,
    {
        let bits = self.0.trailing_zeros();
        let r = bits >> 2;
        proof {
            let m = self.0;
            lemma_quarter(bits);
            assert forall|sh: u64| (m >> sh) & 0xF <= 0xF by {
                lemma_nibble_bound(m, sh);
            }
            assert forall|i: int| 0 <= i < r implies self@[i] == 0 by {
                let j0 = (4 * i) as u64;
                let j1 = (4 * i + 1) as u64;
                let j2 = (4 * i + 2) as u64;
                let j3 = (4 * i + 3) as u64;
                assert((m >> j0) & 1u64 == 0u64);
                assert((m >> j1) & 1u64 == 0u64);
                assert((m >> j2) & 1u64 == 0u64);
                assert((m >> j3) & 1u64 == 0u64);
                lemma_nibble_of_bits(m, j0, j1, j2, j3);
            }
            if r < 16 {
                let j0 = (4 * r) as u64;
                let j1 = (4 * r + 1) as u64;
                let j2 = (4 * r + 2) as u64;
                let j3 = (4 * r + 3) as u64;
                assert((m >> (bits as u64)) & 1u64 == 1u64);
                assert(bits == j0 || bits == j1 || bits == j2 || bits == j3);
                lemma_nibble_of_bits(m, j0, j1, j2, j3);
            }
        }
        r
    }

    /// The first lane with a bit that is not set, or [`MoveMask::MAX_TRAIL`]
    /// if there is none: the count of the word's trailing one bits, in lanes.
    #[must_use]
    pub fn trailing_ones(&self) -> (r: u32)
        ensures
            r <= 16,
            forall|i: int| 0 <= i < r ==> self@[i] == 0xF,
            r < 16 ==> self@[r as int] != 0xF,
    {
        let bits = self.0.trailing_ones();
        let r = bits >> 2;
        proof {
            let m = self.0;
            lemma_quarter(bits);
            assert forall|sh: u64| (m >> sh) & 0xF <= 0xF by {
                lemma_nibble_bound(m, sh);
            }
            assert forall|i: int| 0 <= i < r implies self@[i] == 0xF by {
                let j0 = (4 * i) as u64;
                let j1 = (4 * i + 1) as u64;
                let j2 = (4 * i + 2) as u64;
                let j3 = (4 * i + 3) as u64;
                assert((m >> j0) & 1u64 == 1u64);
                assert((m >> j1) & 1u64 == 1u64);
                assert((m >> j2) & 1u64 == 1u64);
                assert((m >> j3) & 1u64 == 1u64);
                lemma_nibble_of_bits(m, j0, j1, j2, j3);
            }
            if r < 16 {
                let j0 = (4 * r) as u64;
                let j1 = (4 * r + 1) as u64;
                let j2 = (4 * r + 2) as u64;
                let j3 = (4 * r + 3) as u64;
                assert((m >> (bits as u64)) & 1u64 == 0u64);
                assert(bits == j0 || bits == j1 || bits == j2 || bits == j3);
                lemma_nibble_of_bits(m, j0, j1, j2, j3);
            }
        }
        r
    }
}

/// Of a register whose lanes are all ones or all zeros, the four bits that a
/// lane has in this mask are all set where the lane's bit in the one-bit mask
/// is set, and all clear where it is not: counted in lanes, the two masks say
/// the same.
pub proof fn lemma_boolean_nibbles_agree(nibbles: Seq<u8>, bits: Seq<bool>, v: Vector)
    requires
        is_boolean(v),
        is_lane_bits(bits, v),
        nibbles.len() == 16,
        forall|i: int| 0 <= i < 16 ==> #[trigger] nibbles[i] == narrowed(lane(v, i), i),
    ensures
        forall|i: int| 0 <= i < 16 ==> #[trigger] nibbles[i] == (if bits[i] {
            0xFu8
        } else {
            0u8
        }),
{
    assert forall|i: int| 0 <= i < 16 implies #[trigger] nibbles[i] == (if bits[i] {
        0xFu8
    } else {
        0u8
    }) by {
        assert(lane(v, i) == 0 || lane(v, i) == 0xFF);
        lemma_narrowed_bound(lane(v, i));
        lemma_low_bit_of_boolean(lane(v, i));
    }
}

proof fn lemma_low_bit_of_boolean(b: u8)
    by (bit_vector)
    ensures
        b == 0xFF ==> b & 1 == 1,
        b == 0 ==> b & 1 == 0,
{
}

} // verus!

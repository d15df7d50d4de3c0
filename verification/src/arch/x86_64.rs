//! The register as a machine that compares bytes as signed numbers sees it,
//! computed lane by lane on the portable register.
//!
//! Equality, the bit operations, `splat` and the loads are those of
//! [`fallback`](super::fallback). The comparisons here order `0x80..=0xFF`
//! below `0x00..=0x7F`, and the lane mask takes each lane's high bit.

use crate::arch::fallback::{byte, flag, with_byte};
use crate::arch::lane::{
    is_high_bits, lane, lemma_bitwise_lanes, lemma_lanes_determine, lemma_truth_algebra,
    lemma_zero_lanes, signed, truth,
};
use vstd::prelude::*;

pub use crate::arch::fallback::{
    and, eq, load, load_aligned, load_partial, load_unchecked, maybe_aligned_load, or, splat, xor,
    Vector, STEP,
};

verus! {

proof fn lemma_flipped_sign(x: u8)
    by (bit_vector)
    ensures
        x < 128 ==> (x ^ 0x80) == x + 128,
        x >= 128 ==> (x ^ 0x80) == x - 128,
        x ^ 0xFF == !x,
{
}

/// Every bit inverted: the exclusive or with a register of all ones.
#[must_use]
pub fn not(a: Vector) -> (r: Vector)
    ensures
        r == !a,
        forall|i: int| 0 <= i < 16 ==> #[trigger] lane(r, i) == !lane(a, i),
{
    let ones = splat(0xFF);
    let r = xor(a, ones);
    proof {
        lemma_bitwise_lanes(a, a);
        assert forall|i: int| 0 <= i < 16 implies lane(r, i) == lane(!a, i) by {
            lemma_flipped_sign(lane(a, i));
        }
        lemma_lanes_determine(r, !a);
    }
    r
}

/// Lanes of `a` that are above the lane of `b`, as signed bytes.
#[must_use]
pub fn greater_than(a: Vector, b: Vector) -> (r: Vector)
    ensures
        forall|i: int|
            0 <= i < 16 ==> #[trigger] lane(r, i) == truth(
                signed(lane(a, i)) > signed(lane(b, i)),
            ),
{
    let mut result: Vector = 0;
    let mut i: u32 = 0;
    proof {
        lemma_zero_lanes();
    }
    while i < 16
        invariant
            i <= 16,
            forall|j: int|
                0 <= j < i ==> #[trigger] lane(result, j) == truth(
                    signed(lane(a, j)) > signed(lane(b, j)),
                ),
            forall|j: int| i <= j < 16 ==> #[trigger] lane(result, j) == 0,
        decreases 16 - i,
    {
        let x = byte(a, i);
        let y = byte(b, i);
        proof {
            lemma_flipped_sign(x);
            lemma_flipped_sign(y);
        }
        result = with_byte(result, i, flag((x ^ 0x80) > (y ^ 0x80)));
        i += 1;
    }
    result
}

/// Lanes of `a` that are below the lane of `b`, as signed bytes.
#[must_use]
pub fn less_than(a: Vector, b: Vector) -> (r: Vector)
    ensures
        forall|i: int|
            0 <= i < 16 ==> #[trigger] lane(r, i) == truth(
                signed(lane(a, i)) < signed(lane(b, i)),
            ),
{
    let mut result: Vector = 0;
    let mut i: u32 = 0;
    proof {
        lemma_zero_lanes();
    }
    while i < 16
        invariant
            i <= 16,
            forall|j: int|
                0 <= j < i ==> #[trigger] lane(result, j) == truth(
                    signed(lane(a, j)) < signed(lane(b, j)),
                ),
            forall|j: int| i <= j < 16 ==> #[trigger] lane(result, j) == 0,
        decreases 16 - i,
    {
        let x = byte(a, i);
        let y = byte(b, i);
        proof {
            lemma_flipped_sign(x);
            lemma_flipped_sign(y);
        }
        result = with_byte(result, i, flag((x ^ 0x80) < (y ^ 0x80)));
        i += 1;
    }
    result
}

/// Lanes of `a` that are at least the lane of `b`, as signed bytes: the
/// complement of [`less_than`].
#[must_use]
pub fn greater_than_or_eq(a: Vector, b: Vector) -> (r: Vector)
    ensures
        forall|i: int|
            0 <= i < 16 ==> #[trigger] lane(r, i) == truth(
                signed(lane(a, i)) >= signed(lane(b, i)),
            ),
{
    let below = less_than(a, b);
    let r = not(below);
    proof {
        assert forall|i: int| 0 <= i < 16 implies #[trigger] lane(r, i) == truth(
            signed(lane(a, i)) >= signed(lane(b, i)),
        ) by {
            lemma_flipped_sign(lane(below, i));
            assert(lane(below, i) == truth(signed(lane(a, i)) < signed(lane(b, i))));
            lemma_truth_algebra(signed(lane(a, i)) < signed(lane(b, i)), true);
        }
    }
    r
}

/// Lanes of `a` that are at most the lane of `b`, as signed bytes: the
/// complement of [`greater_than`].
#[must_use]
pub fn less_than_or_eq(a: Vector, b: Vector) -> (r: Vector)
    ensures
        forall|i: int|
            0 <= i < 16 ==> #[trigger] lane(r, i) == truth(
                signed(lane(a, i)) <= signed(lane(b, i)),
            ),
{
    let above = greater_than(a, b);
    let r = not(above);
    proof {
        assert forall|i: int| 0 <= i < 16 implies #[trigger] lane(r, i) == truth(
            signed(lane(a, i)) <= signed(lane(b, i)),
        ) by {
            assert(lane(above, i) == truth(signed(lane(a, i)) > signed(lane(b, i))));
            lemma_truth_algebra(signed(lane(a, i)) > signed(lane(b, i)), true);
        }
    }
    r
}

/// Bit `i` of a lane mask.
pub open spec fn bit_of(m: u32, i: int) -> bool {
    (m >> (i as u32)) & 1 == 1
}

proof fn lemma_put_bit(m: u32, b: u32, k: u32, j: u32)
    by (bit_vector)
    requires
        k < 16,
        j < 16,
        b <= 1,
        (m >> k) & 1 != 1,
        m <= 0xFFFF,
    ensures
        j != k ==> ((m | (b << k)) >> j) & 1 == (m >> j) & 1,
        j == k ==> ((m | (b << k)) >> j) & 1 == b,
        (m | (b << k)) <= 0xFFFF,
{
}

proof fn lemma_no_bit(j: u32)
    by (bit_vector)
    ensures
        (0u32 >> j) & 1 == 0,
{
}

proof fn lemma_high_bit(b: u8)
    by (bit_vector)
    ensures
        b >> 7 <= 1,
        b >> 7 == 1 <==> b >= 0x80,
{
}

proof fn lemma_full_and_empty_bits(m: u32)
    by (bit_vector)
    requires
        m <= 0xFFFF,
    ensures
        m == 0xFFFF <==> ((m >> 0u32) & 1 == 1 && (m >> 1u32) & 1 == 1 && (m >> 2u32) & 1 == 1 && (m
            >> 3u32) & 1 == 1 && (m >> 4u32) & 1 == 1 && (m >> 5u32) & 1 == 1 && (m >> 6u32) & 1
            == 1 && (m >> 7u32) & 1 == 1 && (m >> 8u32) & 1 == 1 && (m >> 9u32) & 1 == 1 && (m
            >> 10u32) & 1 == 1 && (m >> 11u32) & 1 == 1 && (m >> 12u32) & 1 == 1 && (m >> 13u32)
            & 1 == 1 && (m >> 14u32) & 1 == 1 && (m >> 15u32) & 1 == 1),
{
}

proof fn lemma_no_bit_above(m: u32, j: u32)
    by (bit_vector)
    requires
        m <= 0xFFFF,
        16 <= j < 32,
    ensures
        (m >> j) & 1 == 0,
{
}

/// The lane mask of a register as a byte-mask instruction gives it: one bit a
/// lane, set where the lane's high bit is set, in the low sixteen bits of a
/// wider word.
pub struct MoveMask(u32);

impl View for MoveMask {
    type V = Seq<bool>;

    /// The sixteen lane bits, lane 0 first.
    closed spec fn view(&self) -> Seq<bool> {
        Seq::new(16, |i: int| bit_of(self.0, i))
    }
}

impl MoveMask {
    /// What [`MoveMask::trailing_zeros`] returns when no lane is set: the
    /// number of lanes.
    pub const MAX_TRAIL: u32 = 16;

    /// No bit above the sixteen lane bits is set.
    #[verifier::type_invariant]
    closed spec fn inv(self) -> bool {
        self.0 <= 0xFFFF
    }

    /// The mask of `input`: bit `i` is the high bit of lane `i`.
    #[must_use]
    pub fn new(input: Vector) -> (mask: Self)
        ensures
            is_high_bits(mask@, input),
    {
        let mut result: u32 = 0;
        let mut i: u32 = 0;
        proof {
            assert forall|j: int| 0 <= j < 16 implies !bit_of(result, j) by {
                lemma_no_bit(j as u32);
            }
        }
        while i < 16
            invariant
                i <= 16,
                result <= 0xFFFF,
                forall|j: int|
                    0 <= j < i ==> #[trigger] bit_of(result, j) == (lane(input, j) >= 0x80),
                forall|j: int| i <= j < 16 ==> !#[trigger] bit_of(result, j),
            decreases 16 - i,
        {
            let high: u8 = byte(input, i) >> 7;
            proof {
                lemma_high_bit(lane(input, i as int));
                assert(!bit_of(result, i as int));
                assert forall|j: int| 0 <= j < 16 implies #[trigger] bit_of(
                    result | ((high as u32) << i),
                    j,
                ) == (if j == i {
                    high == 1
                } else {
                    bit_of(result, j)
                }) by {
                    lemma_put_bit(result, high as u32, i, j as u32);
                }
                lemma_put_bit(result, high as u32, i, i);
            }
            result |= (high as u32) << i;
            i += 1;
        }
        Self(result)
    }

    /// Whether every lane is set.
    #[must_use]
    pub fn all_bits_set(&self) -> (r: bool)
        ensures
            r == (forall|i: int| 0 <= i < 16 ==> self@[i]),
    {
        proof {
            use_type_invariant(self);
            lemma_full_and_empty_bits(self.0);
            assert forall|i: int| 0 <= i < 16 implies self@[i] == bit_of(self.0, i) by {}
            assert(bit_of(self.0, 0) == ((self.0 >> 0u32) & 1 == 1));
            assert(bit_of(self.0, 1) == ((self.0 >> 1u32) & 1 == 1));
            assert(bit_of(self.0, 2) == ((self.0 >> 2u32) & 1 == 1));
            assert(bit_of(self.0, 3) == ((self.0 >> 3u32) & 1 == 1));
            assert(bit_of(self.0, 4) == ((self.0 >> 4u32) & 1 == 1));
            assert(bit_of(self.0, 5) == ((self.0 >> 5u32) & 1 == 1));
            assert(bit_of(self.0, 6) == ((self.0 >> 6u32) & 1 == 1));
            assert(bit_of(self.0, 7) == ((self.0 >> 7u32) & 1 == 1));
            assert(bit_of(self.0, 8) == ((self.0 >> 8u32) & 1 == 1));
            assert(bit_of(self.0, 9) == ((self.0 >> 9u32) & 1 == 1));
            assert(bit_of(self.0, 10) == ((self.0 >> 10u32) & 1 == 1));
            assert(bit_of(self.0, 11) == ((self.0 >> 11u32) & 1 == 1));
            assert(bit_of(self.0, 12) == ((self.0 >> 12u32) & 1 == 1));
            assert(bit_of(self.0, 13) == ((self.0 >> 13u32) & 1 == 1));
            assert(bit_of(self.0, 14) == ((self.0 >> 14u32) & 1 == 1));
            assert(bit_of(self.0, 15) == ((self.0 >> 15u32) & 1 == 1));
            if forall|i: int| 0 <= i < 16 ==> self@[i] {
                assert(self@[0] && self@[1] && self@[2] && self@[3] && self@[4] && self@[5]
                    && self@[6] && self@[7] && self@[8] && self@[9] && self@[10] && self@[11]
                    && self@[12] && self@[13] && self@[14] && self@[15]);
            }
        }
        self.0 == 0xFFFF
    }

    /// The first lane that is set, or [`MoveMask::MAX_TRAIL`] if none is. The
    /// mask's word is wider than the lanes are many, and a count of its
    /// trailing zero bits that runs past the lanes is cut off at their number.
    #[must_use]
    pub fn trailing_zeros(&self) -> (r: u32)
        ensures
            r <= 16,
            forall|i: int| 0 <= i < r ==> !self@[i],
            r < 16 ==> self@[r as int],
    {
        let bits = self.0.trailing_zeros();
        let r = if bits < Self::MAX_TRAIL {
            bits
        } else {
            Self::MAX_TRAIL
        };
        proof {
            assert forall|i: int| 0 <= i < r implies !self@[i] by {
                let j = i as u32;
                assert((self.0 >> j) & 1u32 == 0u32);
            }
        }
        r
    }

    /// The first lane that is not set, or [`MoveMask::MAX_TRAIL`] if all are.
    #[must_use]
    pub fn trailing_ones(&self) -> (r: u32)
        ensures
            r <= 16,
            forall|i: int| 0 <= i < r ==> self@[i],
            r < 16 ==> !self@[r as int],
    {
        let r = self.0.trailing_ones();
        proof {
            use_type_invariant(self);
            if r > 16 {
                lemma_no_bit_above(self.0, 16);
                assert((self.0 >> 16u32) & 1u32 == 1u32);
            }
            assert forall|i: int| 0 <= i < r implies self@[i] by {
                let j = i as u32;
                assert((self.0 >> j) & 1u32 == 1u32);
            }
        }
        r
    }
}

} // verus!

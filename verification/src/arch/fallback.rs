//! The portable register: sixteen byte lanes packed into a 128-bit integer,
//! lane 0 in the low bits, with every operation computed lane by lane.

use crate::arch::lane::{
    is_lane_bits, lane, lemma_bitwise_lanes, lemma_byte_is_lane, lemma_put_lane, lemma_splat,
    lemma_zero_lanes, splat_of, truth,
};
use vstd::prelude::*;

verus! {

const BYTE_MASK: u128 = 0x00FF;

/// A register of sixteen byte lanes.
pub type Vector = u128;

/// Bytes from one register to the next.
pub const STEP: usize = 16;

/// The byte in lane `i`.
pub(crate) fn byte(v: Vector, i: u32) -> (b: u8)
    requires
        i < 16,
    ensures
        b == lane(v, i as int),
{
    let shift: u128 = 8 * (i as u128);
    proof {
        lemma_byte_is_lane(v, i as int);
    }
    ((v >> shift) & BYTE_MASK) as u8
}

/// `v` with `b` in lane `i`, which was empty.
pub(crate) fn with_byte(v: Vector, i: u32, b: u8) -> (r: Vector)
    requires
        i < 16,
        lane(v, i as int) == 0,
    ensures
        forall|j: int| 0 <= j < 16 && j != i ==> lane(r, j) == lane(v, j),
        lane(r, i as int) == b,
{
    let shift: u128 = 8 * (i as u128);
    proof {
        lemma_put_lane(v, b, i as int);
    }
    v | ((b as u128) << shift)
}

/// The lane state for a boolean.
pub(crate) fn flag(b: bool) -> (m: u8)
    ensures
        m == truth(b),
{
    if b {
        0xFF
    } else {
        0
    }
}

/// Bit `i` of a lane mask.
pub open spec fn bit_of(m: u16, i: int) -> bool {
    (m >> (i as u16)) & 1 == 1
}

proof fn lemma_put_bit(m: u16, b: u16, k: u16, j: u16)
    by (bit_vector)
    requires
        k < 16,
        j < 16,
        b <= 1,
        (m >> k) & 1 != 1,
    ensures
        j != k ==> ((m | (b << k)) >> j) & 1 == (m >> j) & 1,
        j == k ==> ((m | (b << k)) >> j) & 1 == b,
{
}

proof fn lemma_no_bit(j: u16)
    by (bit_vector)
    ensures
        (0u16 >> j) & 1 == 0,
{
}

proof fn lemma_low_bit(b: u8)
    by (bit_vector)
    ensures
        b & 1 == 0 || b & 1 == 1,
{
}

proof fn lemma_full_and_empty_bits(m: u16)
    by (bit_vector)
    ensures
        m == 0xFFFF <==> (
        (m >> 0u16) & 1 == 1 && (m >> 1u16) & 1 == 1 && (m >> 2u16) & 1 == 1 &&
            (m >> 3u16) & 1 == 1 && (m >> 4u16) & 1 == 1 && (m >> 5u16) & 1 == 1 &&
            (m >> 6u16) & 1 == 1 && (m >> 7u16) & 1 == 1 && (m >> 8u16) & 1 == 1 &&
            (m >> 9u16) & 1 == 1 && (m >> 10u16) & 1 == 1 && (m >> 11u16) & 1 == 1 &&
            (m >> 12u16) & 1 == 1 && (m >> 13u16) & 1 == 1 && (m >> 14u16) & 1 == 1 &&
            (m >> 15u16) & 1 == 1),
        m == 0 <==> (
        (m >> 0u16) & 1 != 1 && (m >> 1u16) & 1 != 1 && (m >> 2u16) & 1 != 1 &&
            (m >> 3u16) & 1 != 1 && (m >> 4u16) & 1 != 1 && (m >> 5u16) & 1 != 1 &&
            (m >> 6u16) & 1 != 1 && (m >> 7u16) & 1 != 1 && (m >> 8u16) & 1 != 1 &&
            (m >> 9u16) & 1 != 1 && (m >> 10u16) & 1 != 1 && (m >> 11u16) & 1 != 1 &&
            (m >> 12u16) & 1 != 1 && (m >> 13u16) & 1 != 1 && (m >> 14u16) & 1 != 1 &&
            (m >> 15u16) & 1 != 1),
{
}

/// A mask is `0xFFFF` where all sixteen bits are set, and zero where none is.
proof fn lemma_full_and_empty(m: u16)
    ensures
        m == 0xFFFF <==> (forall|i: int| 0 <= i < 16 ==> bit_of(m, i)),
        m == 0 <==> (forall|i: int| 0 <= i < 16 ==> !bit_of(m, i)),
{
    lemma_full_and_empty_bits(m);
    assert(bit_of(m, 0) == ((m >> 0u16) & 1 == 1));
    assert(bit_of(m, 1) == ((m >> 1u16) & 1 == 1));
    assert(bit_of(m, 2) == ((m >> 2u16) & 1 == 1));
    assert(bit_of(m, 3) == ((m >> 3u16) & 1 == 1));
    assert(bit_of(m, 4) == ((m >> 4u16) & 1 == 1));
    assert(bit_of(m, 5) == ((m >> 5u16) & 1 == 1));
    assert(bit_of(m, 6) == ((m >> 6u16) & 1 == 1));
    assert(bit_of(m, 7) == ((m >> 7u16) & 1 == 1));
    assert(bit_of(m, 8) == ((m >> 8u16) & 1 == 1));
    assert(bit_of(m, 9) == ((m >> 9u16) & 1 == 1));
    assert(bit_of(m, 10) == ((m >> 10u16) & 1 == 1));
    assert(bit_of(m, 11) == ((m >> 11u16) & 1 == 1));
    assert(bit_of(m, 12) == ((m >> 12u16) & 1 == 1));
    assert(bit_of(m, 13) == ((m >> 13u16) & 1 == 1));
    assert(bit_of(m, 14) == ((m >> 14u16) & 1 == 1));
    assert(bit_of(m, 15) == ((m >> 15u16) & 1 == 1));
    if forall|i: int| 0 <= i < 16 ==> bit_of(m, i) {
        assert(
        bit_of(m, 0) && bit_of(m, 1) && bit_of(m, 2) && bit_of(m, 3) && bit_of(m, 4) &&
            bit_of(m, 5) && bit_of(m, 6) && bit_of(m, 7) && bit_of(m, 8) && bit_of(m, 9) &&
            bit_of(m, 10) && bit_of(m, 11) && bit_of(m, 12) && bit_of(m, 13) &&
            bit_of(m, 14) && bit_of(m, 15));
    }
    if forall|i: int| 0 <= i < 16 ==> !bit_of(m, i) {
        assert(
        !bit_of(m, 0) && !bit_of(m, 1) && !bit_of(m, 2) && !bit_of(m, 3) && !bit_of(m, 4) &&
            !bit_of(m, 5) && !bit_of(m, 6) && !bit_of(m, 7) && !bit_of(m, 8) &&
            !bit_of(m, 9) && !bit_of(m, 10) && !bit_of(m, 11) && !bit_of(m, 12) &&
            !bit_of(m, 13) && !bit_of(m, 14) && !bit_of(m, 15));
    }
}

proof fn lemma_joined_bits(a: u16, b: u16, j: u16)
    by (bit_vector)
    requires
        j < 16,
    ensures
        ((a | b) >> j) & 1 == 1 <==> ((a >> j) & 1 == 1 || (b >> j) & 1 == 1),
{
}

/// The lane mask of a register: one bit a lane, set where the lane's low bit
/// is set. On a register whose lanes are all ones or all zeros, that is where
/// the lane is all ones.
pub struct MoveMask(u16);

impl View for MoveMask {
    type V = Seq<bool>;

    /// The sixteen lane bits, lane 0 first.
    closed spec fn view(&self) -> Seq<bool> {
        Seq::new(16, |i: int| bit_of(self.0, i))
    }
}

impl MoveMask {
    /// What [`MoveMask::trailing_zeros`] returns when no lane is set.
    pub const MAX_TRAIL: u32 = 16;

    /// The mask of `input`: bit `i` is the low bit of lane `i`.
    #[must_use]
    pub fn new(input: Vector) -> (mask: Self)
        ensures
            is_lane_bits(mask@, input),
    {
        let mut result: u16 = 0;
        let mut i: u32 = 0;
        proof {
            assert forall|j: int| 0 <= j < 16 implies !bit_of(result, j) by {
                lemma_no_bit(j as u16);
            }
        }
        while i < 16
            invariant
                i <= 16,
                forall|j: int|
                    0 <= j < i ==> #[trigger] bit_of(result, j) == (lane(input, j) & 1 == 1),
                forall|j: int| i <= j < 16 ==> !#[trigger] bit_of(result, j),
            decreases 16 - i,
        {
            let low: u8 = byte(input, i) & 1;
            let at: u16 = i as u16;
            proof {
                lemma_low_bit(lane(input, i as int));
                assert(!bit_of(result, i as int));
                assert forall|j: int| 0 <= j < 16 implies #[trigger] bit_of(
                    result | ((low as u16) << at),
                    j,
                ) == (if j == i {
                    low == 1
                } else {
                    bit_of(result, j)
                }) by {
                    lemma_put_bit(result, low as u16, at, j as u16);
                }
            }
            result |= (low as u16) << at;
            i += 1;
        }
        Self(result)
    }

    /// Whether every lane is set.
    #[must_use]
    pub fn all_bits_set(&self) -> (r: bool)
        ensures
            r == (forall|i: int| 0 <= i < 16 ==> self@[i]),
    {
        proof {
            lemma_full_and_empty(self.0);
            assert forall|i: int| 0 <= i < 16 implies self@[i] == bit_of(self.0, i) by {}
        }
        self.0 == 0xFFFF
    }

    /// Whether some lane is set.
    #[must_use]
    pub fn any_bit_set(&self) -> (r: bool)
        ensures
            r == (exists|i: int| 0 <= i < 16 && self@[i]),
    {
        proof {
            lemma_full_and_empty(self.0);
            assert forall|i: int| 0 <= i < 16 implies self@[i] == bit_of(self.0, i) by {}
        }
        self.0 > 0
    }

    /// The first lane that is set, or [`MoveMask::MAX_TRAIL`] if none is.
    #[must_use]
    pub fn trailing_zeros(&self) -> (r: u32)
        ensures
            r <= 16,
            forall|i: int| 0 <= i < r ==> !self@[i],
            r < 16 ==> self@[r as int],
    {
        let r = self.0.trailing_zeros();
        proof {
            assert forall|i: int| 0 <= i < r implies !self@[i] by {
                let j = i as u16;
                assert((self.0 >> j) & 1u16 == 0u16);
            }
        }
        r
    }

    /// The first lane that is not set, or [`MoveMask::MAX_TRAIL`] if all are.
    #[must_use]
    pub fn trailing_ones(&self) -> (r: u32)
        ensures
            r <= 16,
            forall|i: int| 0 <= i < r ==> self@[i],
            r < 16 ==> !self@[r as int],
    {
        let r = self.0.trailing_ones();
        proof {
            assert forall|i: int| 0 <= i < r implies self@[i] by {
                let j = i as u16;
                assert((self.0 >> j) & 1u16 == 1u16);
            }
        }
        r
    }
}

impl vstd::std_specs::ops::BitOrSpecImpl for MoveMask {
    open spec fn obeys_bitor_spec() -> bool {
        true
    }

    open spec fn bitor_req(self, rhs: MoveMask) -> bool {
        true
    }

    closed spec fn bitor_spec(self, rhs: MoveMask) -> MoveMask {
        MoveMask(self.0 | rhs.0)
    }
}

impl core::ops::BitOr for MoveMask {
    type Output = MoveMask;

    /// The lanes set in either mask.
    fn bitor(self, rhs: MoveMask) -> (r: MoveMask)
        ensures
            r@.len() == 16,
            forall|i: int| 0 <= i < 16 ==> #[trigger] r@[i] == (self@[i] || rhs@[i]),
    {
        proof {
            assert forall|i: int| 0 <= i < 16 implies bit_of(self.0 | rhs.0, i) == (bit_of(
                self.0,
                i,
            ) || bit_of(rhs.0, i)) by {
                lemma_joined_bits(self.0, rhs.0, i as u16);
            }
        }
        MoveMask(self.0 | rhs.0)
    }
}

/// Lanes that are equal become all ones, the others all zeros.
#[must_use]
pub fn eq(a: Vector, b: Vector) -> (r: Vector)
    ensures
        forall|i: int| 0 <= i < 16 ==> #[trigger] lane(r, i) == truth(lane(a, i) == lane(b, i)),
{
    let mut result: Vector = 0;
    let mut i: u32 = 0;
    proof {
        lemma_zero_lanes();
    }
    while i < 16
        invariant
            i <= 16,
            forall|j: int|
                0 <= j < i ==> #[trigger] lane(result, j) == truth(lane(a, j) == lane(b, j)),
            forall|j: int| i <= j < 16 ==> #[trigger] lane(result, j) == 0,
        decreases 16 - i,
    {
        result = with_byte(result, i, flag(byte(a, i) == byte(b, i)));
        i += 1;
    }
    result
}

/// Every bit inverted.
#[must_use]
pub fn not(a: Vector) -> (r: Vector)
    ensures
        r == !a,
        forall|i: int| 0 <= i < 16 ==> #[trigger] lane(r, i) == !lane(a, i),
{
    proof {
        lemma_bitwise_lanes(a, a);
    }
    !a
}

/// Bitwise exclusive or.
#[must_use]
pub fn xor(a: Vector, b: Vector) -> (r: Vector)
    ensures
        r == a ^ b,
        forall|i: int| 0 <= i < 16 ==> #[trigger] lane(r, i) == lane(a, i) ^ lane(b, i),
{
    proof {
        lemma_bitwise_lanes(a, b);
    }
    a ^ b
}

/// Bitwise or.
#[must_use]
pub fn or(a: Vector, b: Vector) -> (r: Vector)
    ensures
        r == a | b,
        forall|i: int| 0 <= i < 16 ==> #[trigger] lane(r, i) == lane(a, i) | lane(b, i),
{
    proof {
        lemma_bitwise_lanes(a, b);
    }
    a | b
}

/// Bitwise and.
#[must_use]
pub fn and(a: Vector, b: Vector) -> (r: Vector)
    ensures
        r == a & b,
        forall|i: int| 0 <= i < 16 ==> #[trigger] lane(r, i) == lane(a, i) & lane(b, i),
{
    proof {
        lemma_bitwise_lanes(a, b);
    }
    a & b
}

/// `a` in every lane.
#[must_use]
pub fn splat(a: u8) -> (r: Vector)
    ensures
        forall|i: int| 0 <= i < 16 ==> #[trigger] lane(r, i) == a,
{
    let mut result: u128 = a as u128;
    result |= result << 8u128;
    result |= result << 16u128;
    result |= result << 32u128;
    result |= result << 64u128;
    proof {
        assert(result == splat_of(a));
        lemma_splat(a);
    }
    result
}

/// Lanes of `a` that are at least the lane of `b`, as unsigned bytes.
#[must_use]
pub fn greater_than_or_eq(a: Vector, b: Vector) -> (r: Vector)
    ensures
        forall|i: int| 0 <= i < 16 ==> #[trigger] lane(r, i) == truth(lane(a, i) >= lane(b, i)),
{
    let mut result: Vector = 0;
    let mut i: u32 = 0;
    proof {
        lemma_zero_lanes();
    }
    while i < 16
        invariant
            i <= 16,
            forall|j: int|
                0 <= j < i ==> #[trigger] lane(result, j) == truth(lane(a, j) >= lane(b, j)),
            forall|j: int| i <= j < 16 ==> #[trigger] lane(result, j) == 0,
        decreases 16 - i,
    {
        result = with_byte(result, i, flag(byte(a, i) >= byte(b, i)));
        i += 1;
    }
    result
}

/// Lanes of `a` that are above the lane of `b`, as unsigned bytes.
#[must_use]
pub fn greater_than(a: Vector, b: Vector) -> (r: Vector)
    ensures
        forall|i: int| 0 <= i < 16 ==> #[trigger] lane(r, i) == truth(lane(a, i) > lane(b, i)),
{
    let mut result: Vector = 0;
    let mut i: u32 = 0;
    proof {
        lemma_zero_lanes();
    }
    while i < 16
        invariant
            i <= 16,
            forall|j: int|
                0 <= j < i ==> #[trigger] lane(result, j) == truth(lane(a, j) > lane(b, j)),
            forall|j: int| i <= j < 16 ==> #[trigger] lane(result, j) == 0,
        decreases 16 - i,
    {
        result = with_byte(result, i, flag(byte(a, i) > byte(b, i)));
        i += 1;
    }
    result
}

/// Lanes of `a` that are at most the lane of `b`, as unsigned bytes.
#[must_use]
pub fn less_than_or_eq(a: Vector, b: Vector) -> (r: Vector)
    ensures
        forall|i: int| 0 <= i < 16 ==> #[trigger] lane(r, i) == truth(lane(a, i) <= lane(b, i)),
{
    let mut result: Vector = 0;
    let mut i: u32 = 0;
    proof {
        lemma_zero_lanes();
    }
    while i < 16
        invariant
            i <= 16,
            forall|j: int|
                0 <= j < i ==> #[trigger] lane(result, j) == truth(lane(a, j) <= lane(b, j)),
            forall|j: int| i <= j < 16 ==> #[trigger] lane(result, j) == 0,
        decreases 16 - i,
    {
        result = with_byte(result, i, flag(byte(a, i) <= byte(b, i)));
        i += 1;
    }
    result
}

/// Lanes of `a` that are below the lane of `b`, as unsigned bytes.
#[must_use]
pub fn less_than(a: Vector, b: Vector) -> (r: Vector)
    ensures
        forall|i: int| 0 <= i < 16 ==> #[trigger] lane(r, i) == truth(lane(a, i) < lane(b, i)),
{
    let mut result: Vector = 0;
    let mut i: u32 = 0;
    proof {
        lemma_zero_lanes();
    }
    while i < 16
        invariant
            i <= 16,
            forall|j: int|
                0 <= j < i ==> #[trigger] lane(result, j) == truth(lane(a, j) < lane(b, j)),
            forall|j: int| i <= j < 16 ==> #[trigger] lane(result, j) == 0,
        decreases 16 - i,
    {
        result = with_byte(result, i, flag(byte(a, i) < byte(b, i)));
        i += 1;
    }
    result
}

/// The first sixteen bytes of `data`, byte `i` in lane `i`.
#[must_use]
pub fn load_unchecked(data: &[u8]) -> (r: Vector)
    requires
        data.len() >= 16,
    ensures
        forall|i: int| 0 <= i < 16 ==> #[trigger] lane(r, i) == data[i],
{
    load_partial(data, 16)
}

/// Sixteen bytes, byte `i` in lane `i`.
#[must_use]
pub fn load(data: &[u8; 16]) -> (r: Vector)
    ensures
        forall|i: int| 0 <= i < 16 ==> #[trigger] lane(r, i) == data[i],
{
    load_unchecked(data.as_slice())
}

/// As [`load_unchecked`]: this register knows no faster load for an aligned
/// address.
#[must_use]
pub fn load_aligned(data: &[u8]) -> (r: Vector)
    requires
        data.len() >= 16,
    ensures
        forall|i: int| 0 <= i < 16 ==> #[trigger] lane(r, i) == data[i],
{
    load_unchecked(data)
}

/// As [`load_unchecked`], wherever `data` lies.
#[must_use]
pub fn maybe_aligned_load(data: &[u8]) -> (r: Vector)
    requires
        data.len() >= 16,
    ensures
        forall|i: int| 0 <= i < 16 ==> #[trigger] lane(r, i) == data[i],
{
    load_unchecked(data)
}

/// The first `count` bytes of `data` in the low lanes, zeros above them.
#[must_use]
pub fn load_partial(data: &[u8], count: usize) -> (r: Vector)
    requires
        count <= 16,
        count <= data.len(),
    ensures
        forall|i: int| 0 <= i < count ==> #[trigger] lane(r, i) == data[i],
        forall|i: int| count <= i < 16 ==> #[trigger] lane(r, i) == 0,
{
    let mut result: Vector = 0;
    let mut i: u32 = 0;
    proof {
        lemma_zero_lanes();
    }
    while (i as usize) < count
        invariant
            i <= count <= 16,
            count <= data.len(),
            forall|j: int| 0 <= j < i ==> #[trigger] lane(result, j) == data[j],
            forall|j: int| i <= j < 16 ==> #[trigger] lane(result, j) == 0,
        decreases count - i,
    {
        result = with_byte(result, i, data[i as usize]);
        i += 1;
    }
    result
}

} // verus!

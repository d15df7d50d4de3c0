//! The lane model of a register: sixteen bytes, lane 0 in the low bits.
//!
//! Contracts throughout the crate speak of a register through [`lane`]. The
//! lemmas here carry facts about the bits of the whole register down to its
//! lanes, and from the lanes of a test's outcome to the test.

use vstd::prelude::*;

verus! {

/// The byte that a register holds `shift` bits above its low end.
pub open spec fn byte_at(v: u128, shift: u128) -> u8 {
    ((v >> shift) & 0xFF) as u8
}

/// The byte in lane `i` of `v`.
pub open spec fn lane(v: u128, i: int) -> u8 {
    byte_at(v, (8 * i) as u128)
}

/// The sixteen lanes of a register, lane 0 first.
pub open spec fn lanes(v: u128) -> Seq<u8> {
    Seq::new(16, |i: int| lane(v, i))
}

/// The lane state that stands for a boolean: all bits set, or all clear.
pub open spec fn truth(b: bool) -> u8 {
    if b {
        0xFF
    } else {
        0
    }
}

/// A byte read as a two's complement number.
pub open spec fn signed(b: u8) -> int {
    if b < 128 {
        b as int
    } else {
        b - 256
    }
}

/// Every lane of `v` is all ones or all zeros.
pub open spec fn is_boolean(v: u128) -> bool {
    forall|i: int| 0 <= i < 16 ==> #[trigger] lane(v, i) == 0 || lane(v, i) == 0xFF
}

/// Lane by lane, `m` is the outcome of testing the bytes of `v` with `p`.
pub open spec fn is_mask_of(m: u128, v: u128, p: spec_fn(u8) -> bool) -> bool {
    forall|i: int| 0 <= i < 16 ==> #[trigger] lane(m, i) == truth(p(lane(v, i)))
}

/// `bits` holds, for each lane of `v`, whether the lane's low bit is set.
pub open spec fn is_lane_bits(bits: Seq<bool>, v: u128) -> bool {
    &&& bits.len() == 16
    &&& forall|i: int| 0 <= i < 16 ==> #[trigger] bits[i] == (lane(v, i) & 1 == 1)
}

/// `bits` holds, for each lane of `v`, whether the lane's high bit is set.
pub open spec fn is_high_bits(bits: Seq<bool>, v: u128) -> bool {
    &&& bits.len() == 16
    &&& forall|i: int| 0 <= i < 16 ==> #[trigger] bits[i] == (lane(v, i) >= 0x80)
}

/// `first` is the lowest lane of `m` whose low bit is set, or `None` where no
/// lane's is.
pub open spec fn is_first_set(m: u128, first: Option<int>) -> bool {
    match first {
        Some(k) => 0 <= k < 16 && lane(m, k) & 1 == 1 && forall|j: int|
            0 <= j < k ==> #[trigger] lane(m, j) & 1 != 1,
        None => forall|j: int| 0 <= j < 16 ==> #[trigger] lane(m, j) & 1 != 1,
    }
}

/// Every lane of `m` has its low bit set.
pub open spec fn is_all_set(m: u128) -> bool {
    forall|j: int| 0 <= j < 16 ==> #[trigger] lane(m, j) & 1 == 1
}

/// What `a` becomes when it is doubled four times over, each time into twice
/// as many lanes.
pub open spec fn splat_of(a: u8) -> u128 {
    let r0 = a as u128;
    let r1 = r0 | (r0 << 8u128);
    let r2 = r1 | (r1 << 16u128);
    let r3 = r2 | (r2 << 32u128);
    r3 | (r3 << 64u128)
}

proof fn lemma_byte_bound(v: u128, sh: u128)
    by (bit_vector)
    ensures
        (v >> sh) & 0xFF <= 0xFF,
{
}

proof fn lemma_zero_bytes(sh: u128)
    by (bit_vector)
    ensures
        (0u128 >> sh) & 0xFF == 0,
{
}

proof fn lemma_shifted_bytes(r: u128, m: u128, at: u128, sh: u128)
    by (bit_vector)
    requires
        at < 128,
        at % 8 == 0,
        sh < 128,
        sh % 8 == 0,
        m <= 0xFF,
        (r >> at) & 0xFF == 0,
    ensures
        sh != at ==> ((r | (m << at)) >> sh) & 0xFF == (r >> sh) & 0xFF,
        sh == at ==> ((r | (m << at)) >> sh) & 0xFF == m,
{
}

proof fn lemma_bitwise_bytes(a: u128, b: u128, sh: u128)
    by (bit_vector)
    requires
        sh < 128,
        sh % 8 == 0,
    ensures
        (((a & b) >> sh) & 0xFF) as u8 == (((a >> sh) & 0xFF) as u8) & (((b >> sh) & 0xFF) as u8),
        (((a | b) >> sh) & 0xFF) as u8 == (((a >> sh) & 0xFF) as u8) | (((b >> sh) & 0xFF) as u8),
        (((a ^ b) >> sh) & 0xFF) as u8 == (((a >> sh) & 0xFF) as u8) ^ (((b >> sh) & 0xFF) as u8),
        (((!a) >> sh) & 0xFF) as u8 == !(((a >> sh) & 0xFF) as u8),
{
}

proof fn lemma_same_bytes(a: u128, b: u128)
    by (bit_vector)
    requires
        (a >> 0) & 0xFF == (b >> 0) & 0xFF,
        (a >> 8) & 0xFF == (b >> 8) & 0xFF,
        (a >> 16) & 0xFF == (b >> 16) & 0xFF,
        (a >> 24) & 0xFF == (b >> 24) & 0xFF,
        (a >> 32) & 0xFF == (b >> 32) & 0xFF,
        (a >> 40) & 0xFF == (b >> 40) & 0xFF,
        (a >> 48) & 0xFF == (b >> 48) & 0xFF,
        (a >> 56) & 0xFF == (b >> 56) & 0xFF,
        (a >> 64) & 0xFF == (b >> 64) & 0xFF,
        (a >> 72) & 0xFF == (b >> 72) & 0xFF,
        (a >> 80) & 0xFF == (b >> 80) & 0xFF,
        (a >> 88) & 0xFF == (b >> 88) & 0xFF,
        (a >> 96) & 0xFF == (b >> 96) & 0xFF,
        (a >> 104) & 0xFF == (b >> 104) & 0xFF,
        (a >> 112) & 0xFF == (b >> 112) & 0xFF,
        (a >> 120) & 0xFF == (b >> 120) & 0xFF,
    ensures
        a == b,
{
}

proof fn lemma_splat_bytes(x: u128, sh: u128)
    by (bit_vector)
    requires
        x <= 0xFF,
        sh < 128,
        sh % 8 == 0,
    ensures
        ({
            let r1 = x | (x << 8);
            let r2 = r1 | (r1 << 16);
            let r3 = r2 | (r2 << 32);
            (((r3 | (r3 << 64)) >> sh) & 0xFF) == x
        }),
{
}

proof fn lemma_low_bit_of_truth()
    by (bit_vector)
    ensures
        0xFFu8 & 1 == 1,
        0u8 & 1 == 0,
{
}

/// Shifting right by eight bits a lane and masking reads that lane.
pub proof fn lemma_byte_is_lane(v: u128, i: int)
    requires
        0 <= i < 16,
    ensures
        (v >> ((8 * i) as u128)) & 0xFF == lane(v, i),
{
    lemma_byte_bound(v, (8 * i) as u128);
}

/// The zero register has zero in every lane.
pub proof fn lemma_zero_lanes()
    ensures
        forall|i: int| 0 <= i < 16 ==> #[trigger] lane(0, i) == 0,
{
    assert forall|i: int| 0 <= i < 16 implies #[trigger] lane(0, i) == 0 by {
        lemma_zero_bytes((8 * i) as u128);
    }
}

/// Or-ing a byte into an empty lane sets that lane and leaves the others.
pub proof fn lemma_put_lane(r: u128, m: u8, k: int)
    requires
        0 <= k < 16,
        lane(r, k) == 0,
    ensures
        forall|j: int|
            0 <= j < 16 ==> #[trigger] lane(r | ((m as u128) << ((8 * k) as u128)), j) == (if j
                == k {
                m
            } else {
                lane(r, j)
            }),
{
    let at = (8 * k) as u128;
    lemma_byte_bound(r, at);
    assert forall|j: int| 0 <= j < 16 implies #[trigger] lane(r | ((m as u128) << at), j) == (if j
        == k {
        m
    } else {
        lane(r, j)
    }) by {
        lemma_shifted_bytes(r, m as u128, at, (8 * j) as u128);
    }
}

/// Doubling a byte four times over fills every lane with it.
pub proof fn lemma_splat(a: u8)
    ensures
        forall|i: int| 0 <= i < 16 ==> #[trigger] lane(splat_of(a), i) == a,
{
    assert forall|i: int| 0 <= i < 16 implies #[trigger] lane(splat_of(a), i) == a by {
        lemma_splat_bytes(a as u128, (8 * i) as u128);
    }
}

/// The bit operations on whole registers act on each lane by itself.
pub proof fn lemma_bitwise_lanes(a: u128, b: u128)
    ensures
        forall|i: int| 0 <= i < 16 ==> #[trigger] lane(a & b, i) == lane(a, i) & lane(b, i),
        forall|i: int| 0 <= i < 16 ==> #[trigger] lane(a | b, i) == lane(a, i) | lane(b, i),
        forall|i: int| 0 <= i < 16 ==> #[trigger] lane(a ^ b, i) == lane(a, i) ^ lane(b, i),
        forall|i: int| 0 <= i < 16 ==> #[trigger] lane(!a, i) == !lane(a, i),
{
    assert forall|i: int| 0 <= i < 16 implies #[trigger] lane(a & b, i) == lane(a, i) & lane(
        b,
        i,
    ) by {
        lemma_bitwise_bytes(a, b, (8 * i) as u128);
    }
    assert forall|i: int| 0 <= i < 16 implies #[trigger] lane(a | b, i) == lane(a, i) | lane(
        b,
        i,
    ) by {
        lemma_bitwise_bytes(a, b, (8 * i) as u128);
    }
    assert forall|i: int| 0 <= i < 16 implies #[trigger] lane(a ^ b, i) == lane(a, i) ^ lane(
        b,
        i,
    ) by {
        lemma_bitwise_bytes(a, b, (8 * i) as u128);
    }
    assert forall|i: int| 0 <= i < 16 implies #[trigger] lane(!a, i) == !lane(a, i) by {
        lemma_bitwise_bytes(a, b, (8 * i) as u128);
    }
}

/// A register is determined by its lanes.
pub proof fn lemma_lanes_determine(a: u128, b: u128)
    requires
        forall|i: int| 0 <= i < 16 ==> lane(a, i) == lane(b, i),
    ensures
        a == b,
{
    assert forall|sh: u128| (a >> sh) & 0xFF <= 0xFF && (b >> sh) & 0xFF <= 0xFF by {
        lemma_byte_bound(a, sh);
        lemma_byte_bound(b, sh);
    }
    assert(lane(a, 0) == lane(b, 0));
    assert(lane(a, 1) == lane(b, 1));
    assert(lane(a, 2) == lane(b, 2));
    assert(lane(a, 3) == lane(b, 3));
    assert(lane(a, 4) == lane(b, 4));
    assert(lane(a, 5) == lane(b, 5));
    assert(lane(a, 6) == lane(b, 6));
    assert(lane(a, 7) == lane(b, 7));
    assert(lane(a, 8) == lane(b, 8));
    assert(lane(a, 9) == lane(b, 9));
    assert(lane(a, 10) == lane(b, 10));
    assert(lane(a, 11) == lane(b, 11));
    assert(lane(a, 12) == lane(b, 12));
    assert(lane(a, 13) == lane(b, 13));
    assert(lane(a, 14) == lane(b, 14));
    assert(lane(a, 15) == lane(b, 15));
    lemma_same_bytes(a, b);
}

/// On the two lane states that stand for booleans, the bit operations are the
/// boolean connectives.
pub proof fn lemma_truth_algebra(x: bool, y: bool)
    ensures
        truth(x) & truth(y) == truth(x && y),
        truth(x) | truth(y) == truth(x || y),
        truth(x) ^ truth(y) == truth(x != y),
        !truth(x) == truth(!x),
{
    assert(0xFFu8 & 0xFFu8 == 0xFFu8 && 0xFFu8 & 0u8 == 0u8 && 0u8 & 0xFFu8 == 0u8 && 0u8 & 0u8
        == 0u8 && 0xFFu8 | 0xFFu8 == 0xFFu8 && 0xFFu8 | 0u8 == 0xFFu8 && 0u8 | 0xFFu8 == 0xFFu8
        && 0u8 | 0u8 == 0u8 && 0xFFu8 ^ 0xFFu8 == 0u8 && 0xFFu8 ^ 0u8 == 0xFFu8 && 0u8 ^ 0xFFu8
        == 0xFFu8 && 0u8 ^ 0u8 == 0u8 && !0xFFu8 == 0u8 && !0u8 == 0xFFu8) by (bit_vector);
}

/// A register with the same lane state in every lane is the outcome of a test
/// that gives the same answer for every byte.
pub proof fn lemma_mask_constant(m: u128, v: u128, answer: bool, p: spec_fn(u8) -> bool)
    requires
        forall|i: int| 0 <= i < 16 ==> #[trigger] lane(m, i) == truth(answer),
        forall|b: u8| #[trigger] p(b) == answer,
    ensures
        is_mask_of(m, v, p),
{
}

/// Inverting every bit of a test's outcome gives the outcome of the opposite
/// test.
pub proof fn lemma_mask_not(x: u128, v: u128, p: spec_fn(u8) -> bool, q: spec_fn(u8) -> bool)
    requires
        is_mask_of(x, v, p),
        forall|b: u8| #[trigger] q(b) == !p(b),
    ensures
        is_mask_of(!x, v, q),
{
    lemma_bitwise_lanes(x, x);
    assert forall|i: int| 0 <= i < 16 implies #[trigger] lane(!x, i) == truth(q(lane(v, i))) by {
        lemma_truth_algebra(p(lane(v, i)), true);
        assert(lane(x, i) == truth(p(lane(v, i))));
    }
}

/// The bitwise and, or and exclusive or of two tests' outcomes are the
/// outcomes of the tests joined by the same connective.
pub proof fn lemma_mask_join(
    x: u128,
    y: u128,
    v: u128,
    p: spec_fn(u8) -> bool,
    q: spec_fn(u8) -> bool,
    conj: spec_fn(u8) -> bool,
    disj: spec_fn(u8) -> bool,
    diff: spec_fn(u8) -> bool,
)
    requires
        is_mask_of(x, v, p),
        is_mask_of(y, v, q),
        forall|b: u8| #[trigger] conj(b) == (p(b) && q(b)),
        forall|b: u8| #[trigger] disj(b) == (p(b) || q(b)),
        forall|b: u8| #[trigger] diff(b) == (p(b) != q(b)),
    ensures
        is_mask_of(x & y, v, conj),
        is_mask_of(x | y, v, disj),
        is_mask_of(x ^ y, v, diff),
{
    lemma_bitwise_lanes(x, y);
    assert forall|i: int| 0 <= i < 16 implies #[trigger] lane(x & y, i) == truth(
        conj(lane(v, i)),
    ) by {
        lemma_truth_algebra(p(lane(v, i)), q(lane(v, i)));
        assert(lane(x, i) == truth(p(lane(v, i))));
        assert(lane(y, i) == truth(q(lane(v, i))));
    }
    assert forall|i: int| 0 <= i < 16 implies #[trigger] lane(x | y, i) == truth(
        disj(lane(v, i)),
    ) by {
        lemma_truth_algebra(p(lane(v, i)), q(lane(v, i)));
        assert(lane(x, i) == truth(p(lane(v, i))));
        assert(lane(y, i) == truth(q(lane(v, i))));
    }
    assert forall|i: int| 0 <= i < 16 implies #[trigger] lane(x ^ y, i) == truth(
        diff(lane(v, i)),
    ) by {
        lemma_truth_algebra(p(lane(v, i)), q(lane(v, i)));
        assert(lane(x, i) == truth(p(lane(v, i))));
        assert(lane(y, i) == truth(q(lane(v, i))));
    }
}

/// The lane bits of a test's outcome say where the test held.
pub proof fn lemma_lane_bits_of_mask(bits: Seq<bool>, m: u128, v: u128, p: spec_fn(u8) -> bool)
    requires
        is_lane_bits(bits, m),
        is_mask_of(m, v, p),
    ensures
        forall|i: int| 0 <= i < 16 ==> #[trigger] bits[i] == p(lane(v, i)),
{
    lemma_low_bit_of_truth();
    assert forall|i: int| 0 <= i < 16 implies #[trigger] bits[i] == p(lane(v, i)) by {
        assert(lane(m, i) == truth(p(lane(v, i))));
    }
}

/// The lane bits of a register are all set just where every lane's low bit
/// is.
pub proof fn lemma_lane_bits_all(bits: Seq<bool>, m: u128)
    requires
        is_lane_bits(bits, m),
    ensures
        is_all_set(m) == (forall|i: int| 0 <= i < 16 ==> bits[i]),
{
    assert forall|i: int| 0 <= i < 16 implies #[trigger] bits[i] == (lane(m, i) & 1 == 1) by {}
    if is_all_set(m) {
        assert forall|i: int| 0 <= i < 16 implies bits[i] by {
            assert(lane(m, i) & 1 == 1);
        }
    }
    if forall|i: int| 0 <= i < 16 ==> bits[i] {
        assert forall|j: int| 0 <= j < 16 implies #[trigger] lane(m, j) & 1 == 1 by {
            assert(bits[j]);
        }
    }
}

/// The first lane bit that is set marks the first lane whose low bit is.
pub proof fn lemma_lane_bits_first(bits: Seq<bool>, m: u128, k: int)
    requires
        is_lane_bits(bits, m),
        0 <= k <= 16,
        forall|i: int| 0 <= i < k ==> !bits[i],
        k < 16 ==> bits[k],
    ensures
        is_first_set(
            m,
            if k < 16 {
                Some(k)
            } else {
                None
            },
        ),
{
    assert forall|i: int| 0 <= i < 16 implies #[trigger] bits[i] == (lane(m, i) & 1 == 1) by {}
    assert forall|j: int| 0 <= j < k implies #[trigger] lane(m, j) & 1 != 1 by {
        assert(!bits[j]);
    }
}

/// Of a register whose lanes are all ones or all zeros, the lanes' high bits
/// and their low bits are the same: a mask made of either says the same.
pub proof fn lemma_boolean_bits_agree(low: Seq<bool>, high: Seq<bool>, v: u128)
    requires
        is_boolean(v),
        is_lane_bits(low, v),
        is_high_bits(high, v),
    ensures
        low == high,
{
    lemma_low_bit_of_truth();
    assert forall|i: int| 0 <= i < 16 implies low[i] == high[i] by {
        assert(lane(v, i) == 0 || lane(v, i) == 0xFF);
    }
    assert(low =~= high);
}

/// The outcome of a test has all ones or all zeros in every lane.
pub proof fn lemma_mask_is_boolean(m: u128, v: u128, p: spec_fn(u8) -> bool)
    requires
        is_mask_of(m, v, p),
    ensures
        is_boolean(m),
{
    assert forall|i: int| 0 <= i < 16 implies #[trigger] lane(m, i) == 0 || lane(m, i) == 0xFF by {
        assert(lane(m, i) == truth(p(lane(v, i))));
    }
}

} // verus!

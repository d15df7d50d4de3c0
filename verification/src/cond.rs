//! What it means for a condition, a function from register to register, to
//! test bytes: the vocabulary of the scanning contracts.

use crate::arch::lane::{
    is_boolean, is_lane_bits, is_mask_of, lane, lemma_lane_bits_of_mask, lemma_mask_is_boolean,
    lemma_mask_join, lemma_mask_not, signed,
};
use crate::arch::Vector;
use vstd::prelude::*;

verus! {

/// `cond` may be called on every register.
pub open spec fn total<F: Fn(Vector) -> Vector>(cond: F) -> bool {
    forall|v: Vector| #[trigger] cond.requires((v,))
}

/// `cond` tests each lane's byte with `p`, and the lane it returns is all ones
/// where `p` holds of the byte and all zeros where it does not.
pub open spec fn decides<F: Fn(Vector) -> Vector>(cond: F, p: spec_fn(u8) -> bool) -> bool {
    &&& total(cond)
    &&& forall|v: Vector, m: Vector| #[trigger] cond.ensures((v,), m) ==> is_mask_of(m, v, p)
}

/// The test that a byte is `expected`.
pub open spec fn is_byte(expected: u8) -> spec_fn(u8) -> bool {
    |b: u8| b == expected
}

/// The test that a byte is below `max`.
pub open spec fn below(max: u8) -> spec_fn(u8) -> bool {
    |b: u8| b < max
}

/// The test that a byte is `max` or below it.
pub open spec fn at_most(max: u8) -> spec_fn(u8) -> bool {
    |b: u8| b <= max
}

/// The test that a byte is above `min`.
pub open spec fn above(min: u8) -> spec_fn(u8) -> bool {
    |b: u8| b > min
}

/// The test that a byte is `min` or above it.
pub open spec fn at_least(min: u8) -> spec_fn(u8) -> bool {
    |b: u8| b >= min
}

/// The test that a byte lies between `min` and `max`, the two included.
pub open spec fn within(min: u8, max: u8) -> spec_fn(u8) -> bool {
    |b: u8| min <= b <= max
}

/// The test that a byte lies between `min` and `max`, and is neither.
pub open spec fn strictly_within(min: u8, max: u8) -> spec_fn(u8) -> bool {
    |b: u8| min < b < max
}

/// The test that a byte is below `bound` when both are read as signed.
pub open spec fn signed_below(bound: u8) -> spec_fn(u8) -> bool {
    |b: u8| signed(b) < signed(bound)
}

/// The test that a byte is at most `bound` when both are read as signed.
pub open spec fn signed_at_most(bound: u8) -> spec_fn(u8) -> bool {
    |b: u8| signed(b) <= signed(bound)
}

/// The test that a byte is above `bound` when both are read as signed.
pub open spec fn signed_above(bound: u8) -> spec_fn(u8) -> bool {
    |b: u8| signed(b) > signed(bound)
}

/// The test that a byte is at least `bound` when both are read as signed.
pub open spec fn signed_at_least(bound: u8) -> spec_fn(u8) -> bool {
    |b: u8| signed(b) >= signed(bound)
}

/// The test that a byte lies between `min` and `max`, the two included, when
/// all three are read as signed.
pub open spec fn signed_within(min: u8, max: u8) -> spec_fn(u8) -> bool {
    |b: u8| signed(min) <= signed(b) <= signed(max)
}

/// The test that a byte lies between `min` and `max` and is neither, when all
/// three are read as signed.
pub open spec fn signed_strictly_within(min: u8, max: u8) -> spec_fn(u8) -> bool {
    |b: u8| signed(min) < signed(b) < signed(max)
}

/// The test that no byte passes.
pub open spec fn never() -> spec_fn(u8) -> bool {
    |b: u8| false
}

/// The test that `p` fails.
pub open spec fn negation(p: spec_fn(u8) -> bool) -> spec_fn(u8) -> bool {
    |b: u8| !p(b)
}

/// The test that `p` and `q` both hold.
pub open spec fn both(p: spec_fn(u8) -> bool, q: spec_fn(u8) -> bool) -> spec_fn(u8) -> bool {
    |b: u8| p(b) && q(b)
}

/// The test that `p` or `q` holds, or both.
pub open spec fn either(p: spec_fn(u8) -> bool, q: spec_fn(u8) -> bool) -> spec_fn(u8) -> bool {
    |b: u8| p(b) || q(b)
}

/// The test that just one of `p` and `q` holds.
pub open spec fn unlike(p: spec_fn(u8) -> bool, q: spec_fn(u8) -> bool) -> spec_fn(u8) -> bool {
    |b: u8| p(b) != q(b)
}

/// One for a test that holds, zero for one that does not.
pub open spec fn one(holds: bool) -> int {
    if holds {
        1
    } else {
        0
    }
}

/// The test that just one of `p`, `q` and `r` holds.
pub open spec fn one_of_three(
    p: spec_fn(u8) -> bool,
    q: spec_fn(u8) -> bool,
    r: spec_fn(u8) -> bool,
) -> spec_fn(u8) -> bool {
    |b: u8| one(p(b)) + one(q(b)) + one(r(b)) == 1
}

/// The test that an odd number of `p`, `q`, `r` and `s` holds: one of them, or
/// three.
pub open spec fn odd_of_four(
    p: spec_fn(u8) -> bool,
    q: spec_fn(u8) -> bool,
    r: spec_fn(u8) -> bool,
    s: spec_fn(u8) -> bool,
) -> spec_fn(u8) -> bool {
    |b: u8|
        {
            let n = one(p(b)) + one(q(b)) + one(r(b)) + one(s(b));
            n == 1 || n == 3
        }
}

/// The test that just one of `p`, `q`, `r` and `s` holds.
pub open spec fn one_of_four(
    p: spec_fn(u8) -> bool,
    q: spec_fn(u8) -> bool,
    r: spec_fn(u8) -> bool,
    s: spec_fn(u8) -> bool,
) -> spec_fn(u8) -> bool {
    |b: u8| one(p(b)) + one(q(b)) + one(r(b)) + one(s(b)) == 1
}

/// No byte passes both `p` and `q`.
pub open spec fn exclusive(p: spec_fn(u8) -> bool, q: spec_fn(u8) -> bool) -> bool {
    forall|b: u8| !(#[trigger] p(b) && q(b))
}

/// `found` is the least index of `s` whose byte satisfies `p`, or `None` where
/// no byte of `s` does.
pub open spec fn is_first_match(s: Seq<u8>, p: spec_fn(u8) -> bool, found: Option<int>) -> bool {
    match found {
        Some(i) => 0 <= i < s.len() && p(s[i]) && forall|j: int| 0 <= j < i ==> !p(#[trigger] s[j]),
        None => forall|j: int| 0 <= j < s.len() ==> !p(#[trigger] s[j]),
    }
}

/// Every byte of `s` satisfies `p`.
pub open spec fn all_match(s: Seq<u8>, p: spec_fn(u8) -> bool) -> bool {
    forall|j: int| 0 <= j < s.len() ==> p(#[trigger] s[j])
}

/// The low `count` lanes of `v` are the bytes of `s` from index `at` on.
pub open spec fn is_window(v: Vector, s: Seq<u8>, at: int, count: int) -> bool {
    &&& 0 <= at
    &&& 0 <= count <= 16
    &&& at + count <= s.len()
    &&& forall|i: int| 0 <= i < count ==> #[trigger] lane(v, i) == s[at + i]
}

/// An index as the contracts speak of it.
pub open spec fn found(res: Option<usize>) -> Option<int> {
    match res {
        Some(i) => Some(i as int),
        None => None,
    }
}

/// Whatever byte test `cond` makes, `res` is the first index of `s` whose byte
/// passes it, or `None` where no byte of `s` does.
pub open spec fn finds<F: Fn(Vector) -> Vector>(cond: F, s: Seq<u8>, res: Option<int>) -> bool {
    forall|p: spec_fn(u8) -> bool| #[trigger] decides(cond, p) ==> is_first_match(s, p, res)
}

/// Whatever byte test `cond` makes, `ok` says whether every byte of `s`
/// passes it.
pub open spec fn judges<F: Fn(Vector) -> Vector>(cond: F, s: Seq<u8>, ok: bool) -> bool {
    forall|p: spec_fn(u8) -> bool| #[trigger] decides(cond, p) ==> ok == all_match(s, p)
}

/// No byte of `s` before index `n` satisfies `p`.
pub open spec fn none_before(s: Seq<u8>, p: spec_fn(u8) -> bool, n: int) -> bool {
    forall|j: int| 0 <= j < n && j < s.len() ==> !p(#[trigger] s[j])
}

/// Every byte of `s` before index `n` satisfies `p`.
pub open spec fn all_before(s: Seq<u8>, p: spec_fn(u8) -> bool, n: int) -> bool {
    forall|j: int| 0 <= j < n && j < s.len() ==> p(#[trigger] s[j])
}

/// Whatever byte test `cond` makes, no byte of `s` before index `n` passes it.
pub open spec fn misses<F: Fn(Vector) -> Vector>(cond: F, s: Seq<u8>, n: int) -> bool {
    forall|p: spec_fn(u8) -> bool| #[trigger] decides(cond, p) ==> none_before(s, p, n)
}

/// Whatever byte test `cond` makes, `ok` says whether every byte of `s` before
/// index `n` passes it.
pub open spec fn agrees<F: Fn(Vector) -> Vector>(cond: F, s: Seq<u8>, n: int, ok: bool) -> bool {
    forall|p: spec_fn(u8) -> bool| #[trigger] decides(cond, p) ==> ok == all_before(s, p, n)
}

/// Whatever a condition that tests bytes returns has all ones or all zeros in
/// every lane, and never a lane in between.
pub proof fn lemma_outcome_is_boolean<F: Fn(Vector) -> Vector>(
    cond: F,
    p: spec_fn(u8) -> bool,
    v: Vector,
    m: Vector,
)
    requires
        decides(cond, p),
        cond.ensures((v,), m),
    ensures
        is_boolean(m),
{
    lemma_mask_is_boolean(m, v, p);
}

/// A window whose outcome has no lane set before lane `k` pushes the part of
/// the buffer known to hold no match up to the window's lane `k`, or to the
/// window's end if that comes first; and if lane `k` is set and within the
/// window, the first match lies there.
pub proof fn lemma_window_search<F: Fn(Vector) -> Vector>(
    cond: F,
    s: Seq<u8>,
    n: int,
    v: Vector,
    at: int,
    count: int,
    m: Vector,
    bits: Seq<bool>,
    k: int,
)
    requires
        misses(cond, s, n),
        is_window(v, s, at, count),
        at <= n,
        cond.ensures((v,), m),
        is_lane_bits(bits, m),
        0 <= k <= 16,
        forall|i: int| 0 <= i < k ==> !bits[i],
        k < 16 ==> bits[k],
    ensures
        k < count ==> misses(cond, s, at + k),
        k >= count ==> misses(cond, s, at + count),
        k < count ==> forall|p: spec_fn(u8) -> bool| #[trigger]
            decides(cond, p) ==> is_first_match(s, p, Some(at + k)),
{
    let upto = if k < count {
        k
    } else {
        count
    };
    assert forall|p: spec_fn(u8) -> bool| #[trigger] decides(cond, p) implies none_before(
        s,
        p,
        at + upto,
    ) && (k < count ==> is_first_match(s, p, Some(at + k))) by {
        lemma_lane_bits_of_mask(bits, m, v, p);
        assert(none_before(s, p, n));
        assert forall|j: int| 0 <= j < at + upto && j < s.len() implies !p(#[trigger] s[j]) by {
            if j >= n {
                assert(lane(v, j - at) == s[at + (j - at)]);
                assert(!bits[j - at]);
            }
        }
        if k < count {
            assert(lane(v, k) == s[at + k]);
        }
    }
}

/// A full window, with `all` saying whether every lane of its outcome is set,
/// carries the verdict on the bytes before it over the window.
pub proof fn lemma_window_ensure<F: Fn(Vector) -> Vector>(
    cond: F,
    s: Seq<u8>,
    n: int,
    ok: bool,
    v: Vector,
    at: int,
    m: Vector,
    bits: Seq<bool>,
    all: bool,
)
    requires
        agrees(cond, s, n, ok),
        is_window(v, s, at, 16),
        at <= n <= at + 16,
        cond.ensures((v,), m),
        is_lane_bits(bits, m),
        all == (forall|i: int| 0 <= i < 16 ==> bits[i]),
    ensures
        agrees(cond, s, at + 16, ok && all),
{
    assert forall|p: spec_fn(u8) -> bool| #[trigger] decides(cond, p) implies (ok && all)
        == all_before(s, p, at + 16) by {
        lemma_lane_bits_of_mask(bits, m, v, p);
        assert(ok == all_before(s, p, n));
        if ok && all {
            assert forall|j: int| 0 <= j < at + 16 && j < s.len() implies p(#[trigger] s[j]) by {
                if j >= n {
                    assert(lane(v, j - at) == s[at + (j - at)]);
                    assert(bits[j - at]);
                }
            }
        } else if ok {
            let i = choose|i: int| 0 <= i < 16 && !bits[i];
            assert(lane(v, i) == s[at + i]);
        }
    }
}

/// A window at the start of the buffer, whose outcome has every lane set
/// before lane `k` and lane `k` not set if `k` is a lane, settles whether all
/// of the window's bytes pass.
pub proof fn lemma_window_prefix<F: Fn(Vector) -> Vector>(
    cond: F,
    s: Seq<u8>,
    v: Vector,
    count: int,
    m: Vector,
    bits: Seq<bool>,
    k: int,
)
    requires
        is_window(v, s, 0, count),
        cond.ensures((v,), m),
        is_lane_bits(bits, m),
        0 <= k <= 16,
        forall|i: int| 0 <= i < k ==> bits[i],
        k < 16 ==> !bits[k],
    ensures
        agrees(cond, s, count, k >= count),
{
    assert forall|p: spec_fn(u8) -> bool| #[trigger] decides(cond, p) implies (k >= count)
        == all_before(s, p, count) by {
        lemma_lane_bits_of_mask(bits, m, v, p);
        if k >= count {
            assert forall|j: int| 0 <= j < count && j < s.len() implies p(#[trigger] s[j]) by {
                assert(lane(v, j) == s[0 + j]);
                assert(bits[j]);
            }
        } else {
            assert(lane(v, k) == s[0 + k]);
        }
    }
}

/// Once some byte before index `n` has failed, it has failed before every
/// later index too.
pub proof fn lemma_verdict_stays<F: Fn(Vector) -> Vector>(cond: F, s: Seq<u8>, n: int, later: int)
    requires
        n <= later,
    ensures
        agrees(cond, s, n, false) ==> agrees(cond, s, later, false),
{
    if agrees(cond, s, n, false) {
        assert forall|p: spec_fn(u8) -> bool| #[trigger] decides(cond, p) implies !all_before(
            s,
            p,
            later,
        ) by {
            assert(!all_before(s, p, n));
        }
    }
}

/// A verdict that all bytes before index `n` pass holds before every earlier
/// index too.
pub proof fn lemma_verdict_holds<F: Fn(Vector) -> Vector>(
    cond: F,
    s: Seq<u8>,
    earlier: int,
    n: int,
    ok: bool,
)
    requires
        earlier <= n,
        agrees(cond, s, n, ok),
    ensures
        ok ==> agrees(cond, s, earlier, true),
{
    if ok {
        assert forall|p: spec_fn(u8) -> bool| #[trigger] decides(cond, p) implies all_before(
            s,
            p,
            earlier,
        ) by {
            assert(all_before(s, p, n));
        }
    }
}

/// The bitwise and of two tests' outcomes is the outcome of both tests.
pub proof fn lemma_mask_and(
    x: Vector,
    y: Vector,
    v: Vector,
    p: spec_fn(u8) -> bool,
    q: spec_fn(u8) -> bool,
)
    requires
        is_mask_of(x, v, p),
        is_mask_of(y, v, q),
    ensures
        is_mask_of(x & y, v, both(p, q)),
{
    lemma_mask_join(x, y, v, p, q, both(p, q), either(p, q), unlike(p, q));
}

/// The bitwise or of two tests' outcomes is the outcome of either test.
pub proof fn lemma_mask_or(
    x: Vector,
    y: Vector,
    v: Vector,
    p: spec_fn(u8) -> bool,
    q: spec_fn(u8) -> bool,
)
    requires
        is_mask_of(x, v, p),
        is_mask_of(y, v, q),
    ensures
        is_mask_of(x | y, v, either(p, q)),
{
    lemma_mask_join(x, y, v, p, q, both(p, q), either(p, q), unlike(p, q));
}

/// The bitwise exclusive or of two tests' outcomes is the outcome of the test
/// that just one of them holds.
pub proof fn lemma_mask_xor(
    x: Vector,
    y: Vector,
    v: Vector,
    p: spec_fn(u8) -> bool,
    q: spec_fn(u8) -> bool,
)
    requires
        is_mask_of(x, v, p),
        is_mask_of(y, v, q),
    ensures
        is_mask_of(x ^ y, v, unlike(p, q)),
{
    lemma_mask_join(x, y, v, p, q, both(p, q), either(p, q), unlike(p, q));
}

/// Inverting a test's outcome gives the outcome of the opposite test.
pub proof fn lemma_mask_negation(x: Vector, v: Vector, p: spec_fn(u8) -> bool)
    requires
        is_mask_of(x, v, p),
    ensures
        is_mask_of(!x, v, negation(p)),
{
    lemma_mask_not(x, v, p, negation(p));
}

/// An outcome of one test is the outcome of every test that holds of the same
/// bytes.
pub proof fn lemma_mask_same_test(
    x: Vector,
    v: Vector,
    p: spec_fn(u8) -> bool,
    q: spec_fn(u8) -> bool,
)
    requires
        is_mask_of(x, v, p),
        forall|b: u8| #[trigger] p(b) == q(b),
    ensures
        is_mask_of(x, v, q),
{
    assert forall|i: int| 0 <= i < 16 implies #[trigger] lane(x, i) == crate::arch::lane::truth(
        q(lane(v, i)),
    ) by {
        assert(p(lane(v, i)) == q(lane(v, i)));
    }
}

/// Between bounds that are equal or one apart, and between bounds in the
/// wrong order, lies no byte.
pub proof fn lemma_narrow_range_is_empty(min: u8, max: u8, b: u8)
    requires
        max - min <= 1,
    ensures
        !strictly_within(min, max)(b),
{
}

/// Of four tests of which no two hold of the same byte, an odd number holds
/// just where one does.
pub proof fn lemma_odd_of_exclusive_is_one(
    p: spec_fn(u8) -> bool,
    q: spec_fn(u8) -> bool,
    r: spec_fn(u8) -> bool,
    s: spec_fn(u8) -> bool,
    b: u8,
)
    requires
        exclusive(p, q),
        exclusive(p, r),
        exclusive(p, s),
        exclusive(q, r),
        exclusive(q, s),
        exclusive(r, s),
    ensures
        odd_of_four(p, q, r, s)(b) == one_of_four(p, q, r, s)(b),
{
    assert(!(p(b) && q(b)));
    assert(!(p(b) && r(b)));
    assert(!(p(b) && s(b)));
    assert(!(q(b) && r(b)));
    assert(!(q(b) && s(b)));
    assert(!(r(b) && s(b)));
}

/// A buffer has one first match, or none.
pub proof fn lemma_first_match_is_unique(
    s: Seq<u8>,
    p: spec_fn(u8) -> bool,
    one: Option<int>,
    other: Option<int>,
)
    requires
        is_first_match(s, p, one),
        is_first_match(s, p, other),
    ensures
        one == other,
{
    match (one, other) {
        (Some(i), Some(j)) => {
            if i < j {
                assert(!p(s[i]));
            }
            if j < i {
                assert(!p(s[j]));
            }
        },
        (Some(i), None) => {
            assert(!p(s[i]));
        },
        (None, Some(j)) => {
            assert(!p(s[j]));
        },
        (None, None) => {},
    }
}

} // verus!

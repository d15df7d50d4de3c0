//! The conditions that compare a byte with fixed bounds, built from signed
//! comparisons alone.
//!
//! A machine that compares bytes as signed numbers puts `128..=255` below
//! `0..=127`. Each condition here is made of the comparisons of
//! [`x86_64`](super::x86_64), chosen by where its bounds lie relative to 128,
//! so that it tests the byte as the unsigned number it is. The choice depends
//! on the bounds alone: for given bounds a condition is a fixed sequence of
//! register operations.

use crate::arch::lane::{is_mask_of, lemma_mask_constant, lemma_mask_join};
use crate::arch::x86_64::{self, and, eq, or, splat, Vector};
use crate::cond::{
    above, at_least, at_most, below, both, decides, either, is_byte, never, signed_above,
    signed_at_least, signed_at_most, signed_below, signed_strictly_within, signed_within,
    strictly_within, unlike, within,
};
use vstd::prelude::*;

verus! {

/// Lanes of `data` above `bound`, as signed bytes.
fn gt(data: Vector, bound: u8) -> (m: Vector)
    ensures
        is_mask_of(m, data, signed_above(bound)),
{
    x86_64::greater_than(data, splat(bound))
}

/// Lanes of `data` at least `bound`, as signed bytes.
fn ge(data: Vector, bound: u8) -> (m: Vector)
    ensures
        is_mask_of(m, data, signed_at_least(bound)),
{
    x86_64::greater_than_or_eq(data, splat(bound))
}

/// Lanes of `data` below `bound`, as signed bytes.
fn lt(data: Vector, bound: u8) -> (m: Vector)
    ensures
        is_mask_of(m, data, signed_below(bound)),
{
    x86_64::less_than(data, splat(bound))
}

/// Lanes of `data` at most `bound`, as signed bytes.
fn le(data: Vector, bound: u8) -> (m: Vector)
    ensures
        is_mask_of(m, data, signed_at_most(bound)),
{
    x86_64::less_than_or_eq(data, splat(bound))
}

/// Lanes of `data` that hold `byte`.
fn same(data: Vector, byte: u8) -> (m: Vector)
    ensures
        is_mask_of(m, data, is_byte(byte)),
{
    eq(data, splat(byte))
}

/// The condition that a byte is above `MIN`.
pub fn greater_than<const MIN: u8>() -> (cond: impl Fn(Vector) -> Vector)
    ensures
        decides(cond, above(MIN)),
{
    move |data: Vector| -> (m: Vector)
        ensures is_mask_of(m, data, above(MIN)),
    {
        if MIN == 255 {
            let m = splat(0);
            proof {
                lemma_mask_constant(m, data, false, above(MIN));
            }
            m
        } else if MIN >= 128 {
            // below zero as signed, and above the bound among those
            let negative = lt(data, 0);
            let beyond = gt(data, MIN);
            proof {
                lemma_mask_join(
                    negative,
                    beyond,
                    data,
                    signed_below(0),
                    signed_above(MIN),
                    above(MIN),
                    either(signed_below(0), signed_above(MIN)),
                    unlike(signed_below(0), signed_above(MIN)),
                );
            }
            and(negative, beyond)
        } else {
            // below zero as signed, or above the bound among the others
            let negative = lt(data, 0);
            let beyond = gt(data, MIN);
            proof {
                lemma_mask_join(
                    negative,
                    beyond,
                    data,
                    signed_below(0),
                    signed_above(MIN),
                    both(signed_below(0), signed_above(MIN)),
                    above(MIN),
                    unlike(signed_below(0), signed_above(MIN)),
                );
            }
            or(negative, beyond)
        }
    }
}

/// The condition that a byte is `MIN` or above it.
pub fn greater_than_or_eq<const MIN: u8>() -> (cond: impl Fn(Vector) -> Vector)
    ensures
        decides(cond, at_least(MIN)),
{
    move |data: Vector| -> (m: Vector)
        ensures is_mask_of(m, data, at_least(MIN)),
    {
        if MIN == 255 {
            let m = same(data, 255);
            proof {
                assert(is_mask_of(m, data, at_least(MIN)));
            }
            m
        } else if MIN >= 128 {
            let negative = lt(data, 0);
            let beyond = ge(data, MIN);
            proof {
                lemma_mask_join(
                    negative,
                    beyond,
                    data,
                    signed_below(0),
                    signed_at_least(MIN),
                    at_least(MIN),
                    either(signed_below(0), signed_at_least(MIN)),
                    unlike(signed_below(0), signed_at_least(MIN)),
                );
            }
            and(negative, beyond)
        } else if MIN == 0 {
            let m = splat(0xFF);
            proof {
                lemma_mask_constant(m, data, true, at_least(MIN));
            }
            m
        } else {
            let negative = lt(data, 0);
            let beyond = ge(data, MIN);
            proof {
                lemma_mask_join(
                    negative,
                    beyond,
                    data,
                    signed_below(0),
                    signed_at_least(MIN),
                    both(signed_below(0), signed_at_least(MIN)),
                    at_least(MIN),
                    unlike(signed_below(0), signed_at_least(MIN)),
                );
            }
            or(negative, beyond)
        }
    }
}

/// The condition that a byte is below `MAX`.
pub fn less_than<const MAX: u8>() -> (cond: impl Fn(Vector) -> Vector)
    ensures
        decides(cond, below(MAX)),
{
    move |data: Vector| -> (m: Vector)
        ensures is_mask_of(m, data, below(MAX)),
    {
        if MAX >= 128 {
            // not below zero as signed, or below the bound among the others
            let positive = ge(data, 0);
            let short = lt(data, MAX);
            proof {
                lemma_mask_join(
                    positive,
                    short,
                    data,
                    signed_at_least(0),
                    signed_below(MAX),
                    both(signed_at_least(0), signed_below(MAX)),
                    below(MAX),
                    unlike(signed_at_least(0), signed_below(MAX)),
                );
            }
            or(positive, short)
        } else if MAX == 0 {
            let m = splat(0);
            proof {
                lemma_mask_constant(m, data, false, below(MAX));
            }
            m
        } else {
            // not below zero as signed, and below the bound among those
            let positive = ge(data, 0);
            let short = lt(data, MAX);
            proof {
                lemma_mask_join(
                    positive,
                    short,
                    data,
                    signed_at_least(0),
                    signed_below(MAX),
                    below(MAX),
                    either(signed_at_least(0), signed_below(MAX)),
                    unlike(signed_at_least(0), signed_below(MAX)),
                );
            }
            and(positive, short)
        }
    }
}

/// The condition that a byte is `MAX` or below it.
pub fn less_than_or_eq<const MAX: u8>() -> (cond: impl Fn(Vector) -> Vector)
    ensures
        decides(cond, at_most(MAX)),
{
    move |data: Vector| -> (m: Vector)
        ensures is_mask_of(m, data, at_most(MAX)),
    {
        if MAX == 255 {
            let m = splat(0xFF);
            proof {
                lemma_mask_constant(m, data, true, at_most(MAX));
            }
            m
        } else if MAX >= 128 {
            let positive = ge(data, 0);
            let short = le(data, MAX);
            proof {
                lemma_mask_join(
                    positive,
                    short,
                    data,
                    signed_at_least(0),
                    signed_at_most(MAX),
                    both(signed_at_least(0), signed_at_most(MAX)),
                    at_most(MAX),
                    unlike(signed_at_least(0), signed_at_most(MAX)),
                );
            }
            or(positive, short)
        } else if MAX == 0 {
            let m = same(data, 0);
            proof {
                assert(is_mask_of(m, data, at_most(MAX)));
            }
            m
        } else {
            let positive = ge(data, 0);
            let short = le(data, MAX);
            proof {
                lemma_mask_join(
                    positive,
                    short,
                    data,
                    signed_at_least(0),
                    signed_at_most(MAX),
                    at_most(MAX),
                    either(signed_at_least(0), signed_at_most(MAX)),
                    unlike(signed_at_least(0), signed_at_most(MAX)),
                );
            }
            and(positive, short)
        }
    }
}

/// What [`range`] tests: the unsigned range where `min` is not above `max`,
/// and otherwise the range between the two read as signed numbers.
pub open spec fn range_test(min: u8, max: u8) -> spec_fn(u8) -> bool {
    if min <= max {
        within(min, max)
    } else {
        signed_within(min, max)
    }
}

/// The condition that a byte lies between `MIN` and `MAX`, the two included,
/// for `MIN` not above `MAX`.
pub fn range<const MIN: u8, const MAX: u8>() -> (cond: impl Fn(Vector) -> Vector)
    ensures
        decides(cond, range_test(MIN, MAX)),
        MIN <= MAX ==> decides(cond, within(MIN, MAX)),
{
    move |data: Vector| -> (m: Vector)
        ensures is_mask_of(m, data, range_test(MIN, MAX)),
    {
        if MIN == MAX {
            let m = same(data, MIN);
            proof {
                assert(is_mask_of(m, data, range_test(MIN, MAX)));
            }
            m
        } else if MIN <= 127 && MAX >= 129 {
            // the bounds lie on either side of 128: from the lower bound up
            // to 127, or from 128 up to the upper bound
            let low = ge(data, MIN);
            let high = le(data, MAX);
            proof {
                lemma_mask_join(
                    low,
                    high,
                    data,
                    signed_at_least(MIN),
                    signed_at_most(MAX),
                    both(signed_at_least(MIN), signed_at_most(MAX)),
                    range_test(MIN, MAX),
                    unlike(signed_at_least(MIN), signed_at_most(MAX)),
                );
            }
            or(low, high)
        } else if MIN <= 127 && MAX == 128 {
            let low = ge(data, MIN);
            let high = same(data, MAX);
            proof {
                lemma_mask_join(
                    low,
                    high,
                    data,
                    signed_at_least(MIN),
                    is_byte(MAX),
                    both(signed_at_least(MIN), is_byte(MAX)),
                    range_test(MIN, MAX),
                    unlike(signed_at_least(MIN), is_byte(MAX)),
                );
            }
            or(low, high)
        } else {
            let low = ge(data, MIN);
            let high = le(data, MAX);
            proof {
                lemma_mask_join(
                    low,
                    high,
                    data,
                    signed_at_least(MIN),
                    signed_at_most(MAX),
                    range_test(MIN, MAX),
                    either(signed_at_least(MIN), signed_at_most(MAX)),
                    unlike(signed_at_least(MIN), signed_at_most(MAX)),
                );
            }
            and(low, high)
        }
    }
}

/// What [`exclusive_range`] tests: the unsigned range where `min` is not above
/// `max`; nothing where the two differ by one; and otherwise the range
/// between the two read as signed numbers.
pub open spec fn exclusive_range_test(min: u8, max: u8) -> spec_fn(u8) -> bool {
    if min <= max {
        strictly_within(min, max)
    } else if min - max == 1 {
        never()
    } else {
        signed_strictly_within(min, max)
    }
}

/// The condition that a byte lies between `MIN` and `MAX` and is neither, for
/// `MIN` not above `MAX`.
pub fn exclusive_range<const MIN: u8, const MAX: u8>() -> (cond: impl Fn(Vector) -> Vector)
    ensures
        decides(cond, exclusive_range_test(MIN, MAX)),
        MIN <= MAX ==> decides(cond, strictly_within(MIN, MAX)),
{
    move |data: Vector| -> (m: Vector)
        ensures is_mask_of(m, data, exclusive_range_test(MIN, MAX)),
    {
        if MIN == MAX || (MIN < MAX && MAX - MIN == 1) || (MAX < MIN && MIN - MAX == 1) {
            let m = splat(0);
            proof {
                lemma_mask_constant(m, data, false, exclusive_range_test(MIN, MAX));
            }
            m
        } else if MIN <= 127 && MAX >= 129 {
            let low = gt(data, MIN);
            let high = lt(data, MAX);
            proof {
                lemma_mask_join(
                    low,
                    high,
                    data,
                    signed_above(MIN),
                    signed_below(MAX),
                    both(signed_above(MIN), signed_below(MAX)),
                    exclusive_range_test(MIN, MAX),
                    unlike(signed_above(MIN), signed_below(MAX)),
                );
            }
            or(low, high)
        } else if MIN <= 127 && MAX == 128 {
            let m = gt(data, MIN);
            proof {
                assert(is_mask_of(m, data, exclusive_range_test(MIN, MAX)));
            }
            m
        } else {
            let low = gt(data, MIN);
            let high = lt(data, MAX);
            proof {
                lemma_mask_join(
                    low,
                    high,
                    data,
                    signed_above(MIN),
                    signed_below(MAX),
                    exclusive_range_test(MIN, MAX),
                    either(signed_above(MIN), signed_below(MAX)),
                    unlike(signed_above(MIN), signed_below(MAX)),
                );
            }
            and(low, high)
        }
    }
}

} // verus!

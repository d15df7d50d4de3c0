//! Registers of sixteen byte lanes, the scans built on them, and the
//! conditions that compare a byte with fixed bounds.

use crate::arch::lane::{is_mask_of, lemma_mask_constant, lemma_mask_join};
use crate::cond::{
    above, at_least, at_most, below, decides, either, found, lemma_first_match_is_unique,
    strictly_within, unlike, within,
};
use vstd::prelude::*;

pub mod aarch64;
pub mod cast;
pub mod fallback;
pub mod fallback_scan;
pub mod lane;
pub mod simd_scan;
pub mod x86_64;

pub use fallback::{
    and, eq, load, load_aligned, load_partial, load_unchecked, maybe_aligned_load, not, or, splat,
    xor, MoveMask, Vector, STEP,
};
pub use simd_scan as scan;

verus! {

/// Number of byte lanes in a register, and so the stride of a scan.
pub const WIDTH: usize = 16;

/// The condition that a byte is below `MAX`.
pub fn less_than<const MAX: u8>() -> (cond: impl Fn(Vector) -> Vector)
    ensures
        decides(cond, below(MAX)),
{
    move |data: Vector| -> (m: Vector)
        ensures is_mask_of(m, data, below(MAX)),
    {
        if MAX == 0 {
            let m = splat(0);
            proof {
                lemma_mask_constant(m, data, false, below(MAX));
            }
            m
        } else {
            fallback::less_than(data, splat(MAX))
        }
    }
}

/// The condition that a byte is `MAX` or below it.
pub fn less_than_or_eq<const MAX: u8>() -> (cond: impl Fn(Vector) -> Vector)
    ensures
        decides(cond, at_most(MAX)),
{
    move |data: Vector| -> (m: Vector)
        ensures is_mask_of(m, data, at_most(MAX)),
    {
        if MAX == 255 {
            let m = splat(0xFF);
            proof {
                lemma_mask_constant(m, data, true, at_most(MAX));
            }
            m
        } else {
            fallback::less_than_or_eq(data, splat(MAX))
        }
    }
}

/// The condition that a byte is above `MIN`.
pub fn greater_than<const MIN: u8>() -> (cond: impl Fn(Vector) -> Vector)
    ensures
        decides(cond, above(MIN)),
{
    move |data: Vector| -> (m: Vector)
        ensures is_mask_of(m, data, above(MIN)),
    {
        if MIN == 255 {
            let m = splat(0);
            proof {
                lemma_mask_constant(m, data, false, above(MIN));
            }
            m
        } else {
            fallback::greater_than(data, splat(MIN))
        }
    }
}

/// The condition that a byte is `MIN` or above it.
pub fn greater_than_or_eq<const MIN: u8>() -> (cond: impl Fn(Vector) -> Vector)
    ensures
        decides(cond, at_least(MIN)),
{
    move |data: Vector| -> (m: Vector)
        ensures is_mask_of(m, data, at_least(MIN)),
    {
        if MIN == 0 {
            let m = splat(0xFF);
            proof {
                lemma_mask_constant(m, data, true, at_least(MIN));
            }
            m
        } else {
            fallback::greater_than_or_eq(data, splat(MIN))
        }
    }
}

/// The condition that a byte lies between `MIN` and `MAX`, the two included.
/// Where `MIN` is above `MAX` no byte does.
pub fn range<const MIN: u8, const MAX: u8>() -> (cond: impl Fn(Vector) -> Vector)
    ensures
        decides(cond, within(MIN, MAX)),
{
    move |data: Vector| -> (m: Vector)
        ensures is_mask_of(m, data, within(MIN, MAX)),
    {
        if MIN == MAX {
            eq(data, splat(MIN))
        } else {
            let low = fallback::greater_than_or_eq(data, splat(MIN));
            let high = fallback::less_than_or_eq(data, splat(MAX));
            proof {
                lemma_mask_join(
                    low,
                    high,
                    data,
                    at_least(MIN),
                    at_most(MAX),
                    within(MIN, MAX),
                    either(at_least(MIN), at_most(MAX)),
                    unlike(at_least(MIN), at_most(MAX)),
                );
            }
            and(low, high)
        }
    }
}

/// The condition that a byte lies between `MIN` and `MAX` and is neither.
/// Where `MAX` is not at least two above `MIN` no byte does.
pub fn exclusive_range<const MIN: u8, const MAX: u8>() -> (cond: impl Fn(Vector) -> Vector)
    ensures
        decides(cond, strictly_within(MIN, MAX)),
{
    move |data: Vector| -> (m: Vector)
        ensures is_mask_of(m, data, strictly_within(MIN, MAX)),
    {
        if MIN == MAX || (MIN < MAX && MAX - MIN == 1) || (MAX < MIN && MIN - MAX == 1) {
            let m = splat(0);
            proof {
                lemma_mask_constant(m, data, false, strictly_within(MIN, MAX));
            }
            m
        } else {
            let low = fallback::greater_than(data, splat(MIN));
            let high = fallback::less_than(data, splat(MAX));
            proof {
                lemma_mask_join(
                    low,
                    high,
                    data,
                    above(MIN),
                    below(MAX),
                    strictly_within(MIN, MAX),
                    either(above(MIN), below(MAX)),
                    unlike(above(MIN), below(MAX)),
                );
            }
            and(low, high)
        }
    }
}

/// The two scans find the same first match, whatever the buffer's address.
pub proof fn lemma_scans_find_alike<F: Fn(Vector) -> Vector>(
    data: &[u8],
    cond: F,
    p: spec_fn(u8) -> bool,
    aligned: Option<usize>,
    plain: Option<usize>,
)
    requires
        decides(cond, p),
        call_ensures(simd_scan::search::<F>, (data, cond), aligned),
        call_ensures(fallback_scan::search::<F>, (data, cond), plain),
    ensures
        aligned == plain,
{
    lemma_first_match_is_unique(data@, p, found(aligned), found(plain));
}

/// The two scans give the same verdict on whether every byte passes.
pub proof fn lemma_scans_judge_alike<F: Fn(Vector) -> Vector>(
    data: &[u8],
    cond: F,
    p: spec_fn(u8) -> bool,
    aligned: bool,
    plain: bool,
)
    requires
        decides(cond, p),
        call_ensures(simd_scan::for_all_ensure::<F>, (data, cond), aligned),
        call_ensures(fallback_scan::for_all_ensure::<F>, (data, cond), plain),
    ensures
        aligned == plain,
{
}

} // verus!

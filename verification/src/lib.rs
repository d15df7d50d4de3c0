//! Searching and validating bytes with conditions that are evaluated sixteen
//! bytes at a time.
//!
//! A condition is a function from register to register that tests every lane's
//! byte. [`eq`] and the range family in [`arch`] make the elementary ones, and
//! [`not`], [`and`], [`or`], [`xor`] and the `all`, `any` and `one_of` families
//! combine them. [`search`] finds the first byte of a buffer that passes a
//! condition; [`for_all_ensure`] says whether every byte does.

use crate::arch::lane::{
    is_all_set, is_first_set, is_mask_of, lanes, lemma_lane_bits_all, lemma_lane_bits_first,
};
use crate::arch::{MoveMask, Vector};
use crate::cond::{
    agrees, all_before, all_match, both, decides, either, finds, found, is_byte, is_window,
    judges, lemma_mask_and, lemma_mask_negation, lemma_mask_or, lemma_mask_xor,
    lemma_window_ensure, lemma_window_prefix, lemma_window_search, misses, negation, total,
    unlike,
};
use vstd::prelude::*;

pub mod arch;
pub mod combinator;
pub mod cond;
pub mod require;

pub use combinator::{all3, all4, any3, any4, one_of2, one_of3, one_of4};

verus! {

/// Whether `cond` holds in every lane of `data`.
#[must_use]
pub fn ensure<F: Fn(Vector) -> Vector>(data: Vector, cond: F) -> (res: bool)
    requires
        cond.requires((data,)),
    ensures
        exists|m: Vector| #[trigger] cond.ensures((data,), m) && res == is_all_set(m),
        judges(cond, lanes(data), res),
{
    let outcome = cond(data);
    let mask = MoveMask::new(outcome);
    let res = mask.all_bits_set();
    proof {
        lemma_lane_bits_all(mask@, outcome);
        assert(is_window(data, lanes(data), 0, 16));
        assert(agrees(cond, lanes(data), 0, true));
        lemma_window_ensure(cond, lanes(data), 0, true, data, 0, outcome, mask@, res);
        assert forall|p: spec_fn(u8) -> bool| #[trigger] decides(cond, p) implies res == all_match(
            lanes(data),
            p,
        ) by {
            assert(res == all_before(lanes(data), p, 16));
        }
    }
    res
}

/// The first lane of `data` in which `cond` holds.
pub fn find<F: Fn(Vector) -> Vector>(data: Vector, cond: F) -> (res: Option<u32>)
    requires
        cond.requires((data,)),
    ensures
        exists|m: Vector| #[trigger]
            cond.ensures((data,), m) && is_first_set(
                m,
                match res {
                    Some(k) => Some(k as int),
                    None => None,
                },
            ),
        finds(
            cond,
            lanes(data),
            match res {
                Some(k) => Some(k as int),
                None => None,
            },
        ),
{
    let outcome = cond(data);
    let mask = MoveMask::new(outcome);
    let len = mask.trailing_zeros();
    proof {
        lemma_lane_bits_first(mask@, outcome, len as int);
        assert(is_window(data, lanes(data), 0, 16));
        assert(misses(cond, lanes(data), 0));
        lemma_window_search(cond, lanes(data), 0, data, 0, 16, outcome, mask@, len as int);
    }
    if len >= MoveMask::MAX_TRAIL {
        None
    } else {
        Some(len)
    }
}

/// Whether every byte of `data` passes `cond`, testing every window of the
/// buffer whatever the ones before it gave.
///
/// The work done does not depend on where a byte fails. That is meant to give
/// away less through timing than [`for_all_ensure`] does; it is not a promise
/// of constant time on any machine.
#[must_use]
pub fn for_all_ensure_ct<F: Fn(Vector) -> Vector>(data: &[u8], cond: F) -> (res: bool)
    requires
        total(cond),
    ensures
        judges(cond, data@, res),
{
    let mut valid = true;
    if data.len() >= arch::WIDTH {
        arch::scan::for_all_ensure_ct(data, cond, &mut valid);
    } else {
        let loaded = arch::load_partial(data, data.len());
        let outcome = cond(loaded);
        let mask = MoveMask::new(outcome);
        let ones = mask.trailing_ones();
        proof {
            lemma_window_prefix(
                cond,
                data@,
                loaded,
                data@.len() as int,
                outcome,
                mask@,
                ones as int,
            );
            assert forall|p: spec_fn(u8) -> bool| #[trigger] decides(cond, p) implies (ones
                >= data.len()) == all_match(data@, p) by {
                assert((ones >= data.len()) == all_before(data@, p, data@.len() as int));
            }
        }
        valid = valid && ones >= data.len() as u32;
    }
    valid
}

/// Whether every byte of `data` passes `cond`.
#[must_use]
pub fn for_all_ensure<F: Fn(Vector) -> Vector>(data: &[u8], cond: F) -> (res: bool)
    requires
        total(cond),
    ensures
        judges(cond, data@, res),
{
    if data.len() >= arch::WIDTH {
        arch::scan::for_all_ensure(data, cond)
    } else {
        let loaded = arch::load_partial(data, data.len());
        let outcome = cond(loaded);
        let mask = MoveMask::new(outcome);
        let ones = mask.trailing_ones();
        proof {
            lemma_window_prefix(
                cond,
                data@,
                loaded,
                data@.len() as int,
                outcome,
                mask@,
                ones as int,
            );
            assert forall|p: spec_fn(u8) -> bool| #[trigger] decides(cond, p) implies (ones
                >= data.len()) == all_match(data@, p) by {
                assert((ones >= data.len()) == all_before(data@, p, data@.len() as int));
            }
        }
        ones >= data.len() as u32
    }
}

/// The first index of `data` whose byte passes `cond`, or `None` if no byte
/// does.
pub fn search<F: Fn(Vector) -> Vector>(data: &[u8], cond: F) -> (res: Option<usize>)
    requires
        total(cond),
    ensures
        res matches Some(i) ==> i < data.len(),
        finds(cond, data@, found(res)),
{
    if data.len() >= arch::WIDTH {
        arch::scan::search(data, cond)
    } else {
        let loaded = arch::load_partial(data, data.len());
        let outcome = cond(loaded);
        let mask = MoveMask::new(outcome);
        let offset = mask.trailing_zeros();
        proof {
            assert(misses(cond, data@, 0));
            lemma_window_search(
                cond,
                data@,
                0,
                loaded,
                0,
                data@.len() as int,
                outcome,
                mask@,
                offset as int,
            );
        }
        if offset < data.len() as u32 {
            Some(offset as usize)
        } else {
            None
        }
    }
}

/// `cond` itself. A closure written as the argument is thereby one that may
/// be called any number of times.
pub(crate) fn callable<F: Fn(Vector) -> Vector>(cond: F) -> (same: F)
    ensures
        same == cond,
{
    cond
}

/// The condition that a byte is `expected`.
pub fn eq(expected: u8) -> (cond: impl Fn(Vector) -> Vector)
    ensures
        decides(cond, is_byte(expected)),
{
    move |data: Vector| -> (m: Vector)
        ensures
            is_mask_of(m, data, is_byte(expected)),
    {
        arch::eq(data, arch::splat(expected))
    }
}

/// The condition that `cond` does not hold: every bit of its outcome inverted.
pub fn not<F: Fn(Vector) -> Vector>(cond: F) -> (negated: impl Fn(Vector) -> Vector)
    requires
        total(cond),
    ensures
        total(negated),
        forall|v: Vector, m: Vector| #[trigger]
            negated.ensures((v,), m) ==> exists|x: Vector| #[trigger]
                cond.ensures((v,), x) && m == !x,
        forall|p: spec_fn(u8) -> bool| #[trigger]
            decides(cond, p) ==> decides(negated, negation(p)),
{
    let negated = callable(move |data: Vector| -> (m: Vector)
        ensures
            exists|x: Vector| cond.ensures((data,), x) && m == !x,
    {
        arch::not(cond(data))
    });
    proof {
        assert forall|p: spec_fn(u8) -> bool| #[trigger] decides(cond, p) implies decides(
            negated,
            negation(p),
        ) by {
            assert forall|v: Vector, m: Vector| #[trigger]
                negated.ensures((v,), m) implies is_mask_of(m, v, negation(p)) by {
                let x = choose|x: Vector| #[trigger] cond.ensures((v,), x) && m == !x;
                lemma_mask_negation(x, v, p);
            }
        }
    }
    negated
}

/// The condition that `a` and `b` both hold: the bitwise and of their outcomes.
pub fn and<A, B>(a: A, b: B) -> (joined: impl Fn(Vector) -> Vector) where
    A: Fn(Vector) -> Vector,
    B: Fn(Vector) -> Vector,

    requires
        total(a),
        total(b),
    ensures
        total(joined),
        forall|v: Vector, m: Vector| #[trigger]
            joined.ensures((v,), m) ==> exists|x: Vector, y: Vector|
                #![trigger a.ensures((v,), x), b.ensures((v,), y)]
                a.ensures((v,), x) && b.ensures((v,), y) && m == x & y,
        forall|p: spec_fn(u8) -> bool, q: spec_fn(u8) -> bool|
            #![trigger decides(a, p), decides(b, q)]
            decides(a, p) && decides(b, q) ==> decides(joined, both(p, q)),
{
    let joined = callable(move |data: Vector| -> (m: Vector)
        ensures
            exists|x: Vector, y: Vector|
                a.ensures((data,), x) && b.ensures((data,), y) && m == x & y,
    {
        arch::and(a(data), b(data))
    });
    proof {
        assert forall|p: spec_fn(u8) -> bool, q: spec_fn(u8) -> bool|
            #![trigger decides(a, p), decides(b, q)]
            decides(a, p) && decides(b, q) implies decides(joined, both(p, q)) by {
            assert forall|v: Vector, m: Vector| #[trigger]
                joined.ensures((v,), m) implies is_mask_of(m, v, both(p, q)) by {
                let (x, y) = choose|x: Vector, y: Vector|
                    #![trigger a.ensures((v,), x), b.ensures((v,), y)]
                    a.ensures((v,), x) && b.ensures((v,), y) && m == x & y;
                lemma_mask_and(x, y, v, p, q);
            }
        }
    }
    joined
}

/// The condition that `a` or `b` holds: the bitwise or of their outcomes.
pub fn or<A, B>(a: A, b: B) -> (joined: impl Fn(Vector) -> Vector) where
    A: Fn(Vector) -> Vector,
    B: Fn(Vector) -> Vector,

    requires
        total(a),
        total(b),
    ensures
        total(joined),
        forall|v: Vector, m: Vector| #[trigger]
            joined.ensures((v,), m) ==> exists|x: Vector, y: Vector|
                #![trigger a.ensures((v,), x), b.ensures((v,), y)]
                a.ensures((v,), x) && b.ensures((v,), y) && m == x | y,
        forall|p: spec_fn(u8) -> bool, q: spec_fn(u8) -> bool|
            #![trigger decides(a, p), decides(b, q)]
            decides(a, p) && decides(b, q) ==> decides(joined, either(p, q)),
{
    let joined = callable(move |data: Vector| -> (m: Vector)
        ensures
            exists|x: Vector, y: Vector|
                a.ensures((data,), x) && b.ensures((data,), y) && m == x | y,
    {
        arch::or(a(data), b(data))
    });
    proof {
        assert forall|p: spec_fn(u8) -> bool, q: spec_fn(u8) -> bool|
            #![trigger decides(a, p), decides(b, q)]
            decides(a, p) && decides(b, q) implies decides(joined, either(p, q)) by {
            assert forall|v: Vector, m: Vector| #[trigger]
                joined.ensures((v,), m) implies is_mask_of(m, v, either(p, q)) by {
                let (x, y) = choose|x: Vector, y: Vector|
                    #![trigger a.ensures((v,), x), b.ensures((v,), y)]
                    a.ensures((v,), x) && b.ensures((v,), y) && m == x | y;
                lemma_mask_or(x, y, v, p, q);
            }
        }
    }
    joined
}

/// The condition that just one of `a` and `b` holds: the bitwise exclusive or
/// of their outcomes.
pub fn xor<A, B>(a: A, b: B) -> (joined: impl Fn(Vector) -> Vector) where
    A: Fn(Vector) -> Vector,
    B: Fn(Vector) -> Vector,

    requires
        total(a),
        total(b),
    ensures
        total(joined),
        forall|v: Vector, m: Vector| #[trigger]
            joined.ensures((v,), m) ==> exists|x: Vector, y: Vector|
                #![trigger a.ensures((v,), x), b.ensures((v,), y)]
                a.ensures((v,), x) && b.ensures((v,), y) && m == x ^ y,
        forall|p: spec_fn(u8) -> bool, q: spec_fn(u8) -> bool|
            #![trigger decides(a, p), decides(b, q)]
            decides(a, p) && decides(b, q) ==> decides(joined, unlike(p, q)),
{
    let joined = callable(move |data: Vector| -> (m: Vector)
        ensures
            exists|x: Vector, y: Vector|
                a.ensures((data,), x) && b.ensures((data,), y) && m == x ^ y,
    {
        arch::xor(a(data), b(data))
    });
    proof {
        assert forall|p: spec_fn(u8) -> bool, q: spec_fn(u8) -> bool|
            #![trigger decides(a, p), decides(b, q)]
            decides(a, p) && decides(b, q) implies decides(joined, unlike(p, q)) by {
            assert forall|v: Vector, m: Vector| #[trigger]
                joined.ensures((v,), m) implies is_mask_of(m, v, unlike(p, q)) by {
                let (x, y) = choose|x: Vector, y: Vector|
                    #![trigger a.ensures((v,), x), b.ensures((v,), y)]
                    a.ensures((v,), x) && b.ensures((v,), y) && m == x ^ y;
                lemma_mask_xor(x, y, v, p, q);
            }
        }
    }
    joined
}

/// Whatever [`for_all_ensure`] and [`for_all_ensure_ct`] return for the same
/// buffer and the same condition is the same: whether every byte passes the
/// test that the condition makes.
pub proof fn lemma_ensure_ct_agrees<F: Fn(Vector) -> Vector>(
    data: &[u8],
    cond: F,
    p: spec_fn(u8) -> bool,
    stopping: bool,
    steady: bool,
)
    requires
        decides(cond, p),
        call_ensures(for_all_ensure::<F>, (data, cond), stopping),
        call_ensures(for_all_ensure_ct::<F>, (data, cond), steady),
    ensures
        stopping == steady,
        stopping == all_match(data@, p),
{
}

/// What [`search`] returns on a condition is the least index of the buffer
/// whose byte passes the test that the condition makes, and `None` just where
/// [`for_all_ensure`] says of the opposite test that every byte passes it.
pub proof fn lemma_search_finds_least<F: Fn(Vector) -> Vector, G: Fn(Vector) -> Vector>(
    data: &[u8],
    cond: F,
    opposite: G,
    p: spec_fn(u8) -> bool,
    first: Option<usize>,
    none: bool,
)
    requires
        decides(cond, p),
        decides(opposite, negation(p)),
        call_ensures(search::<F>, (data, cond), first),
        call_ensures(for_all_ensure::<G>, (data, opposite), none),
    ensures
        first matches Some(i) ==> i < data@.len() && p(data@[i as int]) && forall|j: int|
            0 <= j < i ==> !p(#[trigger] data@[j]),
        first is None <==> none,
{
    if first is None {
        assert forall|j: int| 0 <= j < data@.len() implies negation(p)(#[trigger] data@[j]) by {
            assert(!p(data@[j]));
        }
    } else {
        assert(!negation(p)(data@[first->0 as int]));
    }
}

} // verus!

//! Conditions made of three or four others, and the conditions that just
//! one of several holds.
//!
//! Each evaluates every one of its conditions once on the register it is
//! given and joins the outcomes with bit operations.

use crate::arch::lane::is_mask_of;
use crate::arch::{self, Vector};
use crate::callable;
use crate::cond::{
    both, decides, either, lemma_mask_and, lemma_mask_negation, lemma_mask_or,
    lemma_mask_same_test, lemma_mask_xor, negation, odd_of_four, one_of_three, total, unlike,
};
use vstd::prelude::*;

verus! {

/// The condition that `a`, `b` and `c` all hold.
pub fn all3<A, B, C>(a: A, b: B, c: C) -> (joined: impl Fn(Vector) -> Vector) where
    A: Fn(Vector) -> Vector,
    B: Fn(Vector) -> Vector,
    C: Fn(Vector) -> Vector,

    requires
        total(a),
        total(b),
        total(c),
    ensures
        total(joined),
        forall|v: Vector, m: Vector| #[trigger]
            joined.ensures((v,), m) ==> exists|x: Vector, y: Vector, z: Vector|
                #![trigger a.ensures((v,), x), b.ensures((v,), y), c.ensures((v,), z)]
                a.ensures((v,), x) && b.ensures((v,), y) && c.ensures((v,), z) &&
                    m == (x & y) & z,
        forall|
            p: spec_fn(u8) -> bool,
            q: spec_fn(u8) -> bool,
            r: spec_fn(u8) -> bool,
        |
            #![trigger decides(a, p), decides(b, q), decides(c, r)]
            decides(a, p) && decides(b, q) && decides(c, r) ==> decides(
                joined,
                both(both(p, q), r),
            ),
{
    let joined = callable(move |data: Vector| -> (m: Vector)
        ensures
            exists|x: Vector, y: Vector, z: Vector|
                a.ensures((data,), x) && b.ensures((data,), y) && c.ensures((data,), z) &&
                    m == (x & y) & z,
    {
        let x = a(data);
        let y = b(data);
        let z = c(data);
        arch::and(arch::and(x, y), z)
    });
    proof {
        assert forall|
            p: spec_fn(u8) -> bool,
            q: spec_fn(u8) -> bool,
            r: spec_fn(u8) -> bool,
        |
            #![trigger decides(a, p), decides(b, q), decides(c, r)]
            decides(a, p) && decides(b, q) && decides(c, r) implies decides(
            joined,
            both(both(p, q), r),
        ) by {
            assert forall|v: Vector, m: Vector| #[trigger]
                joined.ensures((v,), m) implies is_mask_of(
                m,
                v,
                both(both(p, q), r),
            ) by {
                let (x, y, z) = choose|x: Vector, y: Vector, z: Vector|
                    #![trigger a.ensures((v,), x), b.ensures((v,), y), c.ensures((v,), z)]
                    a.ensures((v,), x) && b.ensures((v,), y) && c.ensures((v,), z) &&
                        m == (x & y) & z;
                assert(is_mask_of(x, v, p));
                assert(is_mask_of(y, v, q));
                assert(is_mask_of(z, v, r));
                lemma_mask_and(x, y, v, p, q);
                lemma_mask_and(x & y, z, v, both(p, q), r);
            }
        }
    }
    joined
}

/// The condition that `a`, `b`, `c` and `d` all hold.
pub fn all4<A, B, C, D>(a: A, b: B, c: C, d: D) -> (joined: impl Fn(Vector) -> Vector) where
    A: Fn(Vector) -> Vector,
    B: Fn(Vector) -> Vector,
    C: Fn(Vector) -> Vector,
    D: Fn(Vector) -> Vector,

    requires
        total(a),
        total(b),
        total(c),
        total(d),
    ensures
        total(joined),
        forall|v: Vector, m: Vector| #[trigger]
            joined.ensures((v,), m) ==> exists|x: Vector, y: Vector, z: Vector, w: Vector|
                #![trigger a.ensures((v,), x), b.ensures((v,), y), c.ensures((v,), z), d.ensures((v,), w)]
                a.ensures((v,), x) && b.ensures((v,), y) && c.ensures((v,), z) &&
                    d.ensures((v,), w) && m == (x & y) & (z & w),
        forall|
            p: spec_fn(u8) -> bool,
            q: spec_fn(u8) -> bool,
            r: spec_fn(u8) -> bool,
            s: spec_fn(u8) -> bool,
        |
            #![trigger decides(a, p), decides(b, q), decides(c, r), decides(d, s)]
            decides(a, p) && decides(b, q) && decides(c, r) && decides(d, s) ==> decides(
                joined,
                both(both(p, q), both(r, s)),
            ),
{
    let joined = callable(move |data: Vector| -> (m: Vector)
        ensures
            exists|x: Vector, y: Vector, z: Vector, w: Vector|
                a.ensures((data,), x) && b.ensures((data,), y) && c.ensures((data,), z) &&
                    d.ensures((data,), w) && m == (x & y) & (z & w),
    {
        let x = a(data);
        let y = b(data);
        let z = c(data);
        let w = d(data);
        arch::and(arch::and(x, y), arch::and(z, w))
    });
    proof {
        assert forall|
            p: spec_fn(u8) -> bool,
            q: spec_fn(u8) -> bool,
            r: spec_fn(u8) -> bool,
            s: spec_fn(u8) -> bool,
        |
            #![trigger decides(a, p), decides(b, q), decides(c, r), decides(d, s)]
            decides(a, p) && decides(b, q) && decides(c, r) && decides(d, s) implies decides(
            joined,
            both(both(p, q), both(r, s)),
        ) by {
            assert forall|v: Vector, m: Vector| #[trigger]
                joined.ensures((v,), m) implies is_mask_of(
                m,
                v,
                both(both(p, q), both(r, s)),
            ) by {
                let (x, y, z, w) = choose|x: Vector, y: Vector, z: Vector, w: Vector|
                    #![trigger a.ensures((v,), x), b.ensures((v,), y), c.ensures((v,), z), d.ensures((v,), w)]
                    a.ensures((v,), x) && b.ensures((v,), y) && c.ensures((v,), z) &&
                        d.ensures((v,), w) && m == (x & y) & (z & w);
                assert(is_mask_of(x, v, p));
                assert(is_mask_of(y, v, q));
                assert(is_mask_of(z, v, r));
                assert(is_mask_of(w, v, s));
                lemma_mask_and(x, y, v, p, q);
                lemma_mask_and(z, w, v, r, s);
                lemma_mask_and(x & y, z & w, v, both(p, q), both(r, s));
            }
        }
    }
    joined
}

/// The condition that at least one of `a`, `b` and `c` holds.
pub fn any3<A, B, C>(a: A, b: B, c: C) -> (joined: impl Fn(Vector) -> Vector) where
    A: Fn(Vector) -> Vector,
    B: Fn(Vector) -> Vector,
    C: Fn(Vector) -> Vector,

    requires
        total(a),
        total(b),
        total(c),
    ensures
        total(joined),
        forall|v: Vector, m: Vector| #[trigger]
            joined.ensures((v,), m) ==> exists|x: Vector, y: Vector, z: Vector|
                #![trigger a.ensures((v,), x), b.ensures((v,), y), c.ensures((v,), z)]
                a.ensures((v,), x) && b.ensures((v,), y) && c.ensures((v,), z) &&
                    m == (x | y) | z,
        forall|
            p: spec_fn(u8) -> bool,
            q: spec_fn(u8) -> bool,
            r: spec_fn(u8) -> bool,
        |
            #![trigger decides(a, p), decides(b, q), decides(c, r)]
            decides(a, p) && decides(b, q) && decides(c, r) ==> decides(
                joined,
                either(either(p, q), r),
            ),
{
    let joined = callable(move |data: Vector| -> (m: Vector)
        ensures
            exists|x: Vector, y: Vector, z: Vector|
                a.ensures((data,), x) && b.ensures((data,), y) && c.ensures((data,), z) &&
                    m == (x | y) | z,
    {
        let x = a(data);
        let y = b(data);
        let z = c(data);
        arch::or(arch::or(x, y), z)
    });
    proof {
        assert forall|
            p: spec_fn(u8) -> bool,
            q: spec_fn(u8) -> bool,
            r: spec_fn(u8) -> bool,
        |
            #![trigger decides(a, p), decides(b, q), decides(c, r)]
            decides(a, p) && decides(b, q) && decides(c, r) implies decides(
            joined,
            either(either(p, q), r),
        ) by {
            assert forall|v: Vector, m: Vector| #[trigger]
                joined.ensures((v,), m) implies is_mask_of(
                m,
                v,
                either(either(p, q), r),
            ) by {
                let (x, y, z) = choose|x: Vector, y: Vector, z: Vector|
                    #![trigger a.ensures((v,), x), b.ensures((v,), y), c.ensures((v,), z)]
                    a.ensures((v,), x) && b.ensures((v,), y) && c.ensures((v,), z) &&
                        m == (x | y) | z;
                assert(is_mask_of(x, v, p));
                assert(is_mask_of(y, v, q));
                assert(is_mask_of(z, v, r));
                lemma_mask_or(x, y, v, p, q);
                lemma_mask_or(x | y, z, v, either(p, q), r);
            }
        }
    }
    joined
}

/// The condition that at least one of `a`, `b`, `c` and `d` holds.
pub fn any4<A, B, C, D>(a: A, b: B, c: C, d: D) -> (joined: impl Fn(Vector) -> Vector) where
    A: Fn(Vector) -> Vector,
    B: Fn(Vector) -> Vector,
    C: Fn(Vector) -> Vector,
    D: Fn(Vector) -> Vector,

    requires
        total(a),
        total(b),
        total(c),
        total(d),
    ensures
        total(joined),
        forall|v: Vector, m: Vector| #[trigger]
            joined.ensures((v,), m) ==> exists|x: Vector, y: Vector, z: Vector, w: Vector|
                #![trigger a.ensures((v,), x), b.ensures((v,), y), c.ensures((v,), z), d.ensures((v,), w)]
                a.ensures((v,), x) && b.ensures((v,), y) && c.ensures((v,), z) &&
                    d.ensures((v,), w) && m == (x | y) | (z | w),
        forall|
            p: spec_fn(u8) -> bool,
            q: spec_fn(u8) -> bool,
            r: spec_fn(u8) -> bool,
            s: spec_fn(u8) -> bool,
        |
            #![trigger decides(a, p), decides(b, q), decides(c, r), decides(d, s)]
            decides(a, p) && decides(b, q) && decides(c, r) && decides(d, s) ==> decides(
                joined,
                either(either(p, q), either(r, s)),
            ),
{
    let joined = callable(move |data: Vector| -> (m: Vector)
        ensures
            exists|x: Vector, y: Vector, z: Vector, w: Vector|
                a.ensures((data,), x) && b.ensures((data,), y) && c.ensures((data,), z) &&
                    d.ensures((data,), w) && m == (x | y) | (z | w),
    {
        let x = a(data);
        let y = b(data);
        let z = c(data);
        let w = d(data);
        arch::or(arch::or(x, y), arch::or(z, w))
    });
    proof {
        assert forall|
            p: spec_fn(u8) -> bool,
            q: spec_fn(u8) -> bool,
            r: spec_fn(u8) -> bool,
            s: spec_fn(u8) -> bool,
        |
            #![trigger decides(a, p), decides(b, q), decides(c, r), decides(d, s)]
            decides(a, p) && decides(b, q) && decides(c, r) && decides(d, s) implies decides(
            joined,
            either(either(p, q), either(r, s)),
        ) by {
            assert forall|v: Vector, m: Vector| #[trigger]
                joined.ensures((v,), m) implies is_mask_of(
                m,
                v,
                either(either(p, q), either(r, s)),
            ) by {
                let (x, y, z, w) = choose|x: Vector, y: Vector, z: Vector, w: Vector|
                    #![trigger a.ensures((v,), x), b.ensures((v,), y), c.ensures((v,), z), d.ensures((v,), w)]
                    a.ensures((v,), x) && b.ensures((v,), y) && c.ensures((v,), z) &&
                        d.ensures((v,), w) && m == (x | y) | (z | w);
                assert(is_mask_of(x, v, p));
                assert(is_mask_of(y, v, q));
                assert(is_mask_of(z, v, r));
                assert(is_mask_of(w, v, s));
                lemma_mask_or(x, y, v, p, q);
                lemma_mask_or(z, w, v, r, s);
                lemma_mask_or(x | y, z | w, v, either(p, q), either(r, s));
            }
        }
    }
    joined
}

/// The condition that just one of `a` and `b` holds.
pub fn one_of2<A, B>(a: A, b: B) -> (joined: impl Fn(Vector) -> Vector) where
    A: Fn(Vector) -> Vector,
    B: Fn(Vector) -> Vector,

    requires
        total(a),
        total(b),
    ensures
        total(joined),
        forall|v: Vector, m: Vector| #[trigger]
            joined.ensures((v,), m) ==> exists|x: Vector, y: Vector|
                #![trigger a.ensures((v,), x), b.ensures((v,), y)]
                a.ensures((v,), x) && b.ensures((v,), y) && m == x ^ y,
        forall|p: spec_fn(u8) -> bool, q: spec_fn(u8) -> bool|
            #![trigger decides(a, p), decides(b, q)]
            decides(a, p) && decides(b, q) ==> decides(
                joined,
                unlike(p, q),
            ),
{
    let joined = callable(move |data: Vector| -> (m: Vector)
        ensures
            exists|x: Vector, y: Vector|
                a.ensures((data,), x) && b.ensures((data,), y) && m == x ^ y,
    {
        let x = a(data);
        let y = b(data);
        arch::xor(x, y)
    });
    proof {
        assert forall|p: spec_fn(u8) -> bool, q: spec_fn(u8) -> bool|
            #![trigger decides(a, p), decides(b, q)]
            decides(a, p) && decides(b, q) implies decides(
            joined,
            unlike(p, q),
        ) by {
            assert forall|v: Vector, m: Vector| #[trigger]
                joined.ensures((v,), m) implies is_mask_of(
                m,
                v,
                unlike(p, q),
            ) by {
                let (x, y) = choose|x: Vector, y: Vector|
                    #![trigger a.ensures((v,), x), b.ensures((v,), y)]
                    a.ensures((v,), x) && b.ensures((v,), y) && m == x ^ y;
                assert(is_mask_of(x, v, p));
                assert(is_mask_of(y, v, q));
                lemma_mask_xor(x, y, v, p, q);
            }
        }
    }
    joined
}

/// The condition that just one of `a`, `b` and `c` holds: an odd number of
/// them holds, and not all three.
pub fn one_of3<A, B, C>(a: A, b: B, c: C) -> (joined: impl Fn(Vector) -> Vector) where
    A: Fn(Vector) -> Vector,
    B: Fn(Vector) -> Vector,
    C: Fn(Vector) -> Vector,

    requires
        total(a),
        total(b),
        total(c),
    ensures
        total(joined),
        forall|v: Vector, m: Vector| #[trigger]
            joined.ensures((v,), m) ==> exists|x: Vector, y: Vector, z: Vector|
                #![trigger a.ensures((v,), x), b.ensures((v,), y), c.ensures((v,), z)]
                a.ensures((v,), x) && b.ensures((v,), y) && c.ensures((v,), z) &&
                    m == ((x ^ y) ^ z) & !((x & y) & z),
        forall|
            p: spec_fn(u8) -> bool,
            q: spec_fn(u8) -> bool,
            r: spec_fn(u8) -> bool,
        |
            #![trigger decides(a, p), decides(b, q), decides(c, r)]
            decides(a, p) && decides(b, q) && decides(c, r) ==> decides(
                joined,
                one_of_three(p, q, r),
            ),
{
    let joined = callable(move |data: Vector| -> (m: Vector)
        ensures
            exists|x: Vector, y: Vector, z: Vector|
                a.ensures((data,), x) && b.ensures((data,), y) && c.ensures((data,), z) &&
                    m == ((x ^ y) ^ z) & !((x & y) & z),
    {
        let x = a(data);
        let y = b(data);
        let z = c(data);
        arch::and(arch::xor(arch::xor(x, y), z), arch::not(arch::and(arch::and(x, y), z)))
    });
    proof {
        assert forall|
            p: spec_fn(u8) -> bool,
            q: spec_fn(u8) -> bool,
            r: spec_fn(u8) -> bool,
        |
            #![trigger decides(a, p), decides(b, q), decides(c, r)]
            decides(a, p) && decides(b, q) && decides(c, r) implies decides(
            joined,
            one_of_three(p, q, r),
        ) by {
            assert forall|v: Vector, m: Vector| #[trigger]
                joined.ensures((v,), m) implies is_mask_of(
                m,
                v,
                one_of_three(p, q, r),
            ) by {
                let (x, y, z) = choose|x: Vector, y: Vector, z: Vector|
                    #![trigger a.ensures((v,), x), b.ensures((v,), y), c.ensures((v,), z)]
                    a.ensures((v,), x) && b.ensures((v,), y) && c.ensures((v,), z) &&
                        m == ((x ^ y) ^ z) & !((x & y) & z);
                assert(is_mask_of(x, v, p));
                assert(is_mask_of(y, v, q));
                assert(is_mask_of(z, v, r));
                lemma_mask_xor(x, y, v, p, q);
                lemma_mask_xor(x ^ y, z, v, unlike(p, q), r);
                lemma_mask_and(x, y, v, p, q);
                lemma_mask_and(x & y, z, v, both(p, q), r);
                lemma_mask_negation((x & y) & z, v, both(both(p, q), r));
                lemma_mask_and(
                    (x ^ y) ^ z,
                    !((x & y) & z),
                    v,
                    unlike(unlike(p, q), r),
                    negation(both(both(p, q), r)),
                );
                lemma_mask_same_test(
                    m,
                    v,
                    both(unlike(unlike(p, q), r), negation(both(both(p, q), r))),
                    one_of_three(p, q, r),
                );
            }
        }
    }
    joined
}

/// The condition that an odd number of `a`, `b`, `c` and `d` holds, and not
/// all four: that is, one of them or three.
///
/// Of conditions of which no two hold of the same byte, this is the condition
/// that just one holds. Of others it is not: where three hold, so does this.
pub fn one_of4<A, B, C, D>(a: A, b: B, c: C, d: D) -> (joined: impl Fn(Vector) -> Vector) where
    A: Fn(Vector) -> Vector,
    B: Fn(Vector) -> Vector,
    C: Fn(Vector) -> Vector,
    D: Fn(Vector) -> Vector,

    requires
        total(a),
        total(b),
        total(c),
        total(d),
    ensures
        total(joined),
        forall|v: Vector, m: Vector| #[trigger]
            joined.ensures((v,), m) ==> exists|x: Vector, y: Vector, z: Vector, w: Vector|
                #![trigger a.ensures((v,), x), b.ensures((v,), y), c.ensures((v,), z), d.ensures((v,), w)]
                a.ensures((v,), x) && b.ensures((v,), y) && c.ensures((v,), z) &&
                    d.ensures((v,), w) && m == ((x ^ y) ^ (z ^ w)) & !((x & y) & (z & w)),
        forall|
            p: spec_fn(u8) -> bool,
            q: spec_fn(u8) -> bool,
            r: spec_fn(u8) -> bool,
            s: spec_fn(u8) -> bool,
        |
            #![trigger decides(a, p), decides(b, q), decides(c, r), decides(d, s)]
            decides(a, p) && decides(b, q) && decides(c, r) && decides(d, s) ==> decides(
                joined,
                odd_of_four(p, q, r, s),
            ),
{
    let joined = callable(move |data: Vector| -> (m: Vector)
        ensures
            exists|x: Vector, y: Vector, z: Vector, w: Vector|
                a.ensures((data,), x) && b.ensures((data,), y) && c.ensures((data,), z) &&
                    d.ensures((data,), w) && m == ((x ^ y) ^ (z ^ w)) & !((x & y) & (z & w)),
    {
        let x = a(data);
        let y = b(data);
        let z = c(data);
        let w = d(data);
        arch::and(
            arch::xor(arch::xor(x, y), arch::xor(z, w)),
            arch::not(arch::and(arch::and(x, y), arch::and(z, w))),
        )
    });
    proof {
        assert forall|
            p: spec_fn(u8) -> bool,
            q: spec_fn(u8) -> bool,
            r: spec_fn(u8) -> bool,
            s: spec_fn(u8) -> bool,
        |
            #![trigger decides(a, p), decides(b, q), decides(c, r), decides(d, s)]
            decides(a, p) && decides(b, q) && decides(c, r) && decides(d, s) implies decides(
            joined,
            odd_of_four(p, q, r, s),
        ) by {
            assert forall|v: Vector, m: Vector| #[trigger]
                joined.ensures((v,), m) implies is_mask_of(
                m,
                v,
                odd_of_four(p, q, r, s),
            ) by {
                let (x, y, z, w) = choose|x: Vector, y: Vector, z: Vector, w: Vector|
                    #![trigger a.ensures((v,), x), b.ensures((v,), y), c.ensures((v,), z), d.ensures((v,), w)]
                    a.ensures((v,), x) && b.ensures((v,), y) && c.ensures((v,), z) &&
                        d.ensures((v,), w) && m == ((x ^ y) ^ (z ^ w)) & !((x & y) & (z & w));
                assert(is_mask_of(x, v, p));
                assert(is_mask_of(y, v, q));
                assert(is_mask_of(z, v, r));
                assert(is_mask_of(w, v, s));
                lemma_mask_xor(x, y, v, p, q);
                lemma_mask_xor(z, w, v, r, s);
                lemma_mask_xor(x ^ y, z ^ w, v, unlike(p, q), unlike(r, s));
                lemma_mask_and(x, y, v, p, q);
                lemma_mask_and(z, w, v, r, s);
                lemma_mask_and(x & y, z & w, v, both(p, q), both(r, s));
                lemma_mask_negation((x & y) & (z & w), v, both(both(p, q), both(r, s)));
                lemma_mask_and(
                    (x ^ y) ^ (z ^ w),
                    !((x & y) & (z & w)),
                    v,
                    unlike(unlike(p, q), unlike(r, s)),
                    negation(both(both(p, q), both(r, s))),
                );
                lemma_mask_same_test(
                    m,
                    v,
                    both(
                        unlike(unlike(p, q), unlike(r, s)),
                        negation(both(both(p, q), both(r, s))),
                    ),
                    odd_of_four(p, q, r, s),
                );
            }
        }
    }
    joined
}

} // verus!

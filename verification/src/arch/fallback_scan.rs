//! Scanning a buffer of at least one register's width in strides from its
//! start, with a last window, where bytes remain, that ends with the buffer.

use crate::arch::{load_unchecked, MoveMask, Vector, WIDTH};
use crate::cond::{
    agrees, all_before, all_match, decides, finds, found, judges, lemma_window_ensure,
    lemma_window_search, misses, total,
};
use vstd::prelude::*;

verus! {

/// Whether every byte of `data` passes `cond`, and-ed onto `res`. Every
/// window is tested, whatever the ones before it gave.
pub fn for_all_ensure_ct<F: Fn(Vector) -> Vector>(data: &[u8], cond: F, res: &mut bool)
    requires
        data.len() >= WIDTH,
        total(cond),
    ensures
        !*old(res) ==> !*final(res),
        *old(res) ==> judges(cond, data@, *final(res)),
{
    let mut idx: usize = 0;
    let mut valid = true;
    proof {
        assert(agrees(cond, data@, 0, true));
    }
    while idx <= data.len() - WIDTH
        invariant
            data.len() >= WIDTH,
            total(cond),
            idx <= data.len(),
            agrees(cond, data@, idx as int, valid),
        decreases data.len() - idx,
    {
        let chunk = load_unchecked(&data[idx..idx + WIDTH]);
        let outcome = cond(chunk);
        let mask = MoveMask::new(outcome);
        let all = mask.all_bits_set();
        proof {
            lemma_window_ensure(
                cond,
                data@,
                idx as int,
                valid,
                chunk,
                idx as int,
                outcome,
                mask@,
                all,
            );
        }
        valid = valid && all;
        idx += WIDTH;
    }
    match data.len() - idx {
        0 => {},
        offset => {
            let ghost seen = idx as int;
            idx -= WIDTH - offset;
            let partial = load_unchecked(&data[idx..idx + WIDTH]);
            let outcome = cond(partial);
            let mask = MoveMask::new(outcome);
            let all = mask.all_bits_set();
            proof {
                lemma_window_ensure(
                    cond,
                    data@,
                    seen,
                    valid,
                    partial,
                    idx as int,
                    outcome,
                    mask@,
                    all,
                );
            }
            valid = valid && all;
        },
    }
    proof {
        assert forall|p: spec_fn(u8) -> bool| #[trigger] decides(cond, p) implies valid
            == all_match(data@, p) by {
            assert(valid == all_before(data@, p, data@.len() as int));
        }
    }
    *res = *res && valid;
}

/// Whether every byte of `data` passes `cond`. The scan stops at the first
/// window that holds a byte which does not.
#[must_use]
pub fn for_all_ensure<F: Fn(Vector) -> Vector>(data: &[u8], cond: F) -> (res: bool)
    requires
        data.len() >= WIDTH,
        total(cond),
    ensures
        judges(cond, data@, res),
{
    let mut idx: usize = 0;
    proof {
        assert(agrees(cond, data@, 0, true));
    }
    while idx <= data.len() - WIDTH
        invariant
            data.len() >= WIDTH,
            total(cond),
            idx <= data.len(),
            agrees(cond, data@, idx as int, true),
        decreases data.len() - idx,
    {
        let chunk = load_unchecked(&data[idx..idx + WIDTH]);
        let outcome = cond(chunk);
        let mask = MoveMask::new(outcome);
        let all = mask.all_bits_set();
        proof {
            lemma_window_ensure(
                cond,
                data@,
                idx as int,
                true,
                chunk,
                idx as int,
                outcome,
                mask@,
                all,
            );
        }
        if !all {
            proof {
                assert forall|p: spec_fn(u8) -> bool| #[trigger]
                    decides(cond, p) implies !all_match(data@, p) by {
                    assert(!all_before(data@, p, idx + 16));
                }
            }
            return false;
        }
        idx += WIDTH;
    }
    let res = match data.len() - idx {
        0 => true,
        offset => {
            let ghost seen = idx as int;
            idx -= WIDTH - offset;
            let partial = load_unchecked(&data[idx..idx + WIDTH]);
            let outcome = cond(partial);
            let mask = MoveMask::new(outcome);
            let all = mask.all_bits_set();
            proof {
                lemma_window_ensure(
                    cond,
                    data@,
                    seen,
                    true,
                    partial,
                    idx as int,
                    outcome,
                    mask@,
                    all,
                );
            }
            all
        },
    };
    proof {
        assert forall|p: spec_fn(u8) -> bool| #[trigger] decides(cond, p) implies res == all_match(
            data@,
            p,
        ) by {
            assert(res == all_before(data@, p, data@.len() as int));
        }
    }
    res
}

/// The first index of `data` whose byte passes `cond`.
pub fn search<F: Fn(Vector) -> Vector>(data: &[u8], cond: F) -> (res: Option<usize>)
    requires
        data.len() >= WIDTH,
        total(cond),
    ensures
        res matches Some(i) ==> i < data.len(),
        finds(cond, data@, found(res)),
{
    let mut idx: usize = 0;
    proof {
        assert(misses(cond, data@, 0));
    }
    while idx <= data.len() - WIDTH
        invariant
            data.len() >= WIDTH,
            total(cond),
            idx <= data.len(),
            misses(cond, data@, idx as int),
        decreases data.len() - idx,
    {
        let chunk = load_unchecked(&data[idx..idx + WIDTH]);
        let outcome = cond(chunk);
        let mask = MoveMask::new(outcome);
        let position = mask.trailing_zeros();
        proof {
            lemma_window_search(
                cond,
                data@,
                idx as int,
                chunk,
                idx as int,
                16,
                outcome,
                mask@,
                position as int,
            );
        }
        if position < MoveMask::MAX_TRAIL {
            return Some(position as usize + idx);
        }
        idx += WIDTH;
    }
    match data.len() - idx {
        0 => None,
        offset => {
            let ghost seen = idx as int;
            idx -= WIDTH - offset;
            let partial = load_unchecked(&data[idx..idx + WIDTH]);
            let outcome = cond(partial);
            let mask = MoveMask::new(outcome);
            let position = mask.trailing_zeros();
            proof {
                lemma_window_search(
                    cond,
                    data@,
                    seen,
                    partial,
                    idx as int,
                    16,
                    outcome,
                    mask@,
                    position as int,
                );
            }
            if position < MoveMask::MAX_TRAIL {
                Some(position as usize + idx)
            } else {
                None
            }
        },
    }
}

} // verus!

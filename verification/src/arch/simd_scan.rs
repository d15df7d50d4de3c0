//! Scanning a buffer of at least one register's width: the first window is
//! read from the buffer's start, the following ones from addresses that are
//! multiples of the register width, and a last one, where bytes remain, is
//! placed so that it ends with the buffer.

use crate::arch::{load_aligned, load_unchecked, MoveMask, Vector, STEP, WIDTH};
use crate::cond::{
    agrees, all_before, all_match, decides, finds, found, is_window, judges,
    lemma_verdict_holds, lemma_verdict_stays, lemma_window_ensure, lemma_window_search, misses,
    total,
};
use crate::require::{
    covers_upto, is_covered, is_scan, lemma_covers_more, scanned, Handed, Requirement,
};
use vstd::prelude::*;

verus! {

/// The buffer's upper bound, fixed when a scan starts.
#[derive(Copy, Clone)]
pub struct EndPtr(usize);

impl EndPtr {
    /// The index one past the buffer's last byte.
    pub closed spec fn bound(&self) -> int {
        self.0 as int
    }

    /// The upper bound of `data`.
    #[must_use]
    pub fn new(data: &[u8]) -> (end: Self)
        ensures
            end.bound() == data.len(),
    {
        Self(data.len())
    }

    /// The index one past the buffer's last byte.
    #[must_use]
    pub fn get(&self) -> (index: usize)
        ensures
            index == self.bound(),
    {
        self.0
    }

    /// Whether this is still the upper bound of `data`.
    pub fn check(&self, data: &[u8]) -> (same: bool)
        ensures
            same == (self.bound() == data.len()),
    {
        self.get() == Self::new(data).get()
    }
}

/// How far `l` lies beyond `r`.
#[must_use]
fn distance(l: usize, r: usize) -> (d: usize)
    requires
        l >= r,
    ensures
        d == l - r,
{
    l - r
}

/// Where a window must start to end with the buffer, when `dist` bytes are
/// left from `cur` on.
#[must_use]
fn make_space(cur: usize, dist: usize, end: EndPtr) -> (at: usize)
    requires
        dist <= WIDTH,
        cur + dist == end.bound(),
        end.bound() >= WIDTH,
    ensures
        at + WIDTH == end.bound(),
{
    cur - (WIDTH - dist)
}

/// One stride on.
#[must_use]
fn incr_ptr(ptr: usize) -> (next: usize)
    requires
        ptr + STEP <= usize::MAX,
    ensures
        next == ptr + STEP,
{
    ptr + STEP
}

/// One stride back.
#[must_use]
fn decr_ptr(ptr: usize) -> (prev: usize)
    requires
        ptr >= STEP,
    ensures
        prev == ptr - STEP,
{
    ptr - STEP
}

/// `align` has one bit set: it is a power of two.
pub open spec fn is_power_of_two(align: usize) -> bool {
    align > 0 && align & ((align - 1) as usize) == 0
}

/// How many bytes lie between the start of `data` and the next address that is
/// a multiple of `align`, as `align_offset` of the pointer to the buffer's
/// start tells it. That call panics for an `align` that is no power of two.
///
/// Nothing is claimed of the answer. It depends on where the buffer lies, and
/// `align_offset` may answer `usize::MAX` where it cannot tell.
#[verifier::external_body]
fn align_offset(data: &[u8], align: usize) -> (offset: usize)
    requires
        is_power_of_two(align),
{
    data.as_ptr().align_offset(align)
}

/// Where the strides begin, given how far the buffer's start lies before the
/// next aligned address: one stride on if the start is aligned, at the aligned
/// address if it lies within the first window, and one stride on if no such
/// address is known.
#[must_use]
pub fn first_stride(offset: usize) -> (cur: usize)
    ensures
        cur == (if 0 < offset < WIDTH {
            offset
        } else {
            WIDTH
        }),
{
    if offset == 0 {
        incr_ptr(0)
    } else if offset < WIDTH {
        offset
    } else {
        WIDTH
    }
}

/// The first window of `data`, and where the strides begin after it.
#[must_use]
fn align_ptr_or_incr(data: &[u8]) -> (r: (Vector, usize))
    requires
        data.len() >= WIDTH,
    ensures
        is_window(r.0, data@, 0, 16),
        0 < r.1 <= WIDTH,
{
    assert(is_power_of_two(WIDTH)) by {
        assert(16usize & 15usize == 0) by (bit_vector);
    }
    match align_offset(data, WIDTH) {
        0 => (load_aligned(data), first_stride(0)),
        offset => (load_unchecked(data), first_stride(offset)),
    }
}

/// Whether a whole stride fits between `cur` and `end`.
#[must_use]
fn can_proceed(cur: usize, end: usize) -> (fits: bool)
    requires
        end >= WIDTH,
    ensures
        fits == (cur + WIDTH <= end),
{
    cur <= decr_ptr(end)
}

/// A window that did not fit a stride: the register, and where it starts.
pub type Remainder = (Vector, usize);

/// What [`AlignedIter::next`] found.
pub enum Pointer {
    /// A window of a full stride, and where it starts.
    Aligned((Vector, usize)),
    /// No stride is left; the tail window, if bytes remained.
    End(Option<Remainder>),
}

impl Pointer {
    /// Whether this is a window of a full stride.
    #[must_use]
    pub fn is_aligned(&self) -> (r: bool)
        ensures
            r == (*self is Aligned),
    {
        matches!(self, Self::Aligned(_))
    }

    /// Whether this is the tail window.
    #[must_use]
    pub fn is_end_with_remaining(&self) -> (r: bool)
        ensures
            r == (*self matches Pointer::End(Some(_))),
    {
        matches!(self, Self::End(Some(_)))
    }

    /// Where the tail window starts.
    #[must_use]
    pub fn remaining_end_ptr(&self) -> (at: usize)
        requires
            *self matches Pointer::End(Some(_)),
        ensures
            *self matches Pointer::End(Some(rem)) && at == rem.1,
    {
        match self {
            Self::End(Some((_, ptr))) => *ptr,
            _ => unreached(),
        }
    }
}

/// The cursor of a scan over one buffer, after the first window.
pub struct AlignedIter<'a> {
    data: &'a [u8],
    cur: usize,
    /// The buffer's upper bound.
    pub end: EndPtr,
}

impl<'a> AlignedIter<'a> {
    /// The bytes of the buffer that is scanned.
    pub closed spec fn buffer(&self) -> Seq<u8> {
        self.data@
    }

    /// Where the next stride starts.
    pub closed spec fn cursor(&self) -> int {
        self.cur as int
    }

    /// The upper bound that `end` holds.
    pub closed spec fn bound(&self) -> int {
        self.end.bound()
    }

    /// The cursor lies within the buffer, the buffer holds a full window, and
    /// `end` is its upper bound.
    pub closed spec fn wf(&self) -> bool {
        &&& self.data@.len() >= WIDTH
        &&& self.cur <= self.data@.len()
        &&& self.end.bound() == self.data@.len()
    }

    #[must_use]
    fn after_first(aligned_ptr: usize, data: &'a [u8]) -> (iter: Self)
        requires
            data.len() >= WIDTH,
            aligned_ptr <= data.len(),
        ensures
            iter.wf(),
            iter.buffer() == data@,
            iter.bound() == data.len(),
            iter.cursor() == aligned_ptr,
    {
        Self { cur: aligned_ptr, data, end: EndPtr::new(data) }
    }

    /// A scan that is well formed has the buffer's length for its bound and
    /// its cursor within the buffer.
    pub proof fn lemma_bound_is_length(&self)
        requires
            self.wf(),
        ensures
            self.bound() == self.buffer().len(),
            0 <= self.cursor() <= self.bound(),
            self.bound() >= 16,
    {
    }

    /// Where the next stride starts.
    #[must_use]
    pub fn snap(&self) -> (at: usize)
        ensures
            at == self.cursor(),
    {
        self.cur
    }

    /// Where the next stride starts, moving the cursor past it.
    #[must_use]
    pub fn snap_and_incr(&mut self) -> (at: usize)
        requires
            old(self).wf(),
            old(self).cursor() + WIDTH <= old(self).buffer().len(),
        ensures
            at == old(self).cursor(),
            final(self).wf(),
            final(self).cursor() == at + WIDTH,
            final(self).buffer() == old(self).buffer(),
            old(self).bound() == old(self).buffer().len(),
            final(self).bound() == old(self).bound(),
    {
        let ret = self.snap();
        self.cur = incr_ptr(ret);
        ret
    }

    /// The next window of the scan. While a whole stride fits between the
    /// cursor and the buffer's end, this is the window at the cursor, and the
    /// cursor moves one stride on. After that it is the tail window, the
    /// buffer's last sixteen bytes, if bytes are left beyond the cursor, and
    /// the cursor stays.
    ///
    /// The cursor keeps its distance from the addresses that are multiples of
    /// the register width: one that started on such an address stays on them.
    #[must_use]
    pub fn next(&mut self) -> (r: Pointer)
        requires
            old(self).wf(),
        ensures
            final(self).wf(),
            final(self).buffer() == old(self).buffer(),
            old(self).bound() == old(self).buffer().len(),
            final(self).bound() == old(self).bound(),
            final(self).cursor() % 16 == old(self).cursor() % 16,
            match r {
                Pointer::Aligned((v, at)) => {
                    &&& at == old(self).cursor()
                    &&& is_window(v, old(self).buffer(), at as int, 16)
                    &&& final(self).cursor() == at + WIDTH
                },
                Pointer::End(Some((v, at))) => {
                    &&& old(self).cursor() < old(self).buffer().len() < old(self).cursor() + WIDTH
                    &&& at + WIDTH == old(self).buffer().len()
                    &&& is_window(v, old(self).buffer(), at as int, 16)
                    &&& final(self).cursor() == old(self).cursor()
                },
                Pointer::End(None) => {
                    &&& old(self).cursor() == old(self).buffer().len()
                    &&& final(self).cursor() == old(self).cursor()
                },
            },
    {
        if can_proceed(self.cur, self.end.get()) {
            Pointer::Aligned(
                {
                    let ptr = self.snap_and_incr();
                    (load_aligned(&self.data[ptr..ptr + WIDTH]), ptr)
                },
            )
        } else {
            Pointer::End(self.end())
        }
    }

    /// The tail window: the buffer's last sixteen bytes, if bytes are left
    /// beyond the cursor.
    fn end(&self) -> (r: Option<Remainder>)
        requires
            self.wf(),
            self.cursor() + WIDTH > self.buffer().len(),
        ensures
            match r {
                Some((v, at)) => {
                    &&& self.cursor() < self.buffer().len()
                    &&& at + WIDTH == self.buffer().len()
                    &&& is_window(v, self.buffer(), at as int, 16)
                },
                None => self.cursor() == self.buffer().len(),
            },
    {
        match distance(self.end.get(), self.cur) {
            0 => None,
            dist => {
                let ptr = make_space(self.cur, dist, self.end);
                Some((load_unchecked(&self.data[ptr..ptr + WIDTH]), ptr))
            },
        }
    }
}

/// Starts a scan of `data`: the first window, which the caller tests by
/// itself, and the cursor for all that follows it.
#[must_use]
pub fn init_scan(data: &[u8]) -> (r: (Vector, AlignedIter<'_>))
    requires
        data.len() >= WIDTH,
    ensures
        is_window(r.0, data@, 0, 16),
        r.1.wf(),
        r.1.buffer() == data@,
        r.1.bound() == data.len(),
        0 < r.1.cursor() <= WIDTH,
{
    let (vector, aligned_ptr) = align_ptr_or_incr(data);
    (vector, AlignedIter::after_first(aligned_ptr, data))
}

/// Whether `len` is a lane, and not the mark of a window without a match.
#[must_use]
fn valid_len(len: u32) -> (valid: bool)
    ensures
        valid == (len < WIDTH),
{
    len < WIDTH as u32
}

#[must_use]
fn u32_as_usize(x: u32) -> (r: usize)
    ensures
        r == x,
{
    x as usize
}

/// The index in the buffer of lane `len` of the window that starts at `cur`.
#[must_use]
fn final_length(len: u32, cur: usize, data: &[u8], end: EndPtr) -> (index: usize)
    requires
        data.len() >= WIDTH,
        len < WIDTH,
        cur + WIDTH <= end.bound(),
        end.bound() == data.len(),
    ensures
        index == cur + len,
        index < data.len(),
{
    u32_as_usize(len) + distance(cur, 0)
}

/// The first index of `data` whose byte passes `cond`.
pub fn search<F: Fn(Vector) -> Vector>(data: &[u8], cond: F) -> (res: Option<usize>)
    requires
        data.len() >= WIDTH,
        total(cond),
    ensures
        res matches Some(i) ==> i < data.len(),
        finds(cond, data@, found(res)),
{
    let (vector, mut iter) = init_scan(data);

    let outcome = cond(vector);
    let mask = MoveMask::new(outcome);
    let len = mask.trailing_zeros();
    proof {
        assert(misses(cond, data@, 0));
        lemma_window_search(cond, data@, 0, vector, 0, 16, outcome, mask@, len as int);
    }
    if valid_len(len) {
        return Some(len as usize);
    }
    loop
        invariant
            data.len() >= WIDTH,
            total(cond),
            iter.wf(),
            iter.buffer() == data@,
            0 < iter.cursor(),
            misses(cond, data@, iter.cursor()),
        decreases data.len() - iter.cursor(),
    {
        let ghost before = iter.cursor();
        match iter.next() {
            Pointer::Aligned((vector, ptr)) => {
                let outcome = cond(vector);
                let mask = MoveMask::new(outcome);
                let len = mask.trailing_zeros();
                proof {
                    lemma_window_search(
                        cond,
                        data@,
                        before,
                        vector,
                        ptr as int,
                        16,
                        outcome,
                        mask@,
                        len as int,
                    );
                }
                if valid_len(len) {
                    return Some(final_length(len, ptr, data, iter.end));
                }
            },
            Pointer::End(Some((vector, ptr))) => {
                let outcome = cond(vector);
                let mask = MoveMask::new(outcome);
                let len = mask.trailing_zeros();
                proof {
                    lemma_window_search(
                        cond,
                        data@,
                        before,
                        vector,
                        ptr as int,
                        16,
                        outcome,
                        mask@,
                        len as int,
                    );
                }
                return if valid_len(len) {
                    Some(final_length(len, ptr, data, iter.end))
                } else {
                    None
                };
            },
            Pointer::End(None) => {
                return None;
            },
        }
    }
}

/// Whether every byte of `data` passes `cond`, and-ed onto `res`. Every
/// window is tested, whatever the ones before it gave.
pub fn for_all_ensure_ct<F: Fn(Vector) -> Vector>(data: &[u8], cond: F, res: &mut bool)
    requires
        data.len() >= WIDTH,
        total(cond),
    ensures
        !*old(res) ==> !*final(res),
        *old(res) ==> judges(cond, data@, *final(res)),
{
    let (vector, mut iter) = init_scan(data);
    let outcome = cond(vector);
    let mask = MoveMask::new(outcome);
    let mut valid = mask.all_bits_set();
    proof {
        assert(agrees(cond, data@, 0, true));
        lemma_window_ensure(cond, data@, 0, true, vector, 0, outcome, mask@, valid);
    }
    let ghost mut seen: int = 16;
    loop
        invariant_except_break
            iter.wf(),
            0 < iter.cursor() <= seen <= iter.cursor() + 16,
            16 <= seen <= data.len(),
            agrees(cond, data@, seen, valid),
        invariant
            data.len() >= WIDTH,
            total(cond),
            iter.buffer() == data@,
        ensures
            agrees(cond, data@, data@.len() as int, valid),
        decreases data.len() - iter.cursor(),
    {
        match iter.next() {
            Pointer::Aligned((vector, ptr)) => {
                let outcome = cond(vector);
                let mask = MoveMask::new(outcome);
                let all = mask.all_bits_set();
                proof {
                    lemma_window_ensure(
                        cond,
                        data@,
                        seen,
                        valid,
                        vector,
                        ptr as int,
                        outcome,
                        mask@,
                        all,
                    );
                    seen = ptr + 16;
                }
                valid = valid && all;
            },
            Pointer::End(Some((vector, ptr))) => {
                let outcome = cond(vector);
                let mask = MoveMask::new(outcome);
                let all = mask.all_bits_set();
                proof {
                    lemma_window_ensure(
                        cond,
                        data@,
                        seen,
                        valid,
                        vector,
                        ptr as int,
                        outcome,
                        mask@,
                        all,
                    );
                }
                valid = valid && all;
                break ;
            },
            Pointer::End(None) => {
                break ;
            },
        }
    }
    proof {
        assert forall|p: spec_fn(u8) -> bool| #[trigger] decides(cond, p) implies valid
            == all_match(data@, p) by {
            assert(valid == all_before(data@, p, data@.len() as int));
        }
    }
    *res = *res && valid;
}

/// Whether every byte of `data` passes `cond`. The scan stops at the first
/// window that holds a byte which does not.
#[must_use]
pub fn for_all_ensure<F: Fn(Vector) -> Vector>(data: &[u8], cond: F) -> (res: bool)
    requires
        data.len() >= WIDTH,
        total(cond),
    ensures
        judges(cond, data@, res),
{
    let (vector, mut iter) = init_scan(data);
    let outcome = cond(vector);
    let mask = MoveMask::new(outcome);
    let all = mask.all_bits_set();
    proof {
        assert(agrees(cond, data@, 0, true));
        lemma_window_ensure(cond, data@, 0, true, vector, 0, outcome, mask@, all);
        lemma_verdict_stays(cond, data@, 16, data@.len() as int);
    }
    if !all {
        return false;
    }
    let mut res = true;
    loop
        invariant_except_break
            iter.wf(),
            0 < iter.cursor(),
            agrees(cond, data@, iter.cursor(), true),
        invariant
            data.len() >= WIDTH,
            total(cond),
            iter.buffer() == data@,
        ensures
            agrees(cond, data@, data@.len() as int, res),
        decreases data.len() - iter.cursor(),
    {
        let ghost before = iter.cursor();
        match iter.next() {
            Pointer::Aligned((vector, ptr)) => {
                let outcome = cond(vector);
                let mask = MoveMask::new(outcome);
                let all = mask.all_bits_set();
                proof {
                    lemma_window_ensure(
                        cond,
                        data@,
                        before,
                        true,
                        vector,
                        ptr as int,
                        outcome,
                        mask@,
                        all,
                    );
                    lemma_verdict_stays(cond, data@, ptr + 16, data@.len() as int);
                }
                if !all {
                    res = false;
                    break ;
                }
            },
            Pointer::End(Some((vector, ptr))) => {
                let outcome = cond(vector);
                let mask = MoveMask::new(outcome);
                let all = mask.all_bits_set();
                proof {
                    lemma_verdict_holds(cond, data@, ptr as int, before, true);
                    lemma_window_ensure(
                        cond,
                        data@,
                        ptr as int,
                        true,
                        vector,
                        ptr as int,
                        outcome,
                        mask@,
                        all,
                    );
                }
                res = all;
                break ;
            },
            Pointer::End(None) => {
                res = true;
                break ;
            },
        }
    }
    proof {
        assert forall|p: spec_fn(u8) -> bool| #[trigger] decides(cond, p) implies res == all_match(
            data@,
            p,
        ) by {
            assert(res == all_before(data@, p, data@.len() as int));
        }
    }
    res
}

/// Hands `req` every window of the scan of `data`, in the order of the scan:
/// the first, the strides after it, and the tail window if bytes remained.
pub fn ensure_requirements<R: Requirement>(data: &[u8], req: R) -> (done: R)
    requires
        data.len() >= WIDTH,
    ensures
        scanned(data@, req.handed(), done.handed()),
{
    let mut req = req;
    let ghost before = req.handed();
    let (vector, mut iter) = init_scan(data);
    req.check(vector);
    let ghost first = iter.cursor();
    let ghost mut strides: int = 0;
    let ghost mut handed: Seq<Handed> = seq![(vector, 16int)];
    let ghost mut at: Seq<int> = seq![0int];
    let ghost mut seen: int = 16;
    proof {
        assert(req.handed() == before + handed);
        assert forall|i: int| 0 <= i < seen && i < data@.len() implies #[trigger] is_covered(
            handed,
            at,
            i,
        ) by {
            assert(at[0] <= i < at[0] + handed[0].1);
        }
    }
    loop
        invariant_except_break
            iter.wf(),
            iter.cursor() == first + 16 * strides,
            iter.cursor() <= seen <= iter.cursor() + 16,
            at.len() == strides + 1,
        invariant
            data.len() >= WIDTH,
            iter.buffer() == data@,
            req.handed() == before + handed,
            0 < first <= 16,
            0 <= strides,
            16 <= seen <= data.len(),
            covers_upto(data@, handed, at, seen),
            at[0] == 0,
            forall|k: int| 0 <= k < handed.len() ==> (#[trigger] handed[k]).1 == 16,
            forall|k: int| 1 <= k <= strides ==> #[trigger] at[k] == first + 16 * (k - 1),
        ensures
            seen == data@.len(),
            is_scan(data@, handed, at, first, strides),
        decreases data.len() - iter.cursor(),
    {
        match iter.next() {
            Pointer::Aligned((vector, ptr)) => {
                req.check(vector);
                proof {
                    lemma_covers_more(data@, handed, at, seen, vector, ptr as int);
                    handed = handed.push((vector, 16int));
                    at = at.push(ptr as int);
                    seen = ptr + 16;
                    strides = strides + 1;
                }
            },
            Pointer::End(Some((vector, ptr))) => {
                req.check(vector);
                proof {
                    lemma_covers_more(data@, handed, at, seen, vector, ptr as int);
                    handed = handed.push((vector, 16int));
                    at = at.push(ptr as int);
                    seen = ptr + 16;
                }
                break ;
            },
            Pointer::End(None) => {
                break ;
            },
        }
    }
    req
}

} // verus!

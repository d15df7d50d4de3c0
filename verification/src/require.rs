//! Requirements: conditions that must each hold of some byte of the input,
//! checked in one pass over it.
//!
//! A [`Condition`] remembers whether its test has held anywhere. A
//! [`Requirement`] is handed the input window by window and keeps whatever
//! books it needs; [`check`] does the handing, and says in its contract how
//! the windows cover the input.

use crate::arch::lane::{is_lane_bits, lane};
use crate::arch::{self, MoveMask, Vector};
use crate::cond::{is_window, total};
use vstd::prelude::*;

verus! {

/// An error that is a message.
pub struct ErrMsg {
    pub msg: &'static str,
}

impl ErrMsg {
    /// The error with the message `msg`.
    #[must_use]
    pub fn new(msg: &'static str) -> (err: Self)
        ensures
            err.msg == msg,
    {
        Self { msg }
    }

    /// The message.
    #[must_use]
    pub fn as_str(&self) -> (msg: &'static str)
        ensures
            msg == self.msg,
    {
        self.msg
    }

    /// The message, owned.
    #[must_use]
    pub fn to_string(&self) -> (msg: String)
        ensures
            msg@ == self.msg@,
    {
        self.msg.to_owned()
    }
}

impl vstd::std_specs::convert::FromSpecImpl<&'static str> for ErrMsg {
    open spec fn obeys_from_spec() -> bool {
        true
    }

    open spec fn from_spec(value: &'static str) -> Self {
        ErrMsg { msg: value }
    }
}

impl From<&'static str> for ErrMsg {
    fn from(value: &'static str) -> (err: Self) {
        Self::new(value)
    }
}

/// A condition that keeps track of whether it has held of some byte.
pub trait Condition {
    /// What is raised if the condition never held.
    type Error;

    /// Whether the condition can be checked and asked for its verdict. An
    /// implementation that asks something of its parts says so here.
    open spec fn ready(&self) -> bool {
        true
    }

    /// Tests the lanes of `vector` and gives the lane mask of the outcome.
    #[must_use]
    fn check(&mut self, vector: Vector) -> (mask: MoveMask)
        requires
            old(self).ready(),
        ensures
            final(self).ready(),
            mask@.len() == 16,
    ;

    /// `Ok` if the condition has held in some lane that it was handed.
    fn ok(self) -> Result<(), Self::Error> where Self: Sized
        requires
            self.ready(),
    ;
}

/// A window as a [`Requirement`] is handed it: the register, and how many of
/// its low lanes hold bytes of the input.
pub type Handed = (Vector, int);

/// Index `i` lies in one of the windows `handed`, window `k` starting at
/// index `at[k]`.
pub open spec fn is_covered(handed: Seq<Handed>, at: Seq<int>, i: int) -> bool {
    exists|k: int| 0 <= k < at.len() && #[trigger] at[k] <= i < at[k] + handed[k].1
}

/// The windows `handed` are windows of `s`, window `k` starting at index
/// `at[k]`, and every byte of `s` before index `n` lies in one of them.
pub open spec fn covers_upto(s: Seq<u8>, handed: Seq<Handed>, at: Seq<int>, n: int) -> bool {
    &&& handed.len() == at.len()
    &&& forall|k: int|
        0 <= k < handed.len() ==> is_window((#[trigger] handed[k]).0, s, at[k], handed[k].1)
    &&& forall|i: int| 0 <= i < n && i < s.len() ==> #[trigger] is_covered(handed, at, i)
}

/// The windows `handed`, window `k` starting at index `at[k]`, are those of a
/// scan of `s` in the order of the scan: the window at the start of `s`; then
/// `strides` strides, the first at index `first` and each of the others
/// sixteen bytes on from the one before, as many as fit; then, if bytes are
/// left beyond the last stride, the tail window that ends with `s`. Every
/// window holds sixteen bytes of `s`.
pub open spec fn is_scan(
    s: Seq<u8>,
    handed: Seq<Handed>,
    at: Seq<int>,
    first: int,
    strides: int,
) -> bool {
    &&& handed.len() == at.len()
    &&& at.len() >= 1
    &&& at[0] == 0
    &&& 0 < first <= 16
    &&& 0 <= strides
    &&& forall|k: int|
        0 <= k < handed.len() ==> (#[trigger] handed[k]).1 == 16 && is_window(
            handed[k].0,
            s,
            at[k],
            16,
        )
    &&& forall|k: int| 1 <= k <= strides ==> #[trigger] at[k] == first + 16 * (k - 1)
    &&& if first + 16 * strides == s.len() {
        // the strides end with the buffer
        at.len() == strides + 1
    } else {
        // they leave less than a stride, and the last window is the tail
        &&& first + 16 * strides < s.len() < first + 16 * strides + 16
        &&& at.len() == strides + 2
        &&& at[strides + 1] + 16 == s.len()
    }
}

/// From `before` to `after`, a requirement was handed the windows of a scan
/// of `s`, in the order of the scan, and nothing else. They cover all of `s`.
pub open spec fn scanned(s: Seq<u8>, before: Seq<Handed>, after: Seq<Handed>) -> bool {
    exists|handed: Seq<Handed>, at: Seq<int>, first: int, strides: int|
        #![trigger is_scan(s, handed, at, first, strides)]
        {
            &&& after == before + handed
            &&& is_scan(s, handed, at, first, strides)
            &&& covers_upto(s, handed, at, s.len() as int)
        }
}

/// The low lanes of `v` are the bytes of `s`, all of them, and the lanes above
/// them are zero.
pub open spec fn is_padded(v: Vector, s: Seq<u8>) -> bool {
    &&& is_window(v, s, 0, s.len() as int)
    &&& forall|i: int| s.len() <= i < 16 ==> #[trigger] lane(v, i) == 0
}

/// From `before` to `after`, a requirement was handed all of `s` and nothing
/// else: one padded window if `s` is shorter than a register, and else the
/// windows of a scan of `s`.
pub open spec fn fed(s: Seq<u8>, before: Seq<Handed>, after: Seq<Handed>) -> bool {
    if s.len() < 16 {
        exists|v: Vector| #[trigger]
            is_padded(v, s) && after == before.push((v, s.len() as int))
    } else {
        scanned(s, before, after)
    }
}

/// One more full window, starting no later than where the cover so far ends,
/// extends the cover to the window's end.
pub proof fn lemma_covers_more(
    s: Seq<u8>,
    handed: Seq<Handed>,
    at: Seq<int>,
    n: int,
    v: Vector,
    start: int,
)
    requires
        covers_upto(s, handed, at, n),
        is_window(v, s, start, 16),
        start <= n,
    ensures
        covers_upto(s, handed.push((v, 16int)), at.push(start), start + 16),
{
    let more = handed.push((v, 16int));
    let starts = at.push(start);
    assert forall|k: int| 0 <= k < more.len() implies is_window(
        (#[trigger] more[k]).0,
        s,
        starts[k],
        more[k].1,
    ) by {
        if k < handed.len() {
            assert(more[k] == handed[k]);
            assert(starts[k] == at[k]);
        }
    }
    assert forall|i: int| 0 <= i < start + 16 && i < s.len() implies #[trigger] is_covered(
        more,
        starts,
        i,
    ) by {
        if i < n {
            assert(is_covered(handed, at, i));
            let k = choose|k: int| 0 <= k < at.len() && #[trigger] at[k] <= i < at[k] + handed[k].1;
            assert(starts[k] == at[k]);
            assert(more[k] == handed[k]);
        } else {
            let k = handed.len() as int;
            assert(starts[k] == start);
            assert(more[k] == (v, 16int));
        }
    }
}

/// What a scan is, window by window: it begins with the window at the start
/// of the buffer and ends with a window that ends with the buffer; every
/// window holds sixteen bytes; each window after the second starts sixteen
/// bytes on from the one before, unless it is the last and the tail; and the
/// second starts within the first or at its end, unless it is the tail.
pub proof fn lemma_scan_order(
    s: Seq<u8>,
    handed: Seq<Handed>,
    at: Seq<int>,
    first: int,
    strides: int,
)
    requires
        is_scan(s, handed, at, first, strides),
    ensures
        handed.len() == at.len(),
        at.len() >= 1,
        at[0] == 0,
        at[at.len() - 1] + 16 == s.len(),
        forall|k: int|
            0 <= k < handed.len() ==> (#[trigger] handed[k]).1 == 16 && is_window(
                handed[k].0,
                s,
                at[k],
                16,
            ),
        at.len() >= 2 ==> 0 < at[1] <= 16 || (at.len() == 2 && at[1] + 16 == s.len()),
        forall|k: int|
            1 <= k < at.len() - 1 ==> #[trigger] at[k + 1] == at[k] + 16 || (k + 1 == at.len() - 1
                && at[k + 1] + 16 == s.len()),
        forall|k: int| 0 <= k < at.len() - 1 ==> #[trigger] at[k] + 16 < s.len() || k == 0,
{
    assert(is_window(handed[0].0, s, at[0], 16));
    if strides >= 1 {
        assert(at[1] == first + 16 * (1 - 1));
        assert(at[strides] == first + 16 * (strides - 1));
    }
    assert forall|k: int| 1 <= k < at.len() - 1 implies #[trigger] at[k + 1] == at[k] + 16 || (k
        + 1 == at.len() - 1 && at[k + 1] + 16 == s.len()) by {
        if k + 1 <= strides {
            assert(at[k] == first + 16 * (k - 1));
            assert(at[k + 1] == first + 16 * (k + 1 - 1));
        }
    }
    assert forall|k: int| 0 <= k < at.len() - 1 implies #[trigger] at[k] + 16 < s.len() || k
        == 0 by {
        if 1 <= k <= strides {
            assert(at[k] == first + 16 * (k - 1));
        }
    }
}

/// A set of conditions that must each hold somewhere in the input, fed window
/// by window.
pub trait Requirement {
    /// The common error of the conditions.
    type Error;

    /// The windows handed over so far, oldest first. This record is what the
    /// contracts of [`check`](Requirement::check) and
    /// [`check_partial`](Requirement::check_partial) speak of; it belongs to
    /// the model and need not be stored. An implementation defines it: the
    /// empty record given here fits none that is ever handed a window.
    open spec fn handed(&self) -> Seq<Handed> {
        Seq::empty()
    }

    /// Takes a window of sixteen bytes of the input.
    fn check(&mut self, vector: Vector)
        ensures
            final(self).handed() == old(self).handed().push((vector, 16int)),
    ;

    /// Takes a window of which only the low `len` lanes hold bytes of the
    /// input; the lanes above them are padding and say nothing of it.
    fn check_partial(&mut self, vector: Vector, len: u32)
        requires
            len <= 16,
        ensures
            final(self).handed() == old(self).handed().push((vector, len as int)),
    ;

    /// Whether every byte handed over met some condition, and `Ok` if every
    /// condition was met somewhere, else the error of the first that was not.
    fn result(self) -> (bool, Result<(), Self::Error>) where Self: Sized;

    /// Whether every byte handed over met some condition, and for each
    /// condition in order `Ok` if it was met somewhere, else its error.
    fn results(self) -> (bool, Vec<Result<(), Self::Error>>) where Self: Sized;
}

/// A condition together with the error to raise if it never held.
#[verifier::reject_recursive_types(E)]
pub struct Requires<C, Raise, E> where C: Fn(Vector) -> Vector, Raise: FnOnce() -> E {
    /// The required condition.
    pub cond: C,
    raise: Raise,
    seen: bool,
}

impl<C, Raise, E> Requires<C, Raise, E> where C: Fn(Vector) -> Vector, Raise: FnOnce() -> E {
    /// The condition that is required.
    pub closed spec fn condition(&self) -> C {
        self.cond
    }

    /// What makes the error.
    pub closed spec fn raiser(&self) -> Raise {
        self.raise
    }

    /// Whether the condition has held in some lane handed to it.
    pub closed spec fn met(&self) -> bool {
        self.seen
    }

    /// The requirement that `cond` holds somewhere, not yet met, with `raise`
    /// to make the error.
    #[must_use]
    pub fn new(cond: C, raise: Raise) -> (req: Self)
        ensures
            req.condition() == cond,
            req.raiser() == raise,
            !req.met(),
            req.ready() == (total(cond) && raise.requires(())),
    {
        Self { cond, raise, seen: false }
    }
}

impl<C, Raise, E> Condition for Requires<C, Raise, E> where
    C: Fn(Vector) -> Vector,
    Raise: FnOnce() -> E,
{
    type Error = E;

    /// The condition may be called on every register, and the error can be
    /// made.
    open spec fn ready(&self) -> bool {
        &&& total(self.condition())
        &&& self.raiser().requires(())
    }

    /// Tests the lanes of `vector`; the requirement is met from now on if the
    /// condition held in one of them.
    fn check(&mut self, vector: Vector) -> (mask: MoveMask)
        ensures
            final(self).condition() == old(self).condition(),
            final(self).raiser() == old(self).raiser(),
            exists|m: Vector| #[trigger]
                old(self).condition().ensures((vector,), m) && is_lane_bits(mask@, m),
            final(self).met() == (old(self).met() || exists|i: int| 0 <= i < 16 && mask@[i]),
    {
        let outcome = (self.cond)(vector);
        let mask = MoveMask::new(outcome);
        let any = mask.any_bit_set();
        assert(old(self).condition().ensures((vector,), outcome));
        self.seen = self.seen || any;
        mask
    }

    /// `Ok` if the requirement is met, else the error that the raiser makes.
    fn ok(self) -> (res: Result<(), E>)
        ensures
            self.met() ==> res is Ok,
            !self.met() ==> (res matches Err(e) && self.raiser().ensures((), e)),
    {
        if self.seen {
            Ok(())
        } else {
            Err((self.raise)())
        }
    }
}

/// Hands `req` the bytes of `data`, window by window: a buffer shorter than a
/// register in one window that is padded with zeros, a longer one in the
/// windows of a scan, which are full and may overlap.
pub fn check<R: Requirement>(data: &[u8], req: R) -> (done: R)
    ensures
        fed(data@, req.handed(), done.handed()),
{
    if data.len() >= arch::WIDTH {
        arch::scan::ensure_requirements(data, req)
    } else {
        let mut req = req;
        let ghost before = req.handed();
        let len = data.len();
        let vector = arch::load_partial(data, len);
        req.check_partial(vector, len as u32);
        proof {
            assert(is_padded(vector, data@));
        }
        req
    }
}

} // verus!

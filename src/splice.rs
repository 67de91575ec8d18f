use vstd::prelude::*;

use crate::drain::Drain;
use crate::vector::Vector;

verus! {

/// A source of replacement elements, handed out front to back, with a lower
/// bound on how many are left that may be below the true count.
pub struct Replacement<T> {
    items: Vec<T>,
    hint: usize,
}

impl<T> View for Replacement<T> {
    type V = Seq<T>;

    closed spec fn view(&self) -> Seq<T> {
        self.items@
    }
}

impl<T> Replacement<T> {
    /// The lower bound this source reports on its remaining elements.
    pub closed spec fn lower(&self) -> nat {
        if self.hint < self.items@.len() {
            self.hint as nat
        } else {
            self.items@.len()
        }
    }

    /// A source of `items` whose lower bound is exact.
    pub fn new(items: Vec<T>) -> (r: Self)
        ensures
            r@ == items@,
            r.lower() == items@.len(),
    {
        let hint = items.len();
        Replacement { items, hint }
    }

    /// A source of `items` that reports at most `lower` as its lower bound.
    pub fn with_lower_bound(items: Vec<T>, lower: usize) -> (r: Self)
        ensures
            r@ == items@,
            r.lower() == if lower < items@.len() { lower as nat } else { items@.len() },
    {
        Replacement { items, hint: lower }
    }

    /// The next element, or `None` once the source is empty.
    pub fn next(&mut self) -> (r: Option<T>)
        ensures
            old(self)@.len() > 0 ==> r == Some(old(self)@[0]) && final(self)@ == old(self)@.drop_first(),
            old(self)@.len() == 0 ==> r is None && final(self)@ == old(self)@,
            final(self).lower() <= old(self).lower(),
    {
        if self.items.len() > 0 {
            let x = self.items.remove(0);
            if self.hint > 0 {
                self.hint = self.hint - 1;
            }
            Some(x)
        } else {
            None
        }
    }

    /// The number of remaining elements.
    pub fn len(&self) -> (r: usize)
        ensures
            r == self@.len(),
    {
        self.items.len()
    }

    /// The lower bound on the remaining elements.
    pub fn lower_bound(&self) -> (r: usize)
        ensures
            r == self.lower(),
            r <= self@.len(),
    {
        if self.hint < self.items.len() {
            self.hint
        } else {
            self.items.len()
        }
    }

    /// The lower bound and the exact upper bound on the remaining elements.
    pub fn size_hint(&self) -> (r: (usize, Option<usize>))
        ensures
            r.0 == self.lower(),
            r.1 == Some(self@.len() as usize),
    {
        (self.lower_bound(), Some(self.items.len()))
    }

    /// Moves every remaining element into a new source whose lower bound is
    /// exact.
    pub(crate) fn take_rest(&mut self) -> (r: Self)
        ensures
            r@ == old(self)@,
            r.lower() == r@.len(),
            final(self)@.len() == 0,
    {
        let mut items: Vec<T> = Vec::new();
        items.append(&mut self.items);
        Replacement::new(items)
    }
}

/// The contents of `v` once `[start, end)` is replaced by `r`.
pub open spec fn replaced<T>(v: Seq<T>, start: int, end: int, r: Seq<T>) -> Seq<T> {
    v.take(start) + r + v.skip(end)
}

/// Replacing `[start, end)` of `v` by `r` leaves the elements before
/// `start`, then those of `r`, then those of `v` from `end` on.
pub proof fn lemma_splice_replaces<T>(v: Seq<T>, start: int, end: int, r: Seq<T>)
    requires
        0 <= start <= end <= v.len(),
    ensures
        replaced(v, start, end, r).len() == v.len() - (end - start) + r.len(),
        forall|i: int| 0 <= i < start ==> #[trigger] replaced(v, start, end, r)[i] == v[i],
        forall|i: int|
            start <= i < start + r.len() ==> #[trigger] replaced(v, start, end, r)[i] == r[i
                - start],
        forall|i: int|
            start + r.len() <= i < v.len() - (end - start) + r.len() ==> #[trigger] replaced(
                v,
                start,
                end,
                r,
            )[i] == v[i - start - r.len() + end],
{
}

/// A view that takes a range out of a [`Vector`] like a [`Drain`] and, on
/// release, puts the elements of a [`Replacement`] in its place.
pub struct Splice<T> {
    drain: Drain<T>,
    replace_with: Replacement<T>,
}

impl<T> Splice<T> {
    /// The inner view over the container.
    pub closed spec fn inner(&self) -> Drain<T> {
        self.drain
    }

    /// The replacement elements still to be put in.
    pub closed spec fn source(&self) -> Replacement<T> {
        self.replace_with
    }

    /// The inner view is well formed.
    pub open spec fn wf(&self) -> bool {
        self.inner().wf()
    }

    /// The removed elements not handed out yet, front to back.
    pub open spec fn remaining(&self) -> Seq<T> {
        self.inner().remaining()
    }

    /// What the container holds once the view is released: the live
    /// prefix, the replacement elements, then the tail.
    pub open spec fn spliced(&self) -> Seq<T> {
        self.inner().prefix() + self.source()@ + self.inner().tail()
    }

    /// Takes `[start, end)` out of `vec`, to be replaced by the elements of
    /// `replace_with`. A range that is not within the length is refused and
    /// the container handed back untouched.
    pub fn new(vec: Vector<T>, start: usize, end: usize, replace_with: Replacement<T>) -> (r: Result<
        Self,
        Vector<T>,
    >)
        requires
            vec.wf(),
        ensures
            (start <= end && end <= vec@.len()) <==> r is Ok,
            r matches Ok(sp) ==> {
                &&& sp.wf()
                &&& sp.inner().prefix() == vec@.take(start as int)
                &&& sp.remaining() == vec@.subrange(start as int, end as int)
                &&& sp.inner().tail() == vec@.skip(end as int)
                &&& sp.source() == replace_with
                &&& sp.spliced() == replaced(vec@, start as int, end as int, replace_with@)
            },
            r matches Err(v) ==> v == vec,
    {
        match Drain::new(vec, start, end) {
            Ok(drain) => Ok(Splice { drain, replace_with }),
            Err(v) => Err(v),
        }
    }

    /// The removed elements not handed out yet, as a slice.
    pub fn as_slice(&self) -> (r: &[T])
        ensures
            r@ == self.remaining(),
    {
        self.drain.as_slice()
    }

    /// Exact bounds on the number of removed elements still to come.
    pub fn size_hint(&self) -> (r: (usize, Option<usize>))
        ensures
            r.0 == self.remaining().len(),
            r.1 == Some(self.remaining().len() as usize),
    {
        self.drain.size_hint()
    }

    /// Hands out the first removed element not handed out yet. Once none is
    /// left every call returns `None` and changes nothing.
    pub fn next(&mut self) -> (r: Option<T>)
        requires
            old(self).wf(),
        ensures
            final(self).wf(),
            final(self).spliced() == old(self).spliced(),
            final(self).inner().same_frame(&old(self).inner()),
            old(self).remaining().len() > 0 ==> r == Some(old(self).remaining()[0])
                && final(self).remaining() == old(self).remaining().drop_first(),
            old(self).remaining().len() == 0 ==> r is None && *final(self) == *old(self),
    {
        self.drain.next()
    }

    /// Hands out the last removed element not handed out yet. Once none is
    /// left every call returns `None` and changes nothing.
    pub fn next_back(&mut self) -> (r: Option<T>)
        requires
            old(self).wf(),
        ensures
            final(self).wf(),
            final(self).spliced() == old(self).spliced(),
            final(self).inner().same_frame(&old(self).inner()),
            old(self).remaining().len() > 0 ==> r == Some(old(self).remaining().last())
                && final(self).remaining() == old(self).remaining().drop_last(),
            old(self).remaining().len() == 0 ==> r is None && *final(self) == *old(self),
    {
        self.drain.next_back()
    }

    /// Ends the view: drops the removed elements not handed out, fills the
    /// gap from the replacement, opening more room as it runs short (first
    /// by the source's lower bound, then by the exact count of what is
    /// left), and lets the inner view move the tail into place.
    pub fn release(self) -> (r: Vector<T>)
        requires
            self.wf(),
            self.spliced().len() <= usize::MAX,
        ensures
            r.wf(),
            r@ == self.spliced(),
            self.inner().spec_tail_len() == 0 ==> {
                let s0 = self.inner().vector().slots();
                let n = self.inner().prefix().len() as int;
                &&& r.slots().take(n) == s0.take(n)
                &&& r.slots().len() == if r@.len() < s0.len() {
                    s0.len()
                } else {
                    r@.len()
                }
            },
    {
        let ghost p0 = self.inner().prefix();
        let ghost r0 = self.source()@;
        let ghost t0 = self.inner().tail();
        let Splice { drain, replace_with } = self;
        let mut drain = drain;
        let mut src = replace_with;
        drain.clear_remaining();
        if drain.tail_len() == 0 {
            let mut vec = drain.release();
            assert(vec@ =~= p0);
            vec.extend(&mut src);
            assert(vec@ =~= p0 + r0 + t0);
            return vec;
        }
        if !drain.fill(&mut src) {
            let vec = drain.release();
            assert(r0.take(r0.len() as int) =~= r0);
            return vec;
        }
        let ghost p1 = drain.prefix();
        let ghost r1 = src@;
        assert(p1 + r1 =~= p0 + r0);
        let lower = src.lower_bound();
        if lower > 0 {
            drain.move_tail(lower);
            if !drain.fill(&mut src) {
                let vec = drain.release();
                assert(r1.take(r1.len() as int) =~= r1);
                assert(vec@ =~= p0 + r0 + t0);
                return vec;
            }
        }
        let ghost p2 = drain.prefix();
        let ghost r2 = src@;
        assert(p2 + r2 =~= p0 + r0);
        let mut collected = src.take_rest();
        if collected.len() > 0 {
            drain.move_tail(collected.len());
            let _filled = drain.fill(&mut collected);
            assert(r2.take(r2.len() as int) =~= r2);
        }
        let vec = drain.release();
        assert(vec@ =~= p0 + r0 + t0);
        vec
    }
}

} // verus!

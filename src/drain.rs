use vstd::prelude::*;
use vstd::seq_lib::lemma_multiset_commutative;

use crate::splice::Replacement;
use crate::vector::{all_none, all_some, unwrap_slots, Vector};

verus! {

/// The contents of `v` once the range `[start, end)` is taken out of it.
pub open spec fn drained<T>(v: Seq<T>, start: int, end: int) -> Seq<T> {
    v.take(start) + v.skip(end)
}

/// Draining `[start, end)` out of `v` leaves `v.len() - (end - start)`
/// elements: those before `start`, then those from `end` on, in their order.
pub proof fn lemma_drain_compacts<T>(v: Seq<T>, start: int, end: int)
    requires
        0 <= start <= end <= v.len(),
    ensures
        drained(v, start, end).len() == v.len() - (end - start),
        forall|i: int| 0 <= i < start ==> #[trigger] drained(v, start, end)[i] == v[i],
        forall|i: int|
            start <= i < v.len() - (end - start) ==> #[trigger] drained(v, start, end)[i] == v[i
                + (end - start)],
{
}

/// The removed elements together with what the container keeps are the
/// original elements, each exactly once.
pub proof fn lemma_drain_conserves<T>(v: Seq<T>, start: int, end: int)
    requires
        0 <= start <= end <= v.len(),
    ensures
        v.subrange(start, end).to_multiset().add(drained(v, start, end).to_multiset())
            == v.to_multiset(),
{
    broadcast use vstd::multiset::group_multiset_axioms;

    let a = v.take(start);
    let b = v.subrange(start, end);
    let c = v.skip(end);
    assert(v =~= a + b + c);
    lemma_multiset_commutative(a + b, c);
    lemma_multiset_commutative(a, b);
    lemma_multiset_commutative(a, c);
    assert(b.to_multiset().add(drained(v, start, end).to_multiset()) =~= v.to_multiset());
}

/// A view that takes the range `[start, end)` out of a [`Vector`].
///
/// While it is alive the container's length is `start`: the removed
/// elements are held by the view, and the tail (the elements after `end`)
/// stays where it was, from `tail_start` on. [`Drain::release`] moves the tail
/// down behind the live prefix and hands the container back. The view owns
/// the container while it is alive, so nothing else can reach it meanwhile.
pub struct Drain<T> {
    /// Index of the first slot of the tail.
    tail_start: usize,
    /// Number of elements in the tail.
    tail_len: usize,
    /// The removed elements not handed out yet, front to back.
    iter: Vec<T>,
    vec: Vector<T>,
}

impl<T> Drain<T> {
    /// The container, with its length set to the end of the live prefix.
    pub closed spec fn vector(&self) -> Vector<T> {
        self.vec
    }

    /// Index of the first slot of the tail.
    pub closed spec fn spec_tail_start(&self) -> nat {
        self.tail_start as nat
    }

    /// Number of elements in the tail.
    pub closed spec fn spec_tail_len(&self) -> nat {
        self.tail_len as nat
    }

    /// The removed elements not handed out yet, front to back.
    pub closed spec fn remaining(&self) -> Seq<T> {
        self.iter@
    }

    /// The slots hold, in order: the live prefix, a vacant gap, the tail,
    /// and vacant slots up to the capacity.
    pub open spec fn wf(&self) -> bool {
        let s = self.vector().slots();
        let len = self.vector().spec_len() as int;
        let ts = self.spec_tail_start() as int;
        let te = ts + self.spec_tail_len();
        &&& len <= ts
        &&& te <= s.len()
        &&& all_some(s, 0, len)
        &&& all_none(s, len, ts)
        &&& all_some(s, ts, te)
        &&& all_none(s, te, s.len() as int)
    }

    /// The live elements before the gap.
    pub open spec fn prefix(&self) -> Seq<T> {
        self.vector()@
    }

    /// The preserved elements after the gap.
    pub open spec fn tail(&self) -> Seq<T> {
        let ts = self.spec_tail_start() as int;
        unwrap_slots(self.vector().slots().subrange(ts, ts + self.spec_tail_len()))
    }

    /// What the container holds once the view is released.
    pub open spec fn kept(&self) -> Seq<T> {
        self.prefix() + self.tail()
    }

    /// Both views stand over the same container state; they may differ in
    /// the removed elements still to be handed out.
    pub open spec fn same_frame(&self, other: &Self) -> bool {
        &&& self.vector() == other.vector()
        &&& self.spec_tail_start() == other.spec_tail_start()
        &&& self.spec_tail_len() == other.spec_tail_len()
    }

    /// Handing out removed elements, from either end and in any number,
    /// changes nothing of what release leaves: views over the same container
    /// state keep the same elements.
    pub proof fn lemma_release_ignores_consumption(a: Self, b: Self)
        requires
            a.wf(),
            b.wf(),
            a.same_frame(&b),
        ensures
            a.kept() == b.kept(),
    {
    }

    /// Takes `[start, end)` out of `vec`. A range that is not within the
    /// length is refused and the container handed back untouched.
    pub fn new(vec: Vector<T>, start: usize, end: usize) -> (r: Result<Self, Vector<T>>)
        requires
            vec.wf(),
        ensures
            (start <= end && end <= vec@.len()) <==> r is Ok,
            r matches Ok(d) ==> {
                &&& d.wf()
                &&& d.prefix() == vec@.take(start as int)
                &&& d.remaining() == vec@.subrange(start as int, end as int)
                &&& d.tail() == vec@.skip(end as int)
                &&& d.kept() == drained(vec@, start as int, end as int)
                &&& d.vector().slots().len() == vec.slots().len()
            },
            r matches Err(v) ==> v == vec,
    {
        let len = vec.len();
        if !(start <= end && end <= len) {
            return Err(vec);
        }
        let mut vec = vec;
        let ghost v0 = vec@;
        let ghost s0 = vec.slots();
        assert(forall|j: int| 0 <= j < len ==> #[trigger] v0[j] == s0[j]->0);
        let mut iter: Vec<T> = Vec::new();
        let mut i: usize = start;
        while i < end
            invariant
                start <= i <= end,
                end <= len,
                len == v0.len(),
                len <= s0.len(),
                vec.spec_len() == len,
                vec.slots().len() == s0.len(),
                all_some(s0, 0, len as int),
                forall|j: int| 0 <= j < len ==> #[trigger] v0[j] == s0[j]->0,
                forall|j: int|
                    0 <= j < s0.len() ==> #[trigger] vec.slots()[j] == if start <= j < i {
                        None
                    } else {
                        s0[j]
                    },
                iter@ == v0.subrange(start as int, i as int),
            decreases end - i,
        {
            let x = vec.take_slot(i).unwrap();
            iter.push(x);
            i = i + 1;
            assert(iter@ =~= v0.subrange(start as int, i as int));
        }
        vec.set_len(start);
        let d = Drain { tail_start: end, tail_len: len - end, iter, vec };
        assert(d.prefix() =~= v0.take(start as int));
        assert(d.tail() =~= v0.skip(end as int));
        Ok(d)
    }

    /// The removed elements not handed out yet, as a slice.
    pub fn as_slice(&self) -> (r: &[T])
        ensures
            r@ == self.remaining(),
    {
        self.iter.as_slice()
    }

    /// The number of removed elements not handed out yet.
    pub fn len(&self) -> (r: usize)
        ensures
            r == self.remaining().len(),
    {
        self.iter.len()
    }

    /// Exact bounds on the number of elements still to come.
    pub fn size_hint(&self) -> (r: (usize, Option<usize>))
        ensures
            r.0 == self.remaining().len(),
            r.1 == Some(self.remaining().len() as usize),
    {
        (self.iter.len(), Some(self.iter.len()))
    }

    /// The number of elements in the tail.
    pub(crate) fn tail_len(&self) -> (r: usize)
        ensures
            r == self.spec_tail_len(),
    {
        self.tail_len
    }

    /// Hands out the first removed element not handed out yet. Once none is
    /// left every call returns `None` and changes nothing.
    pub fn next(&mut self) -> (r: Option<T>)
        requires
            old(self).wf(),
        ensures
            final(self).wf(),
            final(self).same_frame(old(self)),
            old(self).remaining().len() > 0 ==> r == Some(old(self).remaining()[0])
                && final(self).remaining() == old(self).remaining().drop_first(),
            old(self).remaining().len() == 0 ==> r is None && *final(self) == *old(self),
    {
        if self.iter.len() > 0 {
            Some(self.iter.remove(0))
        } else {
            None
        }
    }

    /// Hands out the last removed element not handed out yet. Once none is
    /// left every call returns `None` and changes nothing.
    pub fn next_back(&mut self) -> (r: Option<T>)
        requires
            old(self).wf(),
        ensures
            final(self).wf(),
            final(self).same_frame(old(self)),
            old(self).remaining().len() > 0 ==> r == Some(old(self).remaining().last())
                && final(self).remaining() == old(self).remaining().drop_last(),
            old(self).remaining().len() == 0 ==> r is None && *final(self) == *old(self),
    {
        if self.iter.len() > 0 {
            self.iter.pop()
        } else {
            None
        }
    }

    /// Ends the view: moves the tail down behind the live prefix, fixes the
    /// length, and drops the removed elements not handed out.
    ///
    /// The tail is restored before any element is dropped, so a drop that
    /// fails cannot leave the container short of its tail.
    pub fn release(self) -> (r: Vector<T>)
        requires
            self.wf(),
        ensures
            r.wf(),
            r@ == self.kept(),
            r.slots().len() == self.vector().slots().len(),
            self.spec_tail_len() == 0 ==> r == self.vector(),
    {
        let ghost s = self.vec.slots();
        let ghost kept = self.kept();
        let Drain { tail_start, tail_len, iter: _, vec } = self;
        let mut vec = vec;
        let cap = vec.capacity();
        if tail_len > 0 {
            let start = vec.len();
            if tail_start != start {
                vec.copy_slots(tail_start, start, tail_len);
            }
            vec.set_len(start + tail_len);
        }
        assert(vec@ =~= kept);
        vec
    }

    /// Drops every removed element not handed out yet.
    pub(crate) fn clear_remaining(&mut self)
        requires
            old(self).wf(),
        ensures
            final(self).wf(),
            final(self).same_frame(old(self)),
            final(self).remaining().len() == 0,
    {
        self.iter.clear();
    }

    /// Fills the gap from `src`, one slot at a time, until the gap is full or
    /// `src` is empty. Returns whether the gap was filled.
    pub(crate) fn fill(&mut self, src: &mut Replacement<T>) -> (r: bool)
        requires
            old(self).wf(),
        ensures
            final(self).wf(),
            final(self).spec_tail_start() == old(self).spec_tail_start(),
            final(self).spec_tail_len() == old(self).spec_tail_len(),
            final(self).tail() == old(self).tail(),
            final(self).remaining() == old(self).remaining(),
            final(self).vector().slots().len() == old(self).vector().slots().len(),
            ({
                let gap = old(self).spec_tail_start() - old(self).prefix().len();
                let n = old(src)@.len() as int;
                let k = if n < gap { n } else { gap };
                &&& r == (n >= gap)
                &&& final(self).prefix() == old(self).prefix() + old(src)@.take(k as int)
                &&& final(src)@ == old(src)@.skip(k as int)
            }),
    {
        let ghost p0 = self.prefix();
        let ghost src0 = src@;
        let ghost tail0 = self.tail();
        let ghost cap = self.vec.slots().len();
        let len0 = self.vec.len();
        while self.vec.len() < self.tail_start
            invariant
                self.wf(),
                p0 == old(self).prefix(),
                src0 == old(src)@,
                tail0 == old(self).tail(),
                cap == old(self).vec.slots().len(),
                self.tail_start == old(self).tail_start,
                self.tail_len == old(self).tail_len,
                self.tail() == tail0,
                self.iter@ == old(self).iter@,
                self.vec.slots().len() == cap,
                len0 == p0.len(),
                len0 <= self.vec.spec_len() <= self.tail_start,
                self.vec.spec_len() - len0 <= src0.len(),
                self.prefix() == p0 + src0.take(self.vec.spec_len() - len0),
                src@ == src0.skip(self.vec.spec_len() - len0),
            decreases self.tail_start - self.vec.spec_len(),
        {
            match src.next() {
                Some(x) => {
                    let l = self.vec.len();
                    let ghost s1 = self.vec.slots();
                    let ghost pre = self.prefix();
                    assert(x == src0[l - len0]);
                    self.vec.write_slot(l, x);
                    self.vec.set_len(l + 1);
                    assert(self.vec.slots().subrange(
                        self.tail_start as int,
                        self.tail_start + self.tail_len,
                    ) =~= s1.subrange(self.tail_start as int, self.tail_start + self.tail_len));
                    assert(self.vec.slots().take(l + 1) =~= s1.take(l as int).push(Some(x)));
                    assert(self.prefix() =~= pre.push(x));
                    assert(src0.take(l + 1 - len0) =~= src0.take(l - len0).push(x));
                    assert(self.prefix() =~= p0 + src0.take(self.vec.spec_len() - len0));
                    assert(src@ =~= src0.skip(self.vec.spec_len() - len0));
                },
                None => {
                    assert(src0.skip(self.vec.spec_len() - len0).len() == 0);
                    return false;
                },
            }
        }
        true
    }

    /// Opens `additional` more vacant slots in the gap by moving the tail
    /// up, growing the storage when needed.
    pub(crate) fn move_tail(&mut self, additional: usize)
        requires
            old(self).wf(),
            old(self).spec_tail_start() + old(self).spec_tail_len() + additional <= usize::MAX,
        ensures
            final(self).wf(),
            final(self).spec_tail_start() == old(self).spec_tail_start() + additional,
            final(self).spec_tail_len() == old(self).spec_tail_len(),
            final(self).prefix() == old(self).prefix(),
            final(self).tail() == old(self).tail(),
            final(self).remaining() == old(self).remaining(),
            final(self).vector().slots().len() >= old(self).spec_tail_start()
                + old(self).spec_tail_len() + additional,
    {
        let ghost s0 = self.vec.slots();
        let ghost p0 = self.prefix();
        let ghost t0 = self.tail();
        let len = self.tail_start + self.tail_len;
        self.vec.reserve_total(len + additional);
        let ghost s1 = self.vec.slots();
        assert(forall|i: int| 0 <= i < s0.len() ==> s1[i] == #[trigger] s0[i]) by {
            assert forall|i: int| 0 <= i < s0.len() implies s1[i] == #[trigger] s0[i] by {
                assert(s1.take(s0.len() as int)[i] == s1[i]);
            }
        }
        let new_tail_start = self.tail_start + additional;
        self.vec.copy_slots(self.tail_start, new_tail_start, self.tail_len);
        self.tail_start = new_tail_start;
        let ghost s2 = self.vec.slots();
        let ghost l = self.vec.spec_len() as int;
        let ghost ts = old(self).tail_start as int;
        let ghost tl = self.tail_len as int;
        let ghost a = additional as int;
        assert(all_some(s2, 0, l)) by {
            assert forall|i: int| 0 <= i < l implies #[trigger] s2[i] is Some by {
                assert(s2[i] == s1[i]);
                assert(s1[i] == s0[i]);
            }
        }
        assert(all_none(s2, l, ts + a)) by {
            assert forall|i: int| l <= i < ts + a implies #[trigger] s2[i] is None by {
                if !(ts <= i < ts + tl) {
                    assert(s2[i] == s1[i]);
                    if i < s0.len() {
                        assert(s1[i] == s0[i]);
                    }
                }
            }
        }
        assert(all_some(s2, ts + a, ts + a + tl)) by {
            assert forall|i: int| ts + a <= i < ts + a + tl implies #[trigger] s2[i] is Some by {
                assert(s2[i] == s1[i - a]);
                assert(s1[i - a] == s0[i - a]);
            }
        }
        assert(all_none(s2, ts + a + tl, s2.len() as int)) by {
            assert forall|i: int| ts + a + tl <= i < s2.len() implies #[trigger] s2[i] is None by {
                assert(s2[i] == s1[i]);
                if i < s0.len() {
                    assert(s1[i] == s0[i]);
                }
            }
        }
        assert(self.prefix() =~= p0);
        assert(self.tail() =~= t0);
    }
}

} // verus!

use vstd::prelude::*;

use crate::splice::Replacement;

verus! {

/// The elements held by a run of occupied slots.
pub open spec fn unwrap_slots<T>(s: Seq<Option<T>>) -> Seq<T> {
    s.map_values(|o: Option<T>| o->0)
}

/// Every slot in `[lo, hi)` holds an element.
pub open spec fn all_some<T>(s: Seq<Option<T>>, lo: int, hi: int) -> bool {
    forall|i: int| lo <= i < hi ==> #[trigger] s[i] is Some
}

/// Every slot in `[lo, hi)` is vacant.
pub open spec fn all_none<T>(s: Seq<Option<T>>, lo: int, hi: int) -> bool {
    forall|i: int| lo <= i < hi ==> #[trigger] s[i] is None
}

/// The block after moving the `n` slots at `src` to `dst` (overlap allowed):
/// the destination holds the moved contents, the vacated part of the source
/// is empty, and every other slot is as it was.
pub open spec fn moved<T>(s: Seq<Option<T>>, src: int, dst: int, n: int) -> Seq<Option<T>> {
    Seq::new(
        s.len(),
        |i: int|
            if dst <= i < dst + n {
                s[src + i - dst]
            } else if src <= i < src + n {
                None
            } else {
                s[i]
            },
    )
}

/// A growable contiguous array: a block of slots, of which the first `len`
/// hold the live elements and the rest are vacant.
pub struct Vector<T> {
    slots: Vec<Option<T>>,
    len: usize,
}

impl<T> View for Vector<T> {
    type V = Seq<T>;

    open spec fn view(&self) -> Seq<T> {
        unwrap_slots(self.slots().take(self.spec_len() as int))
    }
}

impl<T> Vector<T> {
    /// The whole storage block; its length is the capacity.
    pub closed spec fn slots(&self) -> Seq<Option<T>> {
        self.slots@
    }

    /// The number of live elements.
    pub closed spec fn spec_len(&self) -> nat {
        self.len as nat
    }

    /// Live slots first, vacant slots after them.
    pub open spec fn wf(&self) -> bool {
        &&& self.spec_len() <= self.slots().len()
        &&& all_some(self.slots(), 0, self.spec_len() as int)
        &&& all_none(self.slots(), self.spec_len() as int, self.slots().len() as int)
    }

    /// An empty container with no storage.
    pub fn new() -> (r: Self)
        ensures
            r.wf(),
            r@ == Seq::<T>::empty(),
            r.slots().len() == 0,
    {
        Vector { slots: Vec::new(), len: 0 }
    }

    /// A container holding the elements of `items`, in order, at full capacity.
    pub fn from_vec(items: Vec<T>) -> (r: Self)
        ensures
            r.wf(),
            r@ == items@,
            r.slots().len() == items@.len(),
    {
        let mut items = items;
        let n = items.len();
        let mut slots: Vec<Option<T>> = Vec::with_capacity(n);
        let mut i: usize = 0;
        while i < n
            invariant
                i <= n,
                slots@.len() == i,
                all_none(slots@, 0, i as int),
            decreases n - i,
        {
            slots.push(None);
            i = i + 1;
        }
        let ghost orig = items@;
        let mut k: usize = n;
        while k > 0
            invariant
                k <= n,
                n == orig.len(),
                slots@.len() == n,
                items@ == orig.take(k as int),
                all_none(slots@, 0, k as int),
                forall|j: int| k <= j < n ==> #[trigger] slots@[j] == Some(orig[j]),
            decreases k,
        {
            let x = items.pop().unwrap();
            k = k - 1;
            slots[k] = Some(x);
        }
        let r = Vector { slots, len: n };
        assert(r@ =~= orig);
        r
    }

    /// The live elements, in order, as a `Vec`.
    pub fn into_vec(self) -> (r: Vec<T>)
        requires
            self.wf(),
        ensures
            r@ == self@,
    {
        let ghost orig = self@;
        let mut slots = self.slots;
        let len = self.len;
        let mut out: Vec<T> = Vec::new();
        let mut i: usize = 0;
        while i < len
            invariant
                i <= len,
                len <= slots@.len(),
                orig.len() == len,
                forall|j: int| i <= j < len ==> #[trigger] slots@[j] is Some,
                forall|j: int| i <= j < len ==> #[trigger] orig[j] == slots@[j]->0,
                out@ == orig.take(i as int),
            decreases len - i,
        {
            let x = slots[i].take().unwrap();
            out.push(x);
            i = i + 1;
            assert(out@ =~= orig.take(i as int));
        }
        out
    }

    /// The number of live elements.
    pub fn len(&self) -> (r: usize)
        ensures
            r == self.spec_len(),
    {
        self.len
    }

    /// The number of slots in the storage block.
    pub fn capacity(&self) -> (r: usize)
        ensures
            r == self.slots().len(),
    {
        self.slots.len()
    }

    /// The element at `i`, if `i` is below the length.
    pub fn get(&self, i: usize) -> (r: Option<&T>)
        requires
            self.wf(),
        ensures
            i < self@.len() ==> r == Some(&self@[i as int]),
            i >= self@.len() ==> r is None,
    {
        if i < self.len {
            match &self.slots[i] {
                Some(x) => Some(x),
                None => None,
            }
        } else {
            None
        }
    }

    /// Appends `x`, growing the storage block when it is full.
    pub fn push(&mut self, x: T)
        requires
            old(self).wf(),
            old(self)@.len() < usize::MAX,
        ensures
            final(self).wf(),
            final(self)@ == old(self)@.push(x),
            final(self).slots().len() == if old(self)@.len() < old(self).slots().len() {
                old(self).slots().len()
            } else {
                old(self)@.len() + 1
            },
            final(self).slots().take(old(self)@.len() as int) == old(self).slots().take(
                old(self)@.len() as int,
            ),
    {
        let ghost s0 = self.slots@;
        if self.len == self.slots.len() {
            self.slots.push(Some(x));
        } else {
            self.slots[self.len] = Some(x);
        }
        self.len = self.len + 1;
        assert(self.slots@.take(self.len - 1) =~= s0.take(self.len - 1));
        assert(self@ =~= old(self)@.push(x));
    }

    /// Appends every element of `src`, in order, leaving `src` empty.
    pub fn extend(&mut self, src: &mut Replacement<T>)
        requires
            old(self).wf(),
            old(self)@.len() + old(src)@.len() <= usize::MAX,
        ensures
            final(self).wf(),
            final(self)@ == old(self)@ + old(src)@,
            final(src)@.len() == 0,
            final(self).slots().len() == if final(self)@.len() < old(self).slots().len() {
                old(self).slots().len()
            } else {
                final(self)@.len()
            },
            final(self).slots().take(old(self)@.len() as int) == old(self).slots().take(
                old(self)@.len() as int,
            ),
    {
        let ghost v0 = self@;
        let ghost c0 = self.slots().len();
        let ghost b0 = self.slots().take(v0.len() as int);
        let ghost r0 = src@;
        let ghost n: int = 0;
        while src.len() > 0
            invariant
                self.wf(),
                0 <= n <= r0.len(),
                v0 == old(self)@,
                r0 == old(src)@,
                v0.len() + r0.len() <= usize::MAX,
                self@ == v0 + r0.take(n),
                src@ == r0.skip(n),
                c0 == old(self).slots().len(),
                b0 == old(self).slots().take(v0.len() as int),
                self.slots().take(v0.len() as int) == b0,
                self.slots().len() == if self@.len() < c0 {
                    c0
                } else {
                    self@.len()
                },
            decreases src@.len(),
        {
            let x = src.next().unwrap();
            assert(r0.take(n + 1) =~= r0.take(n).push(x));
            let ghost s1 = self.slots();
            self.push(x);
            assert(self.slots().take(v0.len() as int) =~= s1.take(v0.len() as int)) by {
                assert(self.slots().take(self@.len() - 1).take(v0.len() as int)
                    =~= self.slots().take(v0.len() as int));
                assert(s1.take(self@.len() - 1).take(v0.len() as int) =~= s1.take(v0.len() as int));
            }
            proof {
                n = n + 1;
            }
            assert(src@ =~= r0.skip(n));
        }
        assert(r0.take(n) =~= r0);
    }

    /// Sets the length, leaving the slots as they are.
    pub(crate) fn set_len(&mut self, n: usize)
        ensures
            final(self).slots() == old(self).slots(),
            final(self).spec_len() == n,
    {
        self.len = n;
    }

    /// Moves the contents of slot `i` out, leaving it vacant.
    pub(crate) fn take_slot(&mut self, i: usize) -> (r: Option<T>)
        requires
            i < old(self).slots().len(),
        ensures
            r == old(self).slots()[i as int],
            final(self).slots() == old(self).slots().update(i as int, None),
            final(self).spec_len() == old(self).spec_len(),
    {
        self.slots[i].take()
    }

    /// Writes `x` into slot `i`.
    pub(crate) fn write_slot(&mut self, i: usize, x: T)
        requires
            i < old(self).slots().len(),
        ensures
            final(self).slots() == old(self).slots().update(i as int, Some(x)),
            final(self).spec_len() == old(self).spec_len(),
    {
        self.slots[i] = Some(x);
    }

    /// Grows the storage block with vacant slots until it has at least
    /// `total` of them.
    pub(crate) fn reserve_total(&mut self, total: usize)
        ensures
            final(self).spec_len() == old(self).spec_len(),
            final(self).slots().len() >= total,
            final(self).slots().len() >= old(self).slots().len(),
            final(self).slots().take(old(self).slots().len() as int) == old(self).slots(),
            all_none(
                final(self).slots(),
                old(self).slots().len() as int,
                final(self).slots().len() as int,
            ),
    {
        let ghost s0 = self.slots@;
        let cap = self.slots.len();
        if total > cap {
            self.slots.reserve(total - cap);
        }
        while self.slots.len() < total
            invariant
                self.slots@.len() >= s0.len(),
                self.slots@.take(s0.len() as int) == s0,
                all_none(self.slots@, s0.len() as int, self.slots@.len() as int),
                self.len == old(self).len,
            decreases total - self.slots@.len(),
        {
            self.slots.push(None);
            assert(self.slots@.take(s0.len() as int) =~= s0);
        }
    }

    /// Moves `n` slots from `src` to `dst`, as a memory move does: the
    /// ranges may overlap.
    pub(crate) fn copy_slots(&mut self, src: usize, dst: usize, n: usize)
        requires
            src + n <= old(self).slots().len(),
            dst + n <= old(self).slots().len(),
        ensures
            final(self).slots() == moved(
                old(self).slots(),
                src as int,
                dst as int,
                n as int,
            ),
            final(self).spec_len() == old(self).spec_len(),
    {
        let ghost s0 = self.slots@;
        let cap = self.slots.len();
        if dst <= src {
            let mut k: usize = 0;
            while k < n
                invariant
                    k <= n,
                    dst <= src,
                    src + n <= s0.len(),
                    dst + n <= s0.len(),
                    self.len == old(self).len,
                    self.slots@.len() == s0.len(),
                    cap == s0.len(),
                    self.slots@ == moved(s0, src as int, dst as int, k as int),
                decreases n - k,
            {
                let x = self.slots[src + k].take();
                self.slots[dst + k] = x;
                k = k + 1;
                assert(self.slots@ =~= moved(s0, src as int, dst as int, k as int));
            }
        } else {
            let mut k: usize = n;
            while k > 0
                invariant
                    k <= n,
                    dst > src,
                    src + n <= s0.len(),
                    dst + n <= s0.len(),
                    self.len == old(self).len,
                    self.slots@.len() == s0.len(),
                    cap == s0.len(),
                    self.slots@ == moved_back(s0, src as int, dst as int, k as int, n as int),
                decreases k,
            {
                k = k - 1;
                let x = self.slots[src + k].take();
                self.slots[dst + k] = x;
                assert(self.slots@ =~= moved_back(s0, src as int, dst as int, k as int, n as int));
            }
            assert(self.slots@ =~= moved(s0, src as int, dst as int, n as int));
        }
    }
}

/// The block part way through a backward move: the slots from `k` to `n`
/// of the run have been moved.
spec fn moved_back<T>(s: Seq<Option<T>>, src: int, dst: int, k: int, n: int) -> Seq<Option<T>> {
    Seq::new(
        s.len(),
        |i: int|
            if dst + k <= i < dst + n {
                s[src + i - dst]
            } else if src + k <= i < src + n {
                None
            } else {
                s[i]
            },
    )
}

} // verus!

//! A vector that keeps its first items in a small buffer of a fixed
//! capacity and moves to a growable buffer once that capacity is exceeded.

use vstd::prelude::*;

use std::cmp::Ordering;

verus! {

/// Where the items of a [`TinyVec`] are held.
#[derive(Debug)]
enum TinyVecType<T> {
    /// The small buffer, holding at most `INLINE` items.
    Inline(Vec<T>),
    /// The growable buffer.
    Heap(Vec<T>),
}

/// A vector whose first `INLINE` items stay in a small buffer; inserting
/// into a full small buffer moves every item to a growable one, where they
/// stay.
#[derive(Debug)]
pub struct TinyVec<const INLINE: usize, T> {
    inner: TinyVecType<T>,
}

/// The item at index `i` of `s`.
pub open spec fn item_at<T>(s: Seq<T>, i: usize) -> T {
    s[i as int]
}

/// The item just before index `i` of `s`.
pub open spec fn item_before<T>(s: Seq<T>, i: usize) -> T {
    s[i - 1]
}

impl<const INLINE: usize, T> View for TinyVec<INLINE, T> {
    type V = Seq<T>;

    closed spec fn view(&self) -> Seq<T> {
        match self.inner {
            TinyVecType::Inline(v) => v@,
            TinyVecType::Heap(v) => v@,
        }
    }
}

impl<const INLINE: usize, T> TinyVec<INLINE, T> {
    /// Whether the items are in the small buffer.
    pub closed spec fn spec_is_inline(&self) -> bool {
        self.inner is Inline
    }

    /// The small buffer holds at most `INLINE` items: true of every vector
    /// built by [`TinyVec::new`], [`TinyVec::insert`], [`TinyVec::push`],
    /// [`TinyVec::remove`] and [`TinyVec::clear`].
    pub closed spec fn wf(&self) -> bool {
        match self.inner {
            TinyVecType::Inline(v) => v@.len() <= INLINE,
            TinyVecType::Heap(_) => true,
        }
    }

    /// An empty vector, in the small buffer.
    pub fn new() -> (r: Self)
        ensures
            r.wf(),
            r@ == Seq::<T>::empty(),
            r.spec_is_inline(),
    {
        TinyVec { inner: TinyVecType::Inline(Vec::new()) }
    }

    /// The items.
    pub fn as_slice(&self) -> (r: &[T])
        ensures
            r@ == self@,
    {
        match &self.inner {
            TinyVecType::Inline(inner) => inner.as_slice(),
            TinyVecType::Heap(inner) => inner.as_slice(),
        }
    }

    /// The items, to be changed in place.
    pub fn as_mut_slice(&mut self) -> (r: &mut [T])
        ensures
            r@ == old(self)@,
            final(self)@ == final(r)@,
            final(self).spec_is_inline() == old(self).spec_is_inline(),
    {
        match &mut self.inner {
            TinyVecType::Inline(inner) => inner.as_mut_slice(),
            TinyVecType::Heap(inner) => inner.as_mut_slice(),
        }
    }

    /// Binary search of the items with the comparison `f`, which tells how an
    /// item compares with the one looked for: `Ok` with the index of an item
    /// that `f` finds equal, or `Err` with the index at which the item would
    /// be inserted, the item before it comparing as less and the one at it as
    /// greater.
    pub fn binary_search_by<'a, F>(&'a self, f: F) -> (r: Result<usize, usize>) where
        F: Fn(&'a T) -> Ordering,

        requires
            forall|i: int| 0 <= i < self@.len() ==> f.requires((&self@[i],)),
        ensures
            match r {
                Ok(i) => i < self@.len() && f.ensures((&item_at(self@, i),), Ordering::Equal),
                Err(i) => {
                    &&& i <= self@.len()
                    &&& i > 0 ==> f.ensures((&item_before(self@, i),), Ordering::Less)
                    &&& i < self@.len() ==> f.ensures((&item_at(self@, i),), Ordering::Greater)
                },
            },
    {
        let items = self.as_slice();
        let mut lo: usize = 0;
        let mut hi: usize = items.len();
        while lo < hi
            invariant
                items@ == self@,
                lo <= hi <= self@.len(),
                forall|i: int| 0 <= i < self@.len() ==> f.requires((&self@[i],)),
                lo > 0 ==> f.ensures((&item_before(self@, lo),), Ordering::Less),
                hi < self@.len() ==> f.ensures((&item_at(self@, hi),), Ordering::Greater),
            decreases hi - lo,
        {
            let mid = lo + (hi - lo) / 2;
            let item = &items[mid];
            assert(*item == item_at(self@, mid));
            let o = f(item);
            match o {
                Ordering::Less => {
                    lo = mid + 1;
                    assert(item_before(self@, lo) == item_at(self@, mid));
                },
                Ordering::Greater => {
                    hi = mid;
                },
                Ordering::Equal => {
                    return Ok(mid);
                },
            }
        }
        Err(lo)
    }

    /// Removes every item; the items stay in the buffer they were in.
    pub fn clear(&mut self)
        ensures
            final(self).wf(),
            final(self)@ == Seq::<T>::empty(),
            final(self).spec_is_inline() == old(self).spec_is_inline(),
    {
        match &mut self.inner {
            TinyVecType::Inline(inner) => inner.clear(),
            TinyVecType::Heap(inner) => inner.clear(),
        }
    }

    /// The item at `idx`, to be changed in place, or `None` past the end.
    pub fn get_mut(&mut self, idx: usize) -> (r: Option<&mut T>)
        ensures
            match r {
                Some(item) => {
                    &&& idx < old(self)@.len()
                    &&& *item == item_at(old(self)@, idx)
                    &&& final(self)@ == old(self)@.update(idx as int, *final(item))
                },
                None => idx >= old(self)@.len() && *final(self) == *old(self),
            },
            final(self).spec_is_inline() == old(self).spec_is_inline(),
            old(self).wf() ==> final(self).wf(),
    {
        match &mut self.inner {
            TinyVecType::Inline(inner) => {
                if idx < inner.len() {
                    Some(&mut inner[idx])
                } else {
                    None
                }
            },
            TinyVecType::Heap(inner) => {
                if idx < inner.len() {
                    Some(&mut inner[idx])
                } else {
                    None
                }
            },
        }
    }

    /// Inserts `item` at index `idx`, shifting the items after it; inserting
    /// into a full small buffer first moves the items to a growable one.
    pub fn insert(&mut self, idx: usize, item: T)
        requires
            idx <= old(self)@.len(),
        ensures
            old(self).wf() ==> final(self).wf(),
            final(self)@ == old(self)@.insert(idx as int, item),
            final(self).spec_is_inline() == (old(self).spec_is_inline() && old(self)@.len() < INLINE),
    {
        let is_full = match &self.inner {
            TinyVecType::Inline(inner) => inner.len() >= INLINE,
            TinyVecType::Heap(_) => false,
        };
        if is_full {
            let mut vec: Vec<T> = Vec::new();
            match &mut self.inner {
                TinyVecType::Inline(inner) => std::mem::swap(&mut vec, inner),
                TinyVecType::Heap(_) => {},
            }
            vec.insert(idx, item);
            self.inner = TinyVecType::Heap(vec);
        } else {
            match &mut self.inner {
                TinyVecType::Inline(inner) => inner.insert(idx, item),
                TinyVecType::Heap(inner) => inner.insert(idx, item),
            }
        }
    }

    /// Whether the items are in the small buffer.
    pub fn is_inline(&self) -> (r: bool)
        ensures
            r == self.spec_is_inline(),
    {
        match &self.inner {
            TinyVecType::Inline(_) => true,
            TinyVecType::Heap(_) => false,
        }
    }

    /// The number of items.
    pub fn len(&self) -> (r: usize)
        ensures
            r == self@.len(),
    {
        match &self.inner {
            TinyVecType::Inline(inner) => inner.len(),
            TinyVecType::Heap(inner) => inner.len(),
        }
    }

    /// Appends `item`.
    pub fn push(&mut self, item: T)
        ensures
            old(self).wf() ==> final(self).wf(),
            final(self)@ == old(self)@.push(item),
            final(self).spec_is_inline() == (old(self).spec_is_inline() && old(self)@.len() < INLINE),
    {
        let len = self.len();
        self.insert(len, item);
        assert(old(self)@.insert(len as int, item) =~= old(self)@.push(item));
    }

    /// Removes the item at `idx`, shifting the items after it; the items stay
    /// in the buffer they were in.
    pub fn remove(&mut self, idx: usize)
        requires
            idx < old(self)@.len(),
        ensures
            old(self).wf() ==> final(self).wf(),
            final(self)@ == old(self)@.remove(idx as int),
            final(self).spec_is_inline() == old(self).spec_is_inline(),
    {
        match &mut self.inner {
            TinyVecType::Inline(inner) => {
                inner.remove(idx);
            },
            TinyVecType::Heap(inner) => {
                inner.remove(idx);
            },
        }
    }

    /// The items before `mid` and those from `mid` on, to be changed in place.
    pub fn split_at_mut(&mut self, mid: usize) -> (r: (&mut [T], &mut [T]))
        requires
            mid <= old(self)@.len(),
        ensures
            r.0@ == old(self)@.take(mid as int),
            r.1@ == old(self)@.skip(mid as int),
            final(self)@ == final(r.0)@ + final(r.1)@,
            final(self).spec_is_inline() == old(self).spec_is_inline(),
    {
        match &mut self.inner {
            TinyVecType::Inline(inner) => inner.as_mut_slice().split_at_mut(mid),
            TinyVecType::Heap(inner) => inner.as_mut_slice().split_at_mut(mid),
        }
    }
}

impl<const INLINE: usize, T> Default for TinyVec<INLINE, T> {
    fn default() -> (r: Self)
        ensures
            r.wf(),
            r@ == Seq::<T>::empty(),
            r.spec_is_inline(),
    {
        TinyVec::new()
    }
}

} // verus!

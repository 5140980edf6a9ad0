use vstd::prelude::*;
use vstd::layout::size_of;
use crate::vec64::fits;

verus! {

/// Append-only vector with a fixed capacity set at construction. Elements are
/// only ever added at the end, so an element's index never changes; `push`
/// fails once the capacity is reached, leaving the vector as it was.
///
/// Appending takes `&mut self`: to append from several threads, share the
/// vector behind a lock.
pub struct AppendOnlyVec<T> {
    slots: Vec<T>,
    cap: usize,
}

impl<T> View for AppendOnlyVec<T> {
    type V = Seq<T>;

    /// The published elements, in index order.
    closed spec fn view(&self) -> Seq<T> {
        self.slots@
    }
}

/// Outcome of appending `value` to `items` under capacity `cap`: the new items
/// and the index assigned, or the items unchanged and `None` when full.
pub open spec fn spec_push<T>(items: Seq<T>, cap: int, value: T) -> (Seq<T>, Option<usize>) {
    if items.len() < cap {
        (items.push(value), Some(items.len() as usize))
    } else {
        (items, None)
    }
}

/// The element at `idx`, if published.
pub open spec fn spec_get<T>(items: Seq<T>, idx: int) -> Option<T> {
    if 0 <= idx < items.len() { Some(items[idx]) } else { None }
}

impl<T> AppendOnlyVec<T> {
    #[verifier::type_invariant]
    spec fn inv(self) -> bool {
        self.slots@.len() <= self.cap
    }

    /// Total slot capacity set at construction.
    pub closed spec fn spec_capacity(&self) -> nat {
        self.cap as nat
    }

    /// An empty vector with capacity for `cap` elements. The capacity never
    /// changes afterwards.
    pub fn with_capacity(cap: usize) -> (v: Self)
        requires
            fits(cap as int, size_of::<T>() as int),
        ensures
            v@ == Seq::<T>::empty(),
            v.spec_capacity() == cap,
    {
        AppendOnlyVec { slots: Vec::with_capacity(cap), cap }
    }

    /// Total slot capacity set at construction.
    pub fn capacity(&self) -> (c: usize)
        ensures
            c == self.spec_capacity(),
            self@.len() <= c,
    {
        proof {
            use_type_invariant(self);
        }
        self.cap
    }

    /// Number of published elements.
    pub fn count(&self) -> (n: usize)
        ensures
            n == self@.len(),
            n <= self.spec_capacity(),
    {
        proof {
            use_type_invariant(self);
        }
        self.slots.len()
    }

    /// True if the vector is empty.
    pub fn is_empty(&self) -> (b: bool)
        ensures
            b == (self@.len() == 0),
    {
        self.count() == 0
    }

    /// Append `value`. Returns the assigned index, or `None` (and leaves the
    /// vector unchanged) if the capacity is exhausted.
    pub fn push(&mut self, value: T) -> (r: Option<usize>)
        ensures
            (final(self)@, r) == spec_push(old(self)@, old(self).spec_capacity() as int, value),
            final(self).spec_capacity() == old(self).spec_capacity(),
    {
        proof {
            use_type_invariant(&*self);
        }
        let idx = self.slots.len();
        if idx >= self.cap {
            return None;
        }
        let mut slots = Vec::new();
        core::mem::swap(&mut slots, &mut self.slots);
        slots.push(value);
        self.slots = slots;
        Some(idx)
    }

    /// The published elements as a contiguous slice.
    pub fn as_slice(&self) -> (s: &[T])
        ensures
            s@ == self@,
    {
        self.slots.as_slice()
    }

    /// The element at index `idx`, or `None` if it has not been published.
    pub fn get(&self, idx: usize) -> (r: Option<&T>)
        ensures
            r matches Some(x) ==> spec_get(self@, idx as int) == Some(*x),
            r is None <==> spec_get(self@, idx as int) is None,
    {
        if idx >= self.slots.len() {
            return None;
        }
        Some(&self.slots[idx])
    }

    /// An iterator over `(index, &element)` pairs of the published elements.
    pub fn iter(&self) -> (it: Iter<'_, T>)
        ensures
            it.items() == self@,
            it.pos() == 0,
    {
        Iter { slice: self.slots.as_slice(), idx: 0 }
    }
}

impl<T> Default for AppendOnlyVec<T> {
    /// Empty vector with zero capacity.
    fn default() -> (v: Self)
        ensures
            v@ == Seq::<T>::empty(),
            v.spec_capacity() == 0,
    {
        AppendOnlyVec { slots: Vec::new(), cap: 0 }
    }
}

impl<T> core::ops::Deref for AppendOnlyVec<T> {
    type Target = [T];

    /// The published elements as a slice.
    fn deref(&self) -> (s: &[T])
        ensures
            s@ == self@,
    {
        self.slots.as_slice()
    }
}

/// Iterator returned by [`AppendOnlyVec::iter`]: walks the published prefix
/// as it was when the iterator was made.
pub struct Iter<'a, T> {
    slice: &'a [T],
    idx: usize,
}

impl<'a, T> Iter<'a, T> {
    /// The elements being walked.
    pub closed spec fn items(&self) -> Seq<T> {
        self.slice@
    }

    /// Index of the next element to yield.
    pub closed spec fn pos(&self) -> int {
        self.idx as int
    }

    /// The next `(index, &element)` pair, or `None` once every element has
    /// been yielded.
    pub fn next(&mut self) -> (r: Option<(usize, &'a T)>)
        ensures
            final(self).items() == old(self).items(),
            old(self).pos() < old(self).items().len() ==> {
                &&& r matches Some((i, x))
                &&& i == old(self).pos()
                &&& *x == old(self).items()[old(self).pos()]
                &&& final(self).pos() == old(self).pos() + 1
            },
            old(self).pos() >= old(self).items().len() ==> r is None && final(self).pos() == old(
                self,
            ).pos(),
    {
        if self.idx >= self.slice.len() {
            return None;
        }
        let i = self.idx;
        let s: &'a [T] = self.slice;
        let v: &'a T = &s[i];
        self.idx = i + 1;
        Some((i, v))
    }
}

/// A successful push places the value at the returned index and keeps every
/// earlier element where it was; a push fails exactly at capacity; and the
/// count never exceeds the capacity.
pub proof fn lemma_push_then_get<T>(items: Seq<T>, cap: int, value: T)
    requires
        0 <= cap <= usize::MAX,
    ensures
        ({
            let (after, r) = spec_push(items, cap, value);
            &&& r matches Some(i) ==> spec_get(after, i as int) == Some(value) && i == items.len()
            &&& forall|j: int| #[trigger] spec_get(items, j) is Some ==> spec_get(after, j) == spec_get(
                items,
                j,
            )
            &&& r is None <==> items.len() >= cap
            &&& items.len() <= cap ==> after.len() <= cap
        }),
{
}


/// A vector is empty exactly when no index is published; a push that returns
/// an index leaves it non-empty, and a refused push leaves the count unchanged.
pub proof fn lemma_empty_until_push<T>(items: Seq<T>, cap: int, value: T)
    requires
        0 <= cap <= usize::MAX,
    ensures
        (items.len() == 0) <==> spec_get(items, 0) is None,
        spec_push(items, cap, value).1 is Some ==> spec_push(items, cap, value).0.len() > 0,
        spec_push(items, cap, value).1 is None ==> spec_push(items, cap, value).0.len()
            == items.len(),
{
}

} // verus!

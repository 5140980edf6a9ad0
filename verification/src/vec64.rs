use vstd::prelude::*;
use vstd::layout::size_of;

verus! {

/// Whether `n` elements of `elem` bytes each stay within the allocation limit
/// (`isize::MAX` bytes; zero-sized elements are limited only by `usize`).
pub open spec fn fits(n: int, elem: int) -> bool {
    if elem == 0 { n <= usize::MAX } else { n * elem <= isize::MAX }
}

/// Capacity a buffer reserves when it is full.
pub const MIN_GROWN_CAPACITY: usize = 4;

/// The capacity after growing a full buffer of capacity `cap`: doubled (or
/// `MIN_GROWN_CAPACITY` from empty) where that fits, else one more slot.
pub open spec fn spec_grown_capacity(cap: int, elem: int) -> int {
    let want = if cap == 0 { MIN_GROWN_CAPACITY as int } else { cap * 2 };
    if fits(want, elem) { want } else { cap + 1 }
}

/// Fewer elements fit wherever more do.
pub proof fn lemma_fits_monotone(a: int, b: int, elem: int)
    requires
        0 <= a <= b,
        elem >= 0,
        fits(b, elem),
    ensures
        fits(a, elem),
{
    if elem > 0 {
        assert(a * elem <= b * elem) by (nonlinear_arith)
            requires 0 <= a <= b, elem > 0;
    }
}

/// A count that fits is itself representable.
pub proof fn lemma_fits_bounded(n: int, elem: int)
    requires
        n >= 0,
        elem >= 0,
        fits(n, elem),
    ensures
        n <= usize::MAX,
        elem > 0 ==> n <= isize::MAX,
{
    if elem > 0 {
        assert(n <= n * elem) by (nonlinear_arith)
            requires n >= 0, elem > 0;
    }
}

/// Growth capacity for a full buffer of capacity `cap` that must take one more element.
fn grown_capacity(cap: usize, elem: usize) -> (c: usize)
    requires
        fits(cap + 1, elem as int),
    ensures
        c == spec_grown_capacity(cap as int, elem as int),
        c > cap,
        fits(c as int, elem as int),
{
    proof {
        lemma_fits_bounded(cap + 1, elem as int);
    }
    let want: Option<usize> = if cap == 0 { Some(MIN_GROWN_CAPACITY) } else { cap.checked_mul(2) };
    match want {
        Some(w) => {
            if elem == 0 {
                return w;
            }
            match w.checked_mul(elem) {
                Some(bytes) => {
                    if bytes <= isize::MAX as usize {
                        w
                    } else {
                        cap + 1
                    }
                },
                None => cap + 1,
            }
        },
        None => cap + 1,
    }
}

/// The capacity of a vector, as the standard library reports it: at least the
/// length, and within the allocation limit of `isize::MAX` bytes.
#[verifier::external_body]
fn std_vec_capacity<T>(v: &Vec<T>) -> (c: usize)
    ensures
        c >= v@.len(),
        fits(c as int, size_of::<T>() as int),
{
    v.capacity()
}

/// A growable contiguous buffer that keeps its own record of its capacity: the
/// number of elements it has reserved room for (`with_capacity`, its growth
/// policy, or the length it was built from). The underlying allocation holds at
/// least that many elements and may hold more, so capacity-based queries such
/// as `is_page_aligned` speak of this recorded capacity. Its storage comes from
/// the global allocator, so it starts on a 64-byte boundary when a 64-byte
/// aligned global allocator is installed.
pub struct Vec64<T> {
    buf: Vec<T>,
    cap: usize,
}

impl<T> View for Vec64<T> {
    type V = Seq<T>;

    closed spec fn view(&self) -> Seq<T> {
        self.buf@
    }
}

impl<T> Vec64<T> {
    #[verifier::type_invariant]
    spec fn inv(self) -> bool {
        &&& self.buf@.len() <= self.cap
        &&& fits(self.cap as int, size_of::<T>() as int)
    }

    /// The buffer that takes over the elements of `v`, with capacity its length.
    pub closed spec fn spec_from_vec(v: Vec<T>) -> Self {
        Vec64 { buf: v, cap: v@.len() as usize }
    }

    /// A buffer taken over from a vector holds its elements and has capacity
    /// equal to its length.
    pub proof fn lemma_from_vec(v: Vec<T>)
        ensures
            Self::spec_from_vec(v)@ == v@,
            Self::spec_from_vec(v).spec_capacity() == v@.len(),
    {
        vstd::std_specs::vec::axiom_spec_len(&v);
    }

    /// Number of elements the buffer holds before it has to grow.
    pub closed spec fn spec_capacity(&self) -> nat {
        self.cap as nat
    }

    /// An empty buffer with no capacity.
    pub fn new() -> (v: Self)
        ensures
            v@ == Seq::<T>::empty(),
            v.spec_capacity() == 0,
    {
        Vec64 { buf: Vec::new(), cap: 0 }
    }

    /// An empty buffer with room for `capacity` elements.
    pub fn with_capacity(capacity: usize) -> (v: Self)
        requires
            fits(capacity as int, size_of::<T>() as int),
        ensures
            v@ == Seq::<T>::empty(),
            v.spec_capacity() == capacity,
    {
        Vec64 { buf: Vec::with_capacity(capacity), cap: capacity }
    }

    /// Number of elements.
    pub fn len(&self) -> (n: usize)
        ensures
            n == self@.len(),
    {
        self.buf.len()
    }

    /// Whether the buffer holds no element.
    pub fn is_empty(&self) -> (b: bool)
        ensures
            b == (self@.len() == 0),
    {
        self.buf.len() == 0
    }

    /// Number of elements the buffer holds before it has to grow.
    pub fn capacity(&self) -> (c: usize)
        ensures
            c == self.spec_capacity(),
            self@.len() <= c,
            fits(c as int, size_of::<T>() as int),
    {
        proof {
            use_type_invariant(self);
        }
        self.cap
    }

    /// The elements as a slice.
    pub fn as_slice(&self) -> (s: &[T])
        ensures
            s@ == self@,
    {
        self.buf.as_slice()
    }

    /// Replace the element at `index` with `value`; the length and capacity stay.
    pub fn set(&mut self, index: usize, value: T)
        requires
            index < old(self)@.len(),
        ensures
            final(self)@ == old(self)@.update(index as int, value),
            final(self).spec_capacity() == old(self).spec_capacity(),
    {
        proof {
            use_type_invariant(&*self);
        }
        let mut buf = Vec::new();
        core::mem::swap(&mut buf, &mut self.buf);
        buf.set(index, value);
        self.buf = buf;
    }

    /// Append `value`; a full buffer grows to `spec_grown_capacity` first.
    pub fn push(&mut self, value: T)
        requires
            fits(old(self)@.len() + 1int, size_of::<T>() as int),
        ensures
            final(self)@ == old(self)@.push(value),
            final(self).spec_capacity() == if old(self)@.len() < old(self).spec_capacity() {
                old(self).spec_capacity() as int
            } else {
                spec_grown_capacity(old(self).spec_capacity() as int, size_of::<T>() as int)
            },
    {
        proof {
            use_type_invariant(&*self);
        }
        let elem = core::mem::size_of::<T>();
        let mut buf = Vec::new();
        core::mem::swap(&mut buf, &mut self.buf);
        let len = buf.len();
        let mut cap = self.cap;
        if len == cap {
            cap = grown_capacity(cap, elem);
            buf.reserve(cap - len);
        }
        buf.push(value);
        *self = Vec64 { buf, cap };
    }

    /// Move all elements of `other` to the end of this buffer. When they do not
    /// fit, the capacity grows to the larger of `spec_grown_capacity` and the new
    /// length.
    pub fn extend_from_vec64(&mut self, other: Vec64<T>)
        requires
            fits((old(self)@.len() + other@.len()) as int, size_of::<T>() as int),
        ensures
            final(self)@ == old(self)@ + other@,
            final(self).spec_capacity() == if old(self)@.len() + other@.len() <= old(
                self,
            ).spec_capacity() {
                old(self).spec_capacity() as int
            } else {
                vstd::math::max(
                    spec_grown_capacity(old(self).spec_capacity() as int, size_of::<T>() as int),
                    (old(self)@.len() + other@.len()) as int,
                )
            },
    {
        proof {
            use_type_invariant(&*self);
            use_type_invariant(&other);
        }
        let elem = core::mem::size_of::<T>();
        let mut buf = Vec::new();
        core::mem::swap(&mut buf, &mut self.buf);
        let Vec64 { buf: mut tail, cap: _ } = other;
        proof {
            lemma_fits_bounded((buf@.len() + tail@.len()) as int, elem as int);
        }
        let total = buf.len() + tail.len();
        let mut cap = self.cap;
        if total > cap {
            proof {
                lemma_fits_monotone(cap + 1, total as int, elem as int);
            }
            let grown = grown_capacity(cap, elem);
            cap = if grown < total { total } else { grown };
            buf.reserve(cap - buf.len());
        }
        buf.append(&mut tail);
        *self = Vec64 { buf, cap };
    }
}

impl<T> core::ops::Deref for Vec64<T> {
    type Target = [T];

    /// The elements as a slice.
    fn deref(&self) -> (s: &[T])
        ensures
            s@ == self@,
    {
        self.buf.as_slice()
    }
}

impl<T> From<Vec<T>> for Vec64<T> {
    /// Take over the elements of `v`; the capacity is the length.
    fn from(v: Vec<T>) -> (r: Self) {
        let cap = std_vec_capacity(&v);
        let len = v.len();
        proof {
            lemma_fits_monotone(len as int, cap as int, size_of::<T>() as int);
        }
        Vec64 { buf: v, cap: len }
    }
}

impl<T> vstd::std_specs::convert::FromSpecImpl<Vec<T>> for Vec64<T> {
    open spec fn obeys_from_spec() -> bool {
        true
    }

    open spec fn from_spec(v: Vec<T>) -> Self {
        Vec64::spec_from_vec(v)
    }
}

} // verus!

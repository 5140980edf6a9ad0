use vstd::prelude::*;
use rayon::iter::{IntoParallelRefIterator, ParallelIterator};
use crate::vec64::{Vec64, fits};

verus! {

/// Sum of the elements of `s`.
pub open spec fn seq_sum(s: Seq<u64>) -> int
    decreases s.len(),
{
    if s.len() == 0 {
        0
    } else {
        seq_sum(s.drop_last()) + s.last()
    }
}

/// The numbers `0, 1, ..., n - 1`.
pub open spec fn range_seq(n: int) -> Seq<u64> {
    Seq::new(n as nat, |i: int| i as u64)
}

/// `0 + 1 + ... + (n - 1)`.
pub open spec fn triangle(n: int) -> int {
    n * (n - 1) / 2
}

/// rayon's parallel `sum` over a slice of `u64`: the sum of its elements.
/// Addition on `u64` is associative, so the order in which rayon combines the
/// parts does not matter; inputs whose sum overflows `u64` are left out, since
/// the additions would overflow there.
#[verifier::external_body]
fn parallel_sum(items: &[u64]) -> (s: u64)
    requires
        seq_sum(items@) <= u64::MAX,
    ensures
        s == seq_sum(items@),
{
    items.par_iter().sum()
}

/// The sum of `0..n` is `n * (n - 1) / 2`: the parallel sum of a range agrees
/// with the closed form.
pub proof fn lemma_sum_of_range(n: int)
    requires
        n >= 0,
        n <= u64::MAX + 1,
    ensures
        seq_sum(range_seq(n)) == triangle(n),
    decreases n,
{
    if n > 0 {
        lemma_sum_of_range(n - 1);
        assert(range_seq(n).drop_last() =~= range_seq(n - 1));
        assert(triangle(n - 1) + (n - 1) == triangle(n)) by (nonlinear_arith)
            requires n >= 1;
    }
}

/// Sum of `0..len`, computed in parallel over a buffer holding the range.
pub fn par_sum(len: usize) -> (s: u64)
    requires
        fits(len as int, 8),
        triangle(len as int) <= u64::MAX,
    ensures
        s == triangle(len as int),
{
    let mut v: Vec64<u64> = Vec64::with_capacity(len);
    let mut i: usize = 0;
    while i < len
        invariant
            i <= len,
            v@ == range_seq(i as int),
            fits(len as int, 8),
            vstd::layout::size_of::<u64>() == 8,
        decreases len - i,
    {
        proof {
            crate::vec64::lemma_fits_monotone(i + 1, len as int, 8);
        }
        v.push(i as u64);
        assert(v@ =~= range_seq(i + 1));
        i = i + 1;
    }
    proof {
        crate::vec64::lemma_fits_bounded(len as int, 8);
        lemma_sum_of_range(len as int);
    }
    parallel_sum(v.as_slice())
}

/// `len * (len - 1) / 2`, the expected value of `par_sum(len)`; the even one of
/// `len` and `len - 1` is halved first, so every sum that fits in `u64` is
/// computed without overflow.
pub fn expected_sum(len: usize) -> (s: u64)
    requires
        triangle(len as int) <= u64::MAX,
    ensures
        s == triangle(len as int),
{
    if len == 0 {
        assert(triangle(0) == 0) by (nonlinear_arith);
        return 0;
    }
    let n = len as u64;
    let m = n - 1;
    if n % 2 == 0 {
        let h = n / 2;
        assert(triangle(n as int) == h * m) by (nonlinear_arith)
            requires n == 2 * h, m == n - 1, triangle(n as int) == n * (n - 1) / 2;
        h * m
    } else {
        let h = m / 2;
        assert(triangle(n as int) == n * h) by (nonlinear_arith)
            requires m == 2 * h, m == n - 1, triangle(n as int) == n * (n - 1) / 2;
        n * h
    }
}

} // verus!

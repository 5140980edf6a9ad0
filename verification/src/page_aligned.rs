use vstd::prelude::*;
use vstd::arithmetic::div_mod::{lemma_fundamental_div_mod, lemma_mod_multiples_basic};
use crate::mmap_alloc::{HUGE_PAGE, uses_mmap, spec_uses_mmap};
use crate::vec64::{Vec64, lemma_fits_bounded};
use vstd::layout::size_of;

verus! {

/// `d` divides both `a` and `b`.
pub open spec fn common_divisor(a: int, b: int, d: int) -> bool {
    a % d == 0 && b % d == 0
}

/// `g` is the greatest common divisor of `a` and `b`: it is zero exactly when
/// both are, it divides both, and every positive common divisor divides it.
pub open spec fn is_gcd(a: int, b: int, g: int) -> bool {
    &&& (g == 0) == (a == 0 && b == 0)
    &&& g >= 0
    &&& g > 0 ==> common_divisor(a, b, g)
    &&& forall|d: int| d > 0 && #[trigger] common_divisor(a, b, d) ==> g % d == 0
}

/// `(x + c * y) % d == 0` whenever `d` divides `x` and `y`.
proof fn lemma_divides_combination(x: int, y: int, c: int, d: int)
    requires
        d > 0,
        x % d == 0,
        y % d == 0,
    ensures
        (x + c * y) % d == 0,
{
    lemma_fundamental_div_mod(x, d);
    lemma_fundamental_div_mod(y, d);
    let kx = x / d;
    let ky = y / d;
    assert(x + c * y == (kx + c * ky) * d) by (nonlinear_arith)
        requires x == d * kx + x % d, y == d * ky + y % d, x % d == 0, y % d == 0;
    lemma_mod_multiples_basic(kx + c * ky, d);
}

/// One Euclid step keeps the common divisors: for `b > 0`, the common divisors
/// of `a` and `b` are those of `b` and `a % b`.
proof fn lemma_euclid_step(a: int, b: int)
    requires
        b > 0,
    ensures
        forall|d: int| d > 0 ==> (#[trigger] common_divisor(a, b, d) <==> common_divisor(b, a % b, d)),
{
    lemma_fundamental_div_mod(a, b);
    let q = a / b;
    assert forall|d: int| d > 0 implies (#[trigger] common_divisor(a, b, d) <==> common_divisor(b, a % b, d)) by {
        if common_divisor(a, b, d) {
            lemma_divides_combination(a, b, -q, d);
            assert(a + (-q) * b == a % b) by (nonlinear_arith)
                requires a == b * q + a % b;
        }
        if common_divisor(b, a % b, d) {
            lemma_divides_combination(a % b, b, q, d);
            assert(a % b + q * b == a) by (nonlinear_arith)
                requires a == b * q + a % b;
        }
    }
}

/// Two positive numbers that divide each other are equal.
proof fn lemma_mutual_divisors_equal(x: int, y: int)
    requires
        x > 0,
        y > 0,
        x % y == 0,
        y % x == 0,
    ensures
        x == y,
{
    lemma_fundamental_div_mod(x, y);
    lemma_fundamental_div_mod(y, x);
    let k = x / y;
    let j = y / x;
    assert(x >= y) by (nonlinear_arith)
        requires x == y * k, x > 0, y > 0;
    assert(y >= x) by (nonlinear_arith)
        requires y == x * j, x > 0, y > 0;
}

/// The greatest common divisor is unique.
pub proof fn lemma_gcd_unique(a: int, b: int, g1: int, g2: int)
    requires
        is_gcd(a, b, g1),
        is_gcd(a, b, g2),
    ensures
        g1 == g2,
{
    if g1 > 0 && g2 > 0 {
        assert(common_divisor(a, b, g1));
        assert(common_divisor(a, b, g2));
        lemma_mutual_divisors_equal(g1, g2);
    }
}

/// The greatest common divisor exists and is an integer combination of the
/// two numbers: `x * a + y * b == g`.
pub proof fn lemma_gcd_bezout(a: int, b: int) -> (r: (int, int, int))
    requires
        a >= 0,
        b >= 0,
    ensures
        is_gcd(a, b, r.0),
        r.1 * a + r.2 * b == r.0,
    decreases b,
{
    if b == 0 {
        if a > 0 {
            assert(common_divisor(a, b, a)) by {
                lemma_mod_multiples_basic(1, a);
                lemma_mod_multiples_basic(0, a);
            }
        }
        assert forall|d: int| d > 0 && #[trigger] common_divisor(a, b, d) implies a % d == 0 by {}
        (a, 1, 0)
    } else {
        lemma_fundamental_div_mod(a, b);
        let (g, x, y) = lemma_gcd_bezout(b, a % b);
        lemma_euclid_step(a, b);
        let q = a / b;
        if g > 0 {
            assert(common_divisor(b, a % b, g));
            assert(common_divisor(a, b, g));
        }
        assert forall|d: int| d > 0 && #[trigger] common_divisor(a, b, d) implies g % d == 0 by {
            assert(common_divisor(b, a % b, d));
        }
        assert(y * a + (x - y * q) * b == g) by (nonlinear_arith)
            requires x * b + y * (a % b) == g, a == b * q + a % b;
        (g, y, x - y * q)
    }
}

/// Greatest common divisor, by Euclid's algorithm.
pub fn gcd(a: usize, b: usize) -> (g: usize)
    ensures
        is_gcd(a as int, b as int, g as int),
{
    let ghost a0 = a as int;
    let ghost b0 = b as int;
    let mut a = a;
    let mut b = b;
    while b != 0
        invariant
            forall|d: int| d > 0 ==> (#[trigger] common_divisor(a0, b0, d) <==> common_divisor(a as int, b as int, d)),
            (a0 == 0 && b0 == 0) == (a == 0 && b == 0),
        decreases b,
    {
        proof {
            lemma_euclid_step(a as int, b as int);
        }
        let t = b;
        b = a % b;
        a = t;
    }
    proof {
        if a > 0 {
            lemma_mod_multiples_basic(1, a as int);
            lemma_mod_multiples_basic(0, a as int);
            assert(common_divisor(a as int, 0, a as int));
            assert(common_divisor(a0, b0, a as int));
        }
        assert forall|d: int| d > 0 && #[trigger] common_divisor(a0, b0, d) implies (a as int) % d == 0 by {
            assert(common_divisor(a as int, b as int, d));
        }
    }
    a
}


/// A buffer of `len` elements of `elem` bytes each is a whole number of huge pages.
pub open spec fn page_aligned_len(len: int, elem: int) -> bool {
    (len * elem) % (HUGE_PAGE as int) == 0
}

/// `n` is the smallest non-zero length at which a buffer of `elem`-byte elements
/// is a whole number of huge pages.
pub open spec fn is_alignment_step(n: int, elem: int) -> bool {
    &&& n > 0
    &&& page_aligned_len(n, elem)
    &&& forall|m: int| 0 < m < n ==> !#[trigger] page_aligned_len(m, elem)
}

/// The alignment step for `elem`-byte elements (meaningful for `elem > 0`).
pub open spec fn page_step(elem: int) -> int {
    choose|n: int| is_alignment_step(n, elem)
}

/// There is at most one alignment step.
pub proof fn lemma_alignment_step_unique(n1: int, n2: int, elem: int)
    requires
        is_alignment_step(n1, elem),
        is_alignment_step(n2, elem),
    ensures
        n1 == n2,
{
    if n1 < n2 {
        assert(!page_aligned_len(n1, elem));
    }
    if n2 < n1 {
        assert(!page_aligned_len(n2, elem));
    }
}

/// The alignment step is the huge page divided by its greatest common divisor
/// with the element size.
proof fn lemma_step_from_gcd(elem: int, g: int, x: int, y: int)
    requires
        elem > 0,
        is_gcd(elem, HUGE_PAGE as int, g),
        x * elem + y * (HUGE_PAGE as int) == g,
    ensures
        is_alignment_step((HUGE_PAGE as int) / g, elem),
        0 < (HUGE_PAGE as int) / g <= HUGE_PAGE,
{
    let h = HUGE_PAGE as int;
    assert(common_divisor(elem, h, g));
    lemma_fundamental_div_mod(h, g);
    lemma_fundamental_div_mod(elem, g);
    let s = h / g;
    let t = elem / g;
    assert(h == s * g && elem == t * g);
    assert(0 < s <= h) by (nonlinear_arith)
        requires h == s * g, g > 0, h > 0;
    assert(s * elem == t * h) by (nonlinear_arith)
        requires h == s * g, elem == t * g;
    lemma_mod_multiples_basic(t, h);
    assert(page_aligned_len(s, elem));
    assert(x * t + y * s == 1) by (nonlinear_arith)
        requires x * elem + y * h == g, h == s * g, elem == t * g, g > 0;
    assert forall|m: int| 0 < m < s implies !#[trigger] page_aligned_len(m, elem) by {
        if page_aligned_len(m, elem) {
            lemma_fundamental_div_mod(m * elem, h);
            let k = (m * elem) / h;
            assert(m * t == s * k) by (nonlinear_arith)
                requires m * elem == h * k + (m * elem) % h, (m * elem) % h == 0, h == s * g,
                    elem == t * g, g > 0;
            assert(m == s * (x * k + m * y)) by (nonlinear_arith)
                requires x * t + y * s == 1, m * t == s * k;
            assert(m >= s) by (nonlinear_arith)
                requires m == s * (x * k + m * y), m > 0, s > 0;
        }
    }
}

/// The alignment step exists for every non-empty element size, and is at most
/// one huge page's worth of elements.
pub proof fn lemma_page_step(elem: int)
    requires
        elem > 0,
    ensures
        is_alignment_step(page_step(elem), elem),
        0 < page_step(elem) <= HUGE_PAGE,
{
    let (g, x, y) = lemma_gcd_bezout(elem, HUGE_PAGE as int);
    lemma_step_from_gcd(elem, g, x, y);
    let n = (HUGE_PAGE as int) / g;
    assert(is_alignment_step(n, elem));
    lemma_alignment_step_unique(page_step(elem), n, elem);
}

/// The page-alignment step of an element size, if any.
pub open spec fn spec_step_rows(elem: int) -> Option<usize> {
    if elem == 0 { None } else { Some(page_step(elem) as usize) }
}

/// Row-count step for `elem`-byte elements: the smallest non-zero element count
/// whose byte length is a whole number of huge pages; `None` for zero-sized
/// elements.
pub fn step_rows_inner(elem: usize) -> (r: Option<usize>)
    ensures
        r == spec_step_rows(elem as int),
        r matches Some(n) ==> is_alignment_step(n as int, elem as int) && n <= HUGE_PAGE,
{
    if elem == 0 {
        return None;
    }
    let g = gcd(elem, HUGE_PAGE);
    proof {
        let (g2, x, y) = lemma_gcd_bezout(elem as int, HUGE_PAGE as int);
        lemma_gcd_unique(elem as int, HUGE_PAGE as int, g as int, g2);
        lemma_step_from_gcd(elem as int, g as int, x, y);
        lemma_page_step(elem as int);
        lemma_alignment_step_unique(page_step(elem as int), (HUGE_PAGE as int) / (g as int), elem as int);
    }
    Some(HUGE_PAGE / g)
}


/// Row-count step for a buffer of `T`: the smallest non-zero length at which
/// its byte length is a whole number of huge pages. `None` for zero-sized `T`.
pub fn page_align_t_step<T>() -> (r: Option<usize>)
    ensures
        r == spec_step_rows(vstd::layout::size_of::<T>() as int),
        r matches Some(n) ==> is_alignment_step(n as int, vstd::layout::size_of::<T>() as int) && n
            <= HUGE_PAGE,
{
    step_rows_inner(core::mem::size_of::<T>())
}

/// For single bytes the step is one huge page.
pub proof fn lemma_byte_step()
    ensures
        page_step(1) == HUGE_PAGE,
{
    let h = HUGE_PAGE as int;
    lemma_mod_multiples_basic(1, h);
    assert forall|m: int| 0 < m < h implies !#[trigger] page_aligned_len(m, 1) by {
        vstd::arithmetic::div_mod::lemma_small_mod(m as nat, h as nat);
    }
    assert(is_alignment_step(h, 1));
    lemma_page_step(1);
    lemma_alignment_step_unique(page_step(1), h, 1);
}

/// Row-count step for a bit-packed mask: the smallest non-zero bit count whose
/// underlying byte buffer is a whole number of huge pages, eight bits per byte.
pub fn page_align_bitmask_step() -> (r: Option<usize>)
    ensures
        r == Some((8 * HUGE_PAGE) as usize),
{
    proof {
        lemma_byte_step();
    }
    match step_rows_inner(1) {
        Some(n) => Some(n * 8),
        None => None,
    }
}

/// A length is page-aligned exactly when it is a multiple of the step.
pub proof fn lemma_aligned_iff_multiple_of_step(m: int, elem: int)
    requires
        m >= 0,
        elem > 0,
    ensures
        page_aligned_len(m, elem) <==> m % page_step(elem) == 0,
{
    lemma_page_step(elem);
    let s = page_step(elem);
    let h = HUGE_PAGE as int;
    lemma_fundamental_div_mod(m, s);
    let q = m / s;
    let r = m % s;
    lemma_fundamental_div_mod(s * elem, h);
    let ks = (s * elem) / h;
    assert(s * elem == h * ks);
    if r == 0 {
        assert(m * elem == (q * ks) * h) by (nonlinear_arith)
            requires m == s * q, s * elem == h * ks;
        lemma_mod_multiples_basic(q * ks, h);
    } else {
        if page_aligned_len(m, elem) {
            lemma_fundamental_div_mod(m * elem, h);
            let km = (m * elem) / h;
            assert(r * elem == (km - q * ks) * h) by (nonlinear_arith)
                requires m == s * q + r, s * elem == h * ks, m * elem == h * km + (m * elem) % h,
                    (m * elem) % h == 0;
            lemma_mod_multiples_basic(km - q * ks, h);
            assert(page_aligned_len(r, elem));
        }
    }
}


/// Reports page-alignment of a buffer's length.
pub trait PageAligned {
    /// Returns true when the buffer is page-aligned.
    fn is_page_aligned(&self) -> bool;

    /// Smallest aligned length `>=` the current length. `None` when no
    /// row-count answer applies.
    fn next_page_aligned_len(&self) -> Option<usize>;

    /// Largest aligned length `<=` the current length. `None` when no
    /// row-count answer applies.
    fn prev_page_aligned_len(&self) -> Option<usize>;

    /// Elements required to reach the next alignment. `Some(0)` when
    /// already aligned.
    fn aligned_len_step(&self) -> Option<usize>;
}

/// A buffer of `len` elements of `elem` bytes with recorded capacity `cap` is
/// page-aligned: its elements are not zero-sized, it is exactly full, its
/// allocation is large enough to be a mapping, and its length in bytes is a
/// whole number of huge pages.
pub open spec fn spec_is_page_aligned(len: int, cap: int, elem: int) -> bool {
    &&& elem > 0
    &&& cap == len
    &&& spec_uses_mmap(cap * elem)
    &&& page_aligned_len(len, elem)
}

/// The smallest multiple of `step` that is at least `len`.
pub open spec fn next_multiple(len: int, step: int) -> int {
    if len % step == 0 { len } else { len + (step - len % step) }
}

/// The largest multiple of `step` that is at most `len`.
pub open spec fn prev_multiple(len: int, step: int) -> int {
    (len / step) * step
}

/// Smallest page-aligned length at or above `len`, for `elem`-byte elements.
pub open spec fn spec_next_page_aligned_len(len: int, elem: int) -> Option<usize> {
    if elem == 0 { None } else { Some(next_multiple(len, page_step(elem)) as usize) }
}

/// Largest page-aligned length at or below `len`, for `elem`-byte elements.
pub open spec fn spec_prev_page_aligned_len(len: int, elem: int) -> Option<usize> {
    if elem == 0 { None } else { Some(prev_multiple(len, page_step(elem)) as usize) }
}

/// Elements to add to `len` to reach the next page-aligned length.
pub open spec fn spec_aligned_len_step(len: int, elem: int) -> Option<usize> {
    if elem == 0 { None } else { Some((next_multiple(len, page_step(elem)) - len) as usize) }
}

/// Facts about rounding to a multiple of a positive step.
proof fn lemma_multiples(len: int, step: int)
    requires
        len >= 0,
        step > 0,
    ensures
        len <= next_multiple(len, step) < len + step,
        next_multiple(len, step) % step == 0,
        len - step < prev_multiple(len, step) <= len,
        prev_multiple(len, step) % step == 0,
        prev_multiple(len, step) >= 0,
{
    lemma_fundamental_div_mod(len, step);
    let q = len / step;
    let r = len % step;
    assert(prev_multiple(len, step) == step * q) by (nonlinear_arith)
        requires prev_multiple(len, step) == q * step;
    lemma_mod_multiples_basic(q, step);
    assert(q >= 0) by (nonlinear_arith)
        requires len == step * q + r, 0 <= r < step, len >= 0, step > 0;
    if r != 0 {
        assert(next_multiple(len, step) == (q + 1) * step) by (nonlinear_arith)
            requires next_multiple(len, step) == len + (step - r), len == step * q + r;
        lemma_mod_multiples_basic(q + 1, step);
    }
}

impl<T> PageAligned for Vec64<T> {
    fn is_page_aligned(&self) -> (b: bool)
        ensures
            b == spec_is_page_aligned(self@.len() as int, self.spec_capacity() as int,
                size_of::<T>() as int),
    {
        let elem = core::mem::size_of::<T>();
        if elem == 0 {
            return false;
        }
        let len = self.len();
        let cap = self.capacity();
        if cap != len {
            return false;
        }
        proof {
            lemma_fits_bounded(cap as int, elem as int);
        }
        let cap_bytes = cap * elem;
        if !uses_mmap(cap_bytes) {
            return false;
        }
        let len_bytes = len * elem;
        assert((len_bytes & 0x1f_ffffusize) == len_bytes % 0x20_0000) by (bit_vector);
        len_bytes & (HUGE_PAGE - 1) == 0
    }

    fn next_page_aligned_len(&self) -> (r: Option<usize>)
        ensures
            r == spec_next_page_aligned_len(self@.len() as int, size_of::<T>() as int),
    {
        let step = match page_align_t_step::<T>() {
            Some(step) => step,
            None => return None,
        };
        let len = self.len();
        let cap = self.capacity();
        proof {
            lemma_fits_bounded(cap as int, size_of::<T>() as int);
            lemma_page_step(size_of::<T>() as int);
            lemma_multiples(len as int, step as int);
        }
        let rem = len % step;
        Some(if rem == 0 { len } else { len + (step - rem) })
    }

    fn prev_page_aligned_len(&self) -> (r: Option<usize>)
        ensures
            r == spec_prev_page_aligned_len(self@.len() as int, size_of::<T>() as int),
    {
        let step = match page_align_t_step::<T>() {
            Some(step) => step,
            None => return None,
        };
        proof {
            lemma_page_step(size_of::<T>() as int);
            lemma_multiples(self@.len() as int, step as int);
        }
        Some((self.len() / step) * step)
    }

    fn aligned_len_step(&self) -> (r: Option<usize>)
        ensures
            r == spec_aligned_len_step(self@.len() as int, size_of::<T>() as int),
    {
        let cap = self.capacity();
        match self.next_page_aligned_len() {
            Some(n) => {
                proof {
                    if size_of::<T>() > 0 {
                        lemma_fits_bounded(cap as int, size_of::<T>() as int);
                        lemma_page_step(size_of::<T>() as int);
                        lemma_multiples(self@.len() as int, page_step(size_of::<T>() as int));
                    }
                }
                Some(n - self.len())
            },
            None => None,
        }
    }
}


/// No multiple of `step` lies in `[len, next_multiple(len, step))` or in
/// `(prev_multiple(len, step), len]`.
proof fn lemma_multiples_tight(len: int, step: int, m: int)
    requires
        len >= 0,
        step > 0,
        m >= 0,
        m % step == 0,
    ensures
        len <= m ==> next_multiple(len, step) <= m,
        m <= len ==> m <= prev_multiple(len, step),
{
    lemma_multiples(len, step);
    lemma_fundamental_div_mod(len, step);
    lemma_fundamental_div_mod(m, step);
    let q = len / step;
    let k = m / step;
    if len <= m {
        if len % step != 0 {
            assert(k >= q + 1) by (nonlinear_arith)
                requires m == step * k, len == step * q + len % step, 0 < len % step < step, len <= m;
            assert(next_multiple(len, step) <= m) by (nonlinear_arith)
                requires k >= q + 1, m == step * k, next_multiple(len, step) == len + (step - len % step),
                    len == step * q + len % step, step > 0;
        }
    }
    if m <= len {
        assert(k <= q) by (nonlinear_arith)
            requires m == step * k, len == step * q + len % step, 0 <= len % step < step, m <= len;
        assert(m <= prev_multiple(len, step)) by (nonlinear_arith)
            requires k <= q, m == step * k, prev_multiple(len, step) == q * step, step > 0;
    }
}

/// The next page-aligned length is page-aligned, at least the current length,
/// less than one step above it, and no length in between is page-aligned. It
/// equals the length exactly when the length is already page-aligned, so the
/// step to it is zero exactly then.
pub proof fn lemma_next_page_aligned_len(len: int, elem: int)
    requires
        len >= 0,
        elem > 0,
    ensures
        ({
            let n = next_multiple(len, page_step(elem));
            &&& page_aligned_len(n, elem)
            &&& len <= n < len + page_step(elem)
            &&& forall|m: int| len <= m < n ==> !#[trigger] page_aligned_len(m, elem)
            &&& (n == len) == page_aligned_len(len, elem)
        }),
{
    lemma_page_step(elem);
    let step = page_step(elem);
    let n = next_multiple(len, step);
    lemma_multiples(len, step);
    lemma_aligned_iff_multiple_of_step(n, elem);
    lemma_aligned_iff_multiple_of_step(len, elem);
    assert forall|m: int| len <= m < n implies !#[trigger] page_aligned_len(m, elem) by {
        lemma_aligned_iff_multiple_of_step(m, elem);
        if m % step == 0 {
            lemma_multiples_tight(len, step, m);
        }
    }
}

/// The previous page-aligned length is page-aligned, at most the current
/// length, more than one step below it, and no length in between is
/// page-aligned.
pub proof fn lemma_prev_page_aligned_len(len: int, elem: int)
    requires
        len >= 0,
        elem > 0,
    ensures
        ({
            let p = prev_multiple(len, page_step(elem));
            &&& page_aligned_len(p, elem)
            &&& len - page_step(elem) < p <= len
            &&& forall|m: int| p < m <= len ==> !#[trigger] page_aligned_len(m, elem)
            &&& (p == len) == page_aligned_len(len, elem)
        }),
{
    lemma_page_step(elem);
    let step = page_step(elem);
    let p = prev_multiple(len, step);
    lemma_multiples(len, step);
    lemma_aligned_iff_multiple_of_step(p, elem);
    lemma_aligned_iff_multiple_of_step(len, elem);
    assert forall|m: int| p < m <= len implies !#[trigger] page_aligned_len(m, elem) by {
        lemma_aligned_iff_multiple_of_step(m, elem);
        if m % step == 0 {
            lemma_multiples_tight(len, step, m);
        }
    }
}

/// A page-aligned buffer sits at a page-aligned length: the next and previous
/// aligned lengths are its own length, and no step is needed.
pub proof fn lemma_page_aligned_is_fixed_point(len: int, cap: int, elem: int)
    requires
        len >= 0,
        spec_is_page_aligned(len, cap, elem),
    ensures
        next_multiple(len, page_step(elem)) == len,
        prev_multiple(len, page_step(elem)) == len,
{
    lemma_next_page_aligned_len(len, elem);
    lemma_prev_page_aligned_len(len, elem);
}

} // verus!

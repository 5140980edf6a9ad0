use vstd::prelude::*;
use vstd::arithmetic::div_mod::{lemma_fundamental_div_mod, lemma_mod_multiples_basic, lemma_div_is_ordered};

verus! {

/// Transparent huge page size: every mapping is a whole number of these.
pub const HUGE_PAGE: usize = 0x20_0000;

/// Gigantic page size, used for large initial mappings when `GIANT_PAGES` is on.
pub const GIGANTIC_PAGE: usize = 0x4000_0000;

/// Whether mappings of at least `GIGANTIC_PAGE` bytes are backed by 1 GiB pages.
pub const GIANT_PAGES: bool = false;

/// `size` rounded up to the next multiple of `page`.
pub open spec fn round_up(size: int, page: int) -> int {
    ((size + page - 1) / page) * page
}

/// The page granule that a request of `size` bytes is rounded to.
pub open spec fn granule(size: int) -> int {
    if GIANT_PAGES && size >= GIGANTIC_PAGE { GIGANTIC_PAGE as int } else { HUGE_PAGE as int }
}

/// Bytes actually mapped for a request of `size` bytes: the request rounded up
/// to its granule, and one huge page for an empty request.
pub open spec fn spec_mapped_size(size: int) -> int {
    if size == 0 { HUGE_PAGE as int } else { round_up(size, granule(size)) }
}

/// Whether a request of `size` bytes is backed by gigantic pages.
pub open spec fn spec_uses_giant_pages(size: int) -> bool {
    GIANT_PAGES && size >= GIGANTIC_PAGE
}

/// Round `size` up to the page boundary of its granule; an empty request gets
/// one huge page.
pub fn mapped_size(size: usize) -> (mapped: usize)
    requires
        mappable(size as int),
    ensures
        mapped == spec_mapped_size(size as int),
{
    if GIANT_PAGES && size >= GIGANTIC_PAGE {
        let x: usize = size + (GIGANTIC_PAGE - 1);
        assert((x & !0x3fff_ffffusize) == (x / 0x4000_0000) * 0x4000_0000) by (bit_vector);
        return x & !(GIGANTIC_PAGE - 1);
    }
    let x: usize = size + (HUGE_PAGE - 1);
    assert((x & !0x1f_ffffusize) == (x / 0x20_0000) * 0x20_0000) by (bit_vector);
    let rounded = x & !(HUGE_PAGE - 1);
    if rounded == 0 { HUGE_PAGE } else { rounded }
}

/// Whether this allocation size qualifies for gigantic 1 GiB pages.
pub fn uses_giant_pages(size: usize) -> (giant: bool)
    ensures
        giant == spec_uses_giant_pages(size as int),
{
    GIANT_PAGES && size >= GIGANTIC_PAGE
}


/// Whether a request of `size` bytes is served by a mapping rather than the heap.
pub open spec fn spec_uses_mmap(size: int) -> bool {
    size >= HUGE_PAGE
}

/// Whether an allocation of `size` bytes is served by an anonymous mapping:
/// requests of at least one huge page are.
pub fn uses_mmap(size: usize) -> (mmap: bool)
    ensures
        mmap == spec_uses_mmap(size as int),
{
    size >= HUGE_PAGE
}

/// Rounding up lands on a multiple of the page, at or above the size and
/// less than one page above it.
pub proof fn lemma_round_up(size: int, page: int)
    requires
        0 <= size,
        0 < page,
    ensures
        size <= round_up(size, page) < size + page,
        round_up(size, page) % page == 0,
{
    let q = (size + page - 1) / page;
    lemma_fundamental_div_mod(size + page - 1, page);
    assert(q * page == page * q) by (nonlinear_arith);
    lemma_mod_multiples_basic(q, page);
}

/// Rounding up to a fixed page is monotone in the size.
pub proof fn lemma_round_up_monotone(a: int, b: int, page: int)
    requires
        0 <= a <= b,
        0 < page,
    ensures
        round_up(a, page) <= round_up(b, page),
{
    lemma_div_is_ordered(a + page - 1, b + page - 1, page);
    let qa = (a + page - 1) / page;
    let qb = (b + page - 1) / page;
    assert(qa * page <= qb * page) by (nonlinear_arith)
        requires qa <= qb, page > 0;
}

/// The mapping for a request always holds it, is a whole number of huge pages
/// (hence page and 64-byte aligned in length), is at least one huge page, and
/// overshoots by less than one granule.
pub proof fn lemma_mapped_size_holds_request(size: int)
    requires
        0 <= size,
    ensures
        spec_mapped_size(size) >= size,
        spec_mapped_size(size) >= HUGE_PAGE,
        spec_mapped_size(size) % (HUGE_PAGE as int) == 0,
        spec_mapped_size(size) % 64 == 0,
        size > 0 ==> spec_mapped_size(size) < size + granule(size),
{
    if size > 0 {
        lemma_round_up(size, granule(size));
        let m = spec_mapped_size(size);
        let g = granule(size);
        assert(m % (HUGE_PAGE as int) == 0 && m % 64 == 0) by (nonlinear_arith)
            requires m % g == 0, g == HUGE_PAGE || g == GIGANTIC_PAGE;
    }
}

/// Rounding a multiple of the page up changes nothing.
proof fn lemma_round_up_exact(m: int, page: int)
    requires
        0 <= m,
        0 < page,
        m % page == 0,
    ensures
        round_up(m, page) == m,
{
    lemma_round_up(m, page);
    let r = round_up(m, page);
    assert(r == m) by (nonlinear_arith)
        requires m % page == 0, m <= r < m + page, r % page == 0, page > 0;
}

/// Rounding up never passes a multiple of the page at or above the size.
proof fn lemma_round_up_le_multiple(a: int, page: int, m: int)
    requires
        0 <= a <= m,
        0 < page,
        m % page == 0,
    ensures
        round_up(a, page) <= m,
{
    lemma_round_up_monotone(a, m, page);
    lemma_round_up_exact(m, page);
}

/// A larger request never gets a smaller mapping, whether or not gigantic
/// pages are in use.
pub proof fn lemma_mapped_size_monotone(a: int, b: int)
    requires
        0 <= a <= b,
    ensures
        spec_mapped_size(a) <= spec_mapped_size(b),
{
    lemma_mapped_size_holds_request(a);
    lemma_mapped_size_holds_request(b);
    if a > 0 {
        let ga = granule(a);
        let gb = granule(b);
        if ga == gb {
            lemma_round_up_monotone(a, b, ga);
        } else {
            // Only a below the gigantic threshold and b at or above it differ.
            assert((GIGANTIC_PAGE as int) % (HUGE_PAGE as int) == 0);
            lemma_round_up_le_multiple(a, HUGE_PAGE as int, GIGANTIC_PAGE as int);
        }
    }
}

/// Mapping a mapped size again changes nothing, whether or not gigantic pages
/// are in use.
pub proof fn lemma_mapped_size_idempotent(size: int)
    requires
        0 <= size,
    ensures
        spec_mapped_size(spec_mapped_size(size)) == spec_mapped_size(size),
{
    lemma_mapped_size_holds_request(size);
    let m = spec_mapped_size(size);
    assert((GIGANTIC_PAGE as int) % (HUGE_PAGE as int) == 0);
    if size > 0 {
        lemma_round_up(size, granule(size));
    }
    if granule(m) == GIGANTIC_PAGE as int {
        if granule(size) != GIGANTIC_PAGE as int {
            // A request below the threshold rounds to at most the threshold.
            if size > 0 {
                lemma_round_up_le_multiple(size, HUGE_PAGE as int, GIGANTIC_PAGE as int);
            }
            assert(m == GIGANTIC_PAGE as int);
        }
        lemma_round_up_exact(m, GIGANTIC_PAGE as int);
    } else {
        lemma_round_up_exact(m, HUGE_PAGE as int);
    }
}



/// Zero-sized, mapping-based allocator. Every allocation is an anonymous
/// mapping of `mapped_size` bytes, so it starts on a page boundary and is
/// therefore 64-byte aligned.
#[derive(Copy, Clone, Default, Debug)]
pub struct MAllocPg64;

impl MAllocPg64 {
    /// The allocator itself, by reference.
    pub fn by_ref(&self) -> (r: &Self)
        ensures
            r == self,
    {
        self
    }
}

/// One anonymous mapping to create: its length, and whether it is backed by
/// gigantic pages (then no transparent-huge-page advice is given).
#[derive(Copy, Clone, Debug, PartialEq, Eq, Structural)]
pub struct Mapping {
    pub len: usize,
    pub gigantic: bool,
}

/// The mapping that serves a request of `size` bytes.
pub open spec fn spec_mapping_for(size: int) -> Mapping {
    Mapping { len: spec_mapped_size(size) as usize, gigantic: spec_uses_giant_pages(size) }
}

/// How an existing mapping is resized.
#[derive(Copy, Clone, Debug, PartialEq, Eq, Structural)]
pub enum Remapping {
    /// The current mapping of `len` bytes already has the right length.
    InPlace { len: usize },
    /// Move the mapping of `old_len` bytes to `target` with a remap, keeping its contents.
    Remap { old_len: usize, target: Mapping },
    /// Unmap the tail: the `old_len - keep_len` bytes that start `keep_len` bytes in.
    ReleaseTail { keep_len: usize, old_len: usize },
    /// Create `target`, copy the first `copy_len` bytes over, then unmap the old
    /// `old_len` bytes.
    Relocate { target: Mapping, copy_len: usize, old_len: usize },
}

impl Remapping {
    /// Length of the mapping that is left once the plan is carried out.
    pub open spec fn spec_result_len(self) -> int {
        match self {
            Remapping::InPlace { len } => len as int,
            Remapping::Remap { target, .. } => target.len as int,
            Remapping::ReleaseTail { keep_len, .. } => keep_len as int,
            Remapping::Relocate { target, .. } => target.len as int,
        }
    }

    /// Length of the mapping that is left once the plan is carried out.
    pub fn result_len(&self) -> (n: usize)
        ensures
            n == self.spec_result_len(),
    {
        match self {
            Remapping::InPlace { len } => *len,
            Remapping::Remap { target, .. } => target.len,
            Remapping::ReleaseTail { keep_len, .. } => *keep_len,
            Remapping::Relocate { target, .. } => target.len,
        }
    }
}

/// Whether `size` can be rounded to its granule without leaving `usize`.
pub open spec fn mappable(size: int) -> bool {
    0 <= size && size + granule(size) - 1 <= usize::MAX
}

/// The mapping for a fresh allocation of `size` bytes, zeroed or not: anonymous
/// pages come zero-filled.
pub fn mapping_for(size: usize) -> (m: Mapping)
    requires
        mappable(size as int),
    ensures
        m == spec_mapping_for(size as int),
{
    Mapping { len: mapped_size(size), gigantic: uses_giant_pages(size) }
}

/// What growing an allocation from `old_size` to `new_size` bytes does.
pub open spec fn spec_grow_plan(old_size: int, new_size: int) -> Remapping {
    let old_len = spec_mapped_size(old_size);
    let new_len = spec_mapped_size(new_size);
    if old_len == new_len {
        Remapping::InPlace { len: new_len as usize }
    } else {
        Remapping::Remap { old_len: old_len as usize, target: spec_mapping_for(new_size) }
    }
}

/// What shrinking an allocation from `old_size` to `new_size` bytes does.
pub open spec fn spec_shrink_plan(old_size: int, new_size: int) -> Remapping {
    let old_len = spec_mapped_size(old_size);
    let new_len = spec_mapped_size(new_size);
    if old_len == new_len {
        Remapping::InPlace { len: new_len as usize }
    } else if spec_uses_giant_pages(old_size) && !spec_uses_giant_pages(new_size) {
        Remapping::Relocate {
            target: spec_mapping_for(new_size),
            copy_len: new_size as usize,
            old_len: old_len as usize,
        }
    } else {
        Remapping::ReleaseTail { keep_len: new_len as usize, old_len: old_len as usize }
    }
}

/// Grow an allocation: when the new size still fits the current mapping nothing
/// moves; otherwise the mapping is remapped to the new length.
pub fn grow_plan(old_size: usize, new_size: usize) -> (plan: Remapping)
    requires
        old_size <= new_size,
        mappable(new_size as int),
    ensures
        plan == spec_grow_plan(old_size as int, new_size as int),
{
    let old_len = mapped_size(old_size);
    let new_len = mapped_size(new_size);
    if old_len == new_len {
        Remapping::InPlace { len: new_len }
    } else {
        Remapping::Remap { old_len, target: mapping_for(new_size) }
    }
}

/// Shrink an allocation: when the new size still fills the same mapping nothing
/// moves; leaving gigantic pages needs a fresh mapping and a copy; otherwise the
/// tail pages are released.
pub fn shrink_plan(old_size: usize, new_size: usize) -> (plan: Remapping)
    requires
        new_size <= old_size,
        mappable(old_size as int),
    ensures
        plan == spec_shrink_plan(old_size as int, new_size as int),
{
    let old_len = mapped_size(old_size);
    let new_len = mapped_size(new_size);
    if old_len == new_len {
        Remapping::InPlace { len: new_len }
    } else if uses_giant_pages(old_size) && !uses_giant_pages(new_size) {
        Remapping::Relocate { target: mapping_for(new_size), copy_len: new_size, old_len }
    } else {
        Remapping::ReleaseTail { keep_len: new_len, old_len }
    }
}


/// A mappable request's mapped length fits in `usize`.
pub proof fn lemma_mapped_size_fits(size: int)
    requires
        mappable(size),
    ensures
        spec_mapped_size(size) <= usize::MAX,
{
    lemma_mapped_size_holds_request(size);
}

/// Growing never loses the allocation: the resulting mapping holds the new size,
/// and a remap happens only to a strictly longer, page-multiple mapping.
pub proof fn lemma_grow_plan_holds_new_size(old_size: int, new_size: int)
    requires
        0 <= old_size <= new_size,
        mappable(new_size),
    ensures
        match spec_grow_plan(old_size, new_size) {
            Remapping::InPlace { len } => len == spec_mapped_size(old_size) && len >= new_size,
            Remapping::Remap { old_len, target } => {
                &&& old_len == spec_mapped_size(old_size)
                &&& target.len >= new_size
                &&& target.len > old_len
                &&& target.len % HUGE_PAGE == 0
            },
            _ => false,
        },
{
    lemma_mapped_size_holds_request(new_size);
    lemma_mapped_size_monotone(old_size, new_size);
    lemma_mapped_size_fits(new_size);
}

/// Shrinking keeps the first `new_size` bytes: the kept or new mapping holds them,
/// and a released tail is a whole number of huge pages that lies past them.
pub proof fn lemma_shrink_plan_keeps_prefix(old_size: int, new_size: int)
    requires
        0 <= new_size <= old_size,
        mappable(old_size),
    ensures
        match spec_shrink_plan(old_size, new_size) {
            Remapping::InPlace { len } => len == spec_mapped_size(old_size) && len >= new_size,
            Remapping::ReleaseTail { keep_len, old_len } => {
                &&& old_len == spec_mapped_size(old_size)
                &&& new_size <= keep_len < old_len
                &&& (old_len - keep_len) % (HUGE_PAGE as int) == 0
            },
            Remapping::Relocate { target, copy_len, old_len } => {
                &&& old_len == spec_mapped_size(old_size)
                &&& copy_len == new_size
                &&& copy_len <= target.len
            },
            _ => false,
        },
{
    lemma_mapped_size_holds_request(new_size);
    lemma_mapped_size_holds_request(old_size);
    lemma_mapped_size_monotone(new_size, old_size);
    lemma_mapped_size_fits(old_size);
    let k = spec_mapped_size(new_size);
    let o = spec_mapped_size(old_size);
    assert((o - k) % (HUGE_PAGE as int) == 0) by (nonlinear_arith)
        requires k % (HUGE_PAGE as int) == 0, o % (HUGE_PAGE as int) == 0;
}

/// Shrinking back to the size an allocation was grown from restores the
/// mapping length it started with.
pub proof fn lemma_grow_then_shrink_restores(old_size: int, new_size: int)
    requires
        0 <= old_size <= new_size,
        mappable(new_size),
    ensures
        match spec_grow_plan(old_size, new_size) {
            Remapping::InPlace { len } => spec_shrink_plan(new_size, old_size) == (
            Remapping::InPlace { len }),
            Remapping::Remap { old_len, target } => match spec_shrink_plan(new_size, old_size) {
                Remapping::ReleaseTail { keep_len, old_len: released_from } => keep_len == old_len
                    && released_from == target.len,
                Remapping::Relocate { target: back, .. } => back.len == old_len,
                _ => false,
            },
            _ => false,
        },
{
    lemma_mapped_size_monotone(old_size, new_size);
    lemma_mapped_size_fits(new_size);
}


/// Growing or shrinking leaves exactly the mapping that a fresh allocation of
/// the new size would get.
pub proof fn lemma_plans_leave_new_mapping(old_size: int, new_size: int)
    ensures
        0 <= old_size <= new_size && mappable(new_size) ==> spec_grow_plan(
            old_size,
            new_size,
        ).spec_result_len() == spec_mapped_size(new_size),
        0 <= new_size <= old_size && mappable(old_size) ==> spec_shrink_plan(
            old_size,
            new_size,
        ).spec_result_len() == spec_mapped_size(new_size),
{
    if 0 <= old_size <= new_size && mappable(new_size) {
        lemma_mapped_size_fits(new_size);
    }
    if 0 <= new_size <= old_size && mappable(old_size) {
        lemma_mapped_size_fits(old_size);
        lemma_mapped_size_monotone(new_size, old_size);
        lemma_mapped_size_holds_request(new_size);
    }
}


/// A fresh mapping uses gigantic pages exactly when the gigantic-page feature
/// is on and the request is at least one gigantic page; otherwise it is a plain
/// mapping of whole huge pages (and gets transparent-huge-page advice). Its
/// length is a whole number of huge pages that holds the request.
pub proof fn lemma_mapping_for_page_kind(size: int)
    requires
        mappable(size),
    ensures
        spec_mapping_for(size).gigantic == (GIANT_PAGES && size >= GIGANTIC_PAGE),
        !GIANT_PAGES ==> !spec_mapping_for(size).gigantic,
        size < GIGANTIC_PAGE ==> !spec_mapping_for(size).gigantic,
        spec_mapping_for(size).len >= size,
        spec_mapping_for(size).len % HUGE_PAGE == 0,
{
    lemma_mapped_size_holds_request(size);
    lemma_mapped_size_fits(size);
}

/// Shrinking moves the data to a new mapping only when it leaves gigantic
/// pages. Otherwise the allocation stays where it is: when the mapped length
/// does not change nothing happens, and when it does the pages past the new
/// mapped length are released, keeping exactly the length a fresh allocation of
/// the new size would map.
pub proof fn lemma_shrink_keeps_pointer_unless_leaving_gigantic(old_size: int, new_size: int)
    requires
        0 <= new_size <= old_size,
        mappable(old_size),
    ensures
        spec_shrink_plan(old_size, new_size) is Relocate ==> GIANT_PAGES && old_size >= GIGANTIC_PAGE
            && new_size < GIGANTIC_PAGE,
        !(GIANT_PAGES && old_size >= GIGANTIC_PAGE && new_size < GIGANTIC_PAGE) ==> match spec_shrink_plan(
            old_size,
            new_size,
        ) {
            Remapping::InPlace { len } => len == spec_mapped_size(old_size) && spec_mapped_size(
                old_size,
            ) == spec_mapped_size(new_size),
            Remapping::ReleaseTail { keep_len, old_len } => keep_len == spec_mapped_size(new_size)
                && old_len == spec_mapped_size(old_size) && keep_len < old_len,
            _ => false,
        },
        !GIANT_PAGES ==> !(spec_shrink_plan(old_size, new_size) is Relocate),
{
    lemma_mapped_size_fits(old_size);
    lemma_mapped_size_monotone(new_size, old_size);
}


/// Every mapping a resize creates is of the page kind a fresh allocation of the
/// new size gets: gigantic exactly when the feature is on and the new size is
/// at least one gigantic page.
pub proof fn lemma_resize_targets_page_kind(old_size: int, new_size: int)
    ensures
        spec_grow_plan(old_size, new_size) matches Remapping::Remap { target, .. } ==> target.gigantic
            == (GIANT_PAGES && new_size >= GIGANTIC_PAGE),
        spec_shrink_plan(old_size, new_size) matches Remapping::Relocate { target, .. }
            ==> target.gigantic == (GIANT_PAGES && new_size >= GIGANTIC_PAGE),
{
}

} // verus!

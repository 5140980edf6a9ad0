use vstd::prelude::*;
use vstd::arithmetic::div_mod::{lemma_fundamental_div_mod, lemma_mod_multiples_basic};
use crate::mmap_alloc::{
    lemma_grow_plan_holds_new_size, lemma_shrink_plan_keeps_prefix, lemma_mapped_size_holds_request,
    lemma_mapped_size_fits,
    HUGE_PAGE, Mapping, Remapping, mappable, mapped_size, mapping_for, grow_plan, shrink_plan, uses_mmap,
    spec_mapped_size, spec_mapping_for, spec_uses_mmap, spec_grow_plan, spec_shrink_plan,
};

verus! {

/// Alignment that every allocation of the global allocators gets at least.
pub const SIMD_ALIGN: usize = 64;

/// Whether `n` is a power of two.
pub open spec fn is_pow2(n: int) -> bool
    decreases n,
{
    if n <= 0 {
        false
    } else if n == 1 {
        true
    } else {
        n % 2 == 0 && is_pow2(n / 2)
    }
}

/// The alignment requested of the system allocator for a layout of alignment
/// `align`: at least `SIMD_ALIGN`.
pub open spec fn spec_layout_align(align: int) -> int {
    if align < SIMD_ALIGN { SIMD_ALIGN as int } else { align }
}

/// Raise a layout's alignment to at least 64 bytes; the size is kept.
pub fn layout_align(align: usize) -> (a: usize)
    ensures
        a == spec_layout_align(align as int),
{
    if align < SIMD_ALIGN { SIMD_ALIGN } else { align }
}

/// A smaller power of two divides a larger one.
pub proof fn lemma_pow2_divides(a: int, b: int)
    requires
        is_pow2(a),
        is_pow2(b),
        a <= b,
    ensures
        b % a == 0,
    decreases b,
{
    if a == 1 {
    } else {
        lemma_pow2_divides(a / 2, b / 2);
        let ha = a / 2;
        let hb = b / 2;
        let k = hb / ha;
        lemma_fundamental_div_mod(hb, ha);
        assert(b == k * a) by (nonlinear_arith)
            requires hb == ha * k + hb % ha, hb % ha == 0, b == 2 * hb, a == 2 * ha;
        lemma_mod_multiples_basic(k, a);
    }
}

/// 64 is a power of two.
pub proof fn lemma_simd_align_pow2()
    ensures
        is_pow2(SIMD_ALIGN as int),
{
    reveal_with_fuel(is_pow2, 8);
}

/// For a valid (power of two) alignment the raised alignment is still a power of
/// two, and a multiple of both 64 and the requested alignment: a block placed at
/// it satisfies the caller and SIMD loads alike.
pub proof fn lemma_layout_align_valid(align: int)
    requires
        is_pow2(align),
    ensures
        is_pow2(spec_layout_align(align)),
        spec_layout_align(align) % (SIMD_ALIGN as int) == 0,
        spec_layout_align(align) % align == 0,
        spec_layout_align(align) >= align,
{
    lemma_simd_align_pow2();
    let a = spec_layout_align(align);
    lemma_pow2_divides(SIMD_ALIGN as int, a);
    lemma_pow2_divides(align, a);
}

/// Global allocator that enforces 64-byte alignment on every allocation by
/// raising the layout's alignment before handing it to the system allocator.
#[derive(Copy, Clone, Default, Debug)]
pub struct Alloc64Global;

/// Global allocator that serves requests of at least one huge page with
/// anonymous mappings and smaller ones with the 64-byte aligned system heap.
#[derive(Copy, Clone, Default, Debug)]
pub struct MAllocPg64Global;

/// Where an allocation or deallocation goes.
#[derive(Copy, Clone, Debug, PartialEq, Eq, Structural)]
pub enum Route {
    /// The system heap, with the layout's alignment raised to `align`.
    Heap { align: usize },
    /// An anonymous mapping.
    Mapped { mapping: Mapping },
}

/// The route for a layout of `size` bytes and alignment `align`.
pub open spec fn spec_route(size: int, align: int) -> Route {
    if spec_uses_mmap(size) {
        Route::Mapped { mapping: spec_mapping_for(size) }
    } else {
        Route::Heap { align: spec_layout_align(align) as usize }
    }
}

/// Route an allocation (zeroed or not) or a deallocation of a layout: heap below
/// one huge page, an anonymous mapping from there on. A deallocation unmaps the
/// same `mapping.len` bytes that the allocation mapped.
pub fn route(size: usize, align: usize) -> (r: Route)
    requires
        mappable(size as int),
    ensures
        r == spec_route(size as int, align as int),
{
    if !uses_mmap(size) {
        Route::Heap { align: layout_align(align) }
    } else {
        Route::Mapped { mapping: mapping_for(size) }
    }
}

/// How a reallocation from `old_size` to `new_size` bytes is carried out.
#[derive(Copy, Clone, Debug, PartialEq, Eq, Structural)]
pub enum ReallocPlan {
    /// Both sizes are heap-sized: reallocate on the heap with alignment `align`.
    Heap { align: usize },
    /// Create `target`, copy `copy_len` bytes, free the heap block (alignment `heap_align`).
    HeapToMapped { target: Mapping, copy_len: usize, heap_align: usize },
    /// Allocate `new_size` bytes on the heap with alignment `heap_align`, copy
    /// `copy_len` bytes, unmap the old `old_len` bytes.
    MappedToHeap { heap_align: usize, copy_len: usize, old_len: usize },
    /// Both sizes are mapped: resize the mapping.
    Mapped { remap: Remapping },
}

/// The reallocation plan for a layout of `old_size` bytes and alignment `align`
/// resized to `new_size` bytes.
pub open spec fn spec_realloc_plan(old_size: int, align: int, new_size: int) -> ReallocPlan {
    let old_mmap = spec_uses_mmap(old_size);
    let new_mmap = spec_uses_mmap(new_size);
    if !old_mmap && !new_mmap {
        ReallocPlan::Heap { align: spec_layout_align(align) as usize }
    } else if !old_mmap && new_mmap {
        ReallocPlan::HeapToMapped {
            target: spec_mapping_for(new_size),
            copy_len: old_size as usize,
            heap_align: spec_layout_align(align) as usize,
        }
    } else if old_mmap && !new_mmap {
        ReallocPlan::MappedToHeap {
            heap_align: spec_layout_align(align) as usize,
            copy_len: new_size as usize,
            old_len: spec_mapped_size(old_size) as usize,
        }
    } else if new_size <= old_size {
        ReallocPlan::Mapped { remap: spec_shrink_plan(old_size, new_size) }
    } else {
        ReallocPlan::Mapped { remap: spec_grow_plan(old_size, new_size) }
    }
}

/// Plan a reallocation: heap to heap stays on the heap; crossing the huge-page
/// threshold in either direction moves the data with a copy; mapped to mapped
/// keeps the mapping when the length does not change, shrinks it by releasing
/// tail pages (or by a copy when leaving gigantic pages), and grows it by a remap.
pub fn realloc_plan(old_size: usize, align: usize, new_size: usize) -> (plan: ReallocPlan)
    requires
        mappable(old_size as int),
        mappable(new_size as int),
    ensures
        plan == spec_realloc_plan(old_size as int, align as int, new_size as int),
{
    let old_mmap = uses_mmap(old_size);
    let new_mmap = uses_mmap(new_size);
    if !old_mmap && !new_mmap {
        return ReallocPlan::Heap { align: layout_align(align) };
    }
    if !old_mmap && new_mmap {
        return ReallocPlan::HeapToMapped {
            target: mapping_for(new_size),
            copy_len: old_size,
            heap_align: layout_align(align),
        };
    }
    if old_mmap && !new_mmap {
        return ReallocPlan::MappedToHeap {
            heap_align: layout_align(align),
            copy_len: new_size,
            old_len: mapped_size(old_size),
        };
    }
    if new_size <= old_size {
        ReallocPlan::Mapped { remap: shrink_plan(old_size, new_size) }
    } else {
        ReallocPlan::Mapped { remap: grow_plan(old_size, new_size) }
    }
}


/// A reallocation keeps the allocation's contents up to the smaller of the two
/// sizes, and leaves a block that holds the new size: copies move exactly
/// `min(old_size, new_size)` bytes, into a mapping long enough for the new size
/// when one is created.
pub proof fn lemma_realloc_keeps_contents(old_size: int, align: int, new_size: int)
    requires
        mappable(old_size),
        mappable(new_size),
    ensures
        match spec_realloc_plan(old_size, align, new_size) {
            ReallocPlan::Heap { .. } => old_size < HUGE_PAGE && new_size < HUGE_PAGE,
            ReallocPlan::HeapToMapped { target, copy_len, .. } => {
                &&& copy_len == old_size
                &&& old_size < new_size <= target.len
            },
            ReallocPlan::MappedToHeap { copy_len, old_len, .. } => {
                &&& copy_len == new_size
                &&& new_size < old_size <= old_len
            },
            ReallocPlan::Mapped { remap } => match remap {
                Remapping::InPlace { len } => len >= new_size && len == spec_mapped_size(old_size),
                Remapping::Remap { old_len, target } => old_size < new_size <= target.len
                    && old_len == spec_mapped_size(old_size),
                Remapping::ReleaseTail { keep_len, old_len } => new_size <= keep_len < old_len
                    && old_len == spec_mapped_size(old_size),
                Remapping::Relocate { target, copy_len, old_len } => copy_len == new_size
                    && new_size <= target.len && new_size < old_size && old_len == spec_mapped_size(
                    old_size),
            },
        },
{
    lemma_mapped_size_holds_request(old_size);
    lemma_mapped_size_holds_request(new_size);
    lemma_mapped_size_fits(old_size);
    lemma_mapped_size_fits(new_size);
    if spec_uses_mmap(old_size) && spec_uses_mmap(new_size) {
        if new_size <= old_size {
            lemma_shrink_plan_keeps_prefix(old_size, new_size);
        } else {
            lemma_grow_plan_holds_new_size(old_size, new_size);
        }
    }
}


/// Routing goes by size alone: a request is mapped exactly when it is at least
/// one huge page, and then gets the fresh mapping for its size; a smaller one
/// goes to the heap with its alignment raised to at least 64 and otherwise kept.
pub proof fn lemma_route_threshold(size: int, align: int)
    requires
        mappable(size),
        0 <= align <= usize::MAX,
    ensures
        (spec_route(size, align) is Mapped) == (size >= HUGE_PAGE),
        match spec_route(size, align) {
            Route::Heap { align: a } => size < HUGE_PAGE && a >= 64 && a >= align && (align >= 64
                ==> a == align) && (align < 64 ==> a == 64),
            Route::Mapped { mapping } => mapping == spec_mapping_for(size) && mapping.len >= size
                && mapping.len % HUGE_PAGE == 0,
        },
{
    lemma_mapped_size_holds_request(size);
    lemma_mapped_size_fits(size);
}

/// A reallocation treats the old block the way it was allocated and the new
/// block the way a fresh allocation of the new size would be: the old block is
/// a mapping exactly when `route` mapped it, a mapping that is given up is
/// unmapped over exactly the length `route` mapped, a new mapping is exactly
/// the one `route` would create, and heap blocks use the alignment `route`
/// gives.
pub proof fn lemma_realloc_agrees_with_route(old_size: int, align: int, new_size: int)
    requires
        mappable(old_size),
        mappable(new_size),
        0 <= align <= usize::MAX,
    ensures
        ({
            let plan = spec_realloc_plan(old_size, align, new_size);
            let old_route = spec_route(old_size, align);
            let new_route = spec_route(new_size, align);
            &&& (old_route is Mapped) == (plan is MappedToHeap || plan is Mapped)
            &&& (new_route is Mapped) == (plan is HeapToMapped || plan is Mapped)
            &&& match plan {
                ReallocPlan::Heap { align: a } => old_route == (Route::Heap { align: a })
                    && new_route == (Route::Heap { align: a }),
                ReallocPlan::HeapToMapped { target, heap_align, .. } => old_route == (Route::Heap {
                    align: heap_align,
                }) && new_route == (Route::Mapped { mapping: target }),
                ReallocPlan::MappedToHeap { heap_align, old_len, .. } => {
                    &&& old_route matches Route::Mapped { mapping } && mapping.len == old_len
                    &&& new_route == (Route::Heap { align: heap_align })
                    &&& old_len >= old_size
                    &&& old_len % HUGE_PAGE == 0
                },
                ReallocPlan::Mapped { .. } => old_route is Mapped && new_route is Mapped,
            }
        }),
{
    lemma_mapped_size_holds_request(old_size);
    lemma_mapped_size_fits(old_size);
    lemma_mapped_size_fits(new_size);
}

} // verus!

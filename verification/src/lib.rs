//! Buffers and allocators for 64-byte aligned, page-aligned columnar data:
//! the mapping allocator's size rounding and resize plans, the global
//! allocators' routing, page-alignment arithmetic for buffer lengths, a
//! growable buffer, a fixed-capacity append-only vector, and a parallel sum.

pub mod mmap_alloc;
pub mod global;
pub mod vec64;
pub mod page_aligned;
pub mod append_only_vec;
pub mod sums;

pub use page_aligned::{PageAligned, page_align_bitmask_step, page_align_t_step};
pub use vec64::Vec64;
pub use append_only_vec::AppendOnlyVec;
pub use mmap_alloc::MAllocPg64;
pub use global::{Alloc64Global, MAllocPg64Global};

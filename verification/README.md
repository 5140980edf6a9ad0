# vec64

Verified building blocks for 64-byte aligned, huge-page backed columnar buffers.

- `src/` is the library, verified with Verus:
  - `mmap_alloc`: huge-page rounding of mapping sizes and the plans for
    allocating, growing and shrinking anonymous mappings;
  - `global`: the global allocators' alignment raising, heap/mapping routing
    and reallocation plans;
  - `page_aligned`: the page-alignment step of an element size (through a
    verified `gcd`), and the `PageAligned` queries on `Vec64`;
  - `vec64`: a growable buffer that tracks its reserved capacity;
  - `append_only_vec`: a fixed-capacity append-only vector;
  - `sums`: a parallel sum of a range (rayon) and its closed form.
- `app/` carries the plans out: the `GlobalAlloc` impls, the `mmap`/`mremap`/
  `munmap`/`madvise` calls, and the WebAssembly entry points.
- `tests/` exercises the library.

use vec64::global::{layout_align, realloc_plan, route, ReallocPlan, Route};
use vec64::mmap_alloc::{Mapping, Remapping, HUGE_PAGE};

#[test]
fn layout_alignment_is_raised_to_64() {
    assert_eq!(layout_align(1), 64);
    assert_eq!(layout_align(8), 64);
    assert_eq!(layout_align(64), 64);
    assert_eq!(layout_align(4096), 4096);
}

#[test]
fn small_requests_go_to_the_heap() {
    assert_eq!(route(1024, 8), Route::Heap { align: 64 });
    assert_eq!(route(HUGE_PAGE - 1, 128), Route::Heap { align: 128 });
}

#[test]
fn large_requests_are_mapped() {
    assert_eq!(
        route(HUGE_PAGE + 1, 8),
        Route::Mapped { mapping: Mapping { len: 2 * HUGE_PAGE, gigantic: false } }
    );
}

#[test]
fn realloc_heap_to_heap() {
    assert_eq!(realloc_plan(64, 1, 256), ReallocPlan::Heap { align: 64 });
}

#[test]
fn realloc_across_threshold_copies() {
    assert_eq!(
        realloc_plan(4096, 8, HUGE_PAGE + 10),
        ReallocPlan::HeapToMapped {
            target: Mapping { len: 2 * HUGE_PAGE, gigantic: false },
            copy_len: 4096,
            heap_align: 64,
        }
    );
    assert_eq!(
        realloc_plan(3 * HUGE_PAGE, 8, 100),
        ReallocPlan::MappedToHeap { heap_align: 64, copy_len: 100, old_len: 3 * HUGE_PAGE }
    );
}

#[test]
fn realloc_between_mappings() {
    assert_eq!(
        realloc_plan(HUGE_PAGE, 8, HUGE_PAGE + 100),
        ReallocPlan::Mapped {
            remap: Remapping::Remap {
                old_len: HUGE_PAGE,
                target: Mapping { len: 2 * HUGE_PAGE, gigantic: false },
            },
        }
    );
    assert_eq!(
        realloc_plan(4 * HUGE_PAGE, 8, 2 * HUGE_PAGE),
        ReallocPlan::Mapped { remap: Remapping::ReleaseTail { keep_len: 2 * HUGE_PAGE, old_len: 4 * HUGE_PAGE } }
    );
    assert_eq!(
        realloc_plan(HUGE_PAGE + 1, 8, HUGE_PAGE + 2),
        ReallocPlan::Mapped { remap: Remapping::InPlace { len: 2 * HUGE_PAGE } }
    );
}

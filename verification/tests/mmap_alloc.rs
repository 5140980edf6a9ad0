use vec64::mmap_alloc::{
    grow_plan, mapped_size, mapping_for, shrink_plan, uses_giant_pages, uses_mmap, MAllocPg64, Mapping,
    Remapping, HUGE_PAGE,
};

#[test]
fn test_mapped_size_rounding() {
    assert_eq!(mapped_size(0), HUGE_PAGE);
    assert_eq!(mapped_size(1), HUGE_PAGE);
    assert_eq!(mapped_size(HUGE_PAGE), HUGE_PAGE);
    assert_eq!(mapped_size(HUGE_PAGE + 1), HUGE_PAGE * 2);
    assert_eq!(mapped_size(HUGE_PAGE * 3), HUGE_PAGE * 3);
}

#[test]
fn test_by_ref() {
    let a = MAllocPg64;
    let b = a.by_ref();
    assert!(std::ptr::eq(&a, b));
}

#[test]
fn mapped_size_is_whole_huge_pages() {
    for size in [1usize, 64, 4096, HUGE_PAGE - 1, HUGE_PAGE + 4096, 5 * HUGE_PAGE + 7] {
        let m = mapped_size(size);
        assert_eq!(m % HUGE_PAGE, 0);
        assert!(m >= size && m < size + HUGE_PAGE);
    }
}

#[test]
fn mmap_threshold_is_one_huge_page() {
    assert!(!uses_mmap(HUGE_PAGE - 1));
    assert!(uses_mmap(HUGE_PAGE));
    assert!(!uses_giant_pages(1 << 30));
}

#[test]
fn fresh_mapping_rounds_the_request() {
    assert_eq!(mapping_for(100), Mapping { len: HUGE_PAGE, gigantic: false });
    assert_eq!(mapping_for(3 * HUGE_PAGE + 1), Mapping { len: 4 * HUGE_PAGE, gigantic: false });
}

#[test]
fn grow_within_mapping_stays_in_place() {
    assert_eq!(grow_plan(100, 1024 * 1024), Remapping::InPlace { len: HUGE_PAGE });
}

#[test]
fn grow_past_mapping_remaps() {
    assert_eq!(
        grow_plan(1024, HUGE_PAGE + 4096),
        Remapping::Remap {
            old_len: HUGE_PAGE,
            target: Mapping { len: 2 * HUGE_PAGE, gigantic: false },
        }
    );
}

#[test]
fn shrink_releases_tail_pages() {
    assert_eq!(
        shrink_plan(HUGE_PAGE * 3, HUGE_PAGE),
        Remapping::ReleaseTail { keep_len: HUGE_PAGE, old_len: 3 * HUGE_PAGE }
    );
    assert_eq!(shrink_plan(HUGE_PAGE, 10), Remapping::InPlace { len: HUGE_PAGE });
}

#[test]
fn resized_mapping_has_the_fresh_length() {
    for (old, new) in [(100usize, 1024 * 1024), (1024, HUGE_PAGE + 4096), (3 * HUGE_PAGE, 5 * HUGE_PAGE + 1)] {
        assert_eq!(grow_plan(old, new).result_len(), mapped_size(new));
        assert_eq!(shrink_plan(new, old).result_len(), mapped_size(old));
    }
}

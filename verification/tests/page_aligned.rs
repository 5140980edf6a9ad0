use vec64::mmap_alloc::HUGE_PAGE;
use vec64::page_aligned::{gcd, step_rows_inner};
use vec64::{page_align_bitmask_step, page_align_t_step, PageAligned, Vec64};

#[test]
fn empty_vec64_is_not_aligned() {
    let v: Vec64<u64> = Vec64::new();
    assert!(!v.is_page_aligned());
}

#[test]
fn heap_backed_vec64_is_not_aligned() {
    let v: Vec64<u64> = Vec64::from((0..100u64).collect::<Vec<u64>>());
    assert!(!v.is_page_aligned());
}

#[test]
fn mmap_backed_unaligned_is_not_aligned() {
    let n = 200_000usize;
    let mut v: Vec64<u64> = Vec64::with_capacity(n);
    for i in 0..n as u64 {
        v.push(i);
    }
    assert!(!v.is_page_aligned());
}

#[test]
fn mmap_backed_exact_huge_page_multiple_is_aligned() {
    let n = HUGE_PAGE / 8;
    let mut v: Vec64<u64> = Vec64::with_capacity(n);
    for i in 0..n as u64 {
        v.push(i);
    }
    assert_eq!(v.len(), n);
    assert_eq!(v.capacity(), n);
    assert!(v.is_page_aligned());
}

#[test]
fn mmap_backed_loose_capacity_is_not_aligned() {
    let n = HUGE_PAGE / 8;
    let mut v: Vec64<u64> = Vec64::with_capacity(n + 10);
    for i in 0..n as u64 {
        v.push(i);
    }
    // len matches the page-multiple target, but the capacity is larger.
    assert!(!v.is_page_aligned());
}

#[test]
fn next_page_aligned_len_for_u64() {
    let v: Vec64<u64> = Vec64::new();
    assert_eq!(v.next_page_aligned_len(), Some(0));
    let step = HUGE_PAGE / 8;

    let mut v: Vec64<u64> = Vec64::with_capacity(step);
    for _ in 0..1u64 {
        v.push(0);
    }
    assert_eq!(v.next_page_aligned_len(), Some(step));

    for _ in 1..step as u64 - 1 {
        v.push(0);
    }
    // len = step - 1, next is step
    assert_eq!(v.next_page_aligned_len(), Some(step));

    v.push(0);
    assert_eq!(v.len(), step);
    assert_eq!(v.next_page_aligned_len(), Some(step));
}

#[test]
fn prev_page_aligned_len_for_u64() {
    let step = HUGE_PAGE / 8;
    let mut v: Vec64<u64> = Vec64::with_capacity(step);
    for _ in 0..step as u64 / 2 {
        v.push(0);
    }
    assert_eq!(v.prev_page_aligned_len(), Some(0));

    for _ in 0..step as u64 / 2 {
        v.push(0);
    }
    assert_eq!(v.len(), step);
    assert_eq!(v.prev_page_aligned_len(), Some(step));

    v.push(0);
    assert_eq!(v.prev_page_aligned_len(), Some(step));
}

#[test]
fn aligned_len_step_basic() {
    let step = HUGE_PAGE / 8;
    let mut v: Vec64<u64> = Vec64::with_capacity(step);
    for _ in 0..(step / 4) as u64 {
        v.push(0);
    }
    assert_eq!(v.aligned_len_step(), Some(step - step / 4));

    while v.len() < step {
        v.push(0);
    }
    assert_eq!(v.aligned_len_step(), Some(0));
}

#[test]
fn step_size_depends_on_t() {
    // u8 (1 byte): step = HUGE_PAGE
    // u32 (4 bytes): step = HUGE_PAGE / 4
    // u64 (8 bytes): step = HUGE_PAGE / 8
    let v_u8: Vec64<u8> = Vec64::new();
    assert_eq!(v_u8.next_page_aligned_len(), Some(0));
    let v_u8: Vec64<u8> = Vec64::from((0..1u8).collect::<Vec<u8>>());
    assert_eq!(v_u8.next_page_aligned_len(), Some(HUGE_PAGE));

    let v_u32: Vec64<u32> = Vec64::from((0..1u32).collect::<Vec<u32>>());
    assert_eq!(v_u32.next_page_aligned_len(), Some(HUGE_PAGE / 4));

    let v_u64: Vec64<u64> = Vec64::from((0..1u64).collect::<Vec<u64>>());
    assert_eq!(v_u64.next_page_aligned_len(), Some(HUGE_PAGE / 8));
}

#[test]
fn aligned_source_extends_correctly() {
    let n = HUGE_PAGE / 8;

    let mut src: Vec64<u64> = Vec64::with_capacity(n);
    for i in 0..n as u64 {
        src.push(i);
    }
    assert!(src.is_page_aligned(), "source built to spec must report is_page_aligned() == true");

    let mut dst: Vec64<u64> = Vec64::with_capacity(n * 2);
    for i in 0..n as u64 {
        dst.push(i * 1000);
    }
    assert_eq!((dst.len() * std::mem::size_of::<u64>()) % HUGE_PAGE, 0);
    assert!(dst.capacity() - dst.len() >= n);

    dst.extend_from_vec64(src);

    assert_eq!(dst.len(), n * 2);
    for i in 0..n {
        assert_eq!(dst[i], i as u64 * 1000, "head corruption at {i}");
    }
    for i in 0..n {
        assert_eq!(dst[n + i], i as u64, "tail corruption at {i}");
    }
}

#[test]
fn zst_returns_none() {
    let v: Vec64<()> = Vec64::new();
    assert!(!v.is_page_aligned());
    assert_eq!(v.next_page_aligned_len(), None);
    assert_eq!(v.prev_page_aligned_len(), None);
    assert_eq!(v.aligned_len_step(), None);
}

#[test]
fn gcd_of_known_pairs() {
    assert_eq!(gcd(12, 18), 6);
    assert_eq!(gcd(18, 12), 6);
    assert_eq!(gcd(7, 0), 7);
    assert_eq!(gcd(0, 7), 7);
    assert_eq!(gcd(0, 0), 0);
    assert_eq!(gcd(24, HUGE_PAGE), 8);
}

#[test]
fn step_for_odd_and_wide_elements() {
    // 3-byte elements share no factor with a power-of-two page.
    assert_eq!(step_rows_inner(3), Some(HUGE_PAGE));
    // 24-byte elements: gcd 8.
    assert_eq!(step_rows_inner(24), Some(HUGE_PAGE / 8));
    // Elements larger than a page: one element already a page multiple.
    assert_eq!(step_rows_inner(2 * HUGE_PAGE), Some(1));
    assert_eq!(step_rows_inner(0), None);
    let s = step_rows_inner(24).unwrap();
    assert_eq!((s * 24) % HUGE_PAGE, 0);
    assert_ne!(((s - 1) * 24) % HUGE_PAGE, 0);
}

#[test]
fn t_step_and_bitmask_step() {
    assert_eq!(page_align_t_step::<u16>(), Some(HUGE_PAGE / 2));
    assert_eq!(page_align_t_step::<[u8; 3]>(), Some(HUGE_PAGE));
    assert_eq!(page_align_t_step::<()>(), None);
    assert_eq!(page_align_bitmask_step(), Some(HUGE_PAGE * 8));
}

#[test]
fn next_and_prev_between_steps() {
    let step = HUGE_PAGE / 8;
    let mut v: Vec64<u64> = Vec64::with_capacity(step + 5);
    for _ in 0..step + 5 {
        v.push(1);
    }
    assert_eq!(v.next_page_aligned_len(), Some(2 * step));
    assert_eq!(v.prev_page_aligned_len(), Some(step));
    assert_eq!(v.aligned_len_step(), Some(step - 5));
}

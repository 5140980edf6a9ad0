use vec64::sums::{expected_sum, par_sum};

#[test]
fn par_sum_matches_expected_sum() {
    for len in [1usize, 2, 3, 10, 1000, 100_000] {
        assert_eq!(par_sum(len), expected_sum(len));
    }
}

#[test]
fn sums_of_small_ranges() {
    assert_eq!(par_sum(0), 0);
    assert_eq!(par_sum(5), 10);
    assert_eq!(expected_sum(1), 0);
    assert_eq!(expected_sum(5), 10);
    assert_eq!(expected_sum(1_000_000), 499_999_500_000);
}

#[test]
fn expected_sum_of_empty_and_large_ranges() {
    assert_eq!(expected_sum(0), 0);
    assert_eq!(expected_sum(2), 1);
    // len * (len - 1) overflows u64 here, but the sum itself fits.
    assert_eq!(expected_sum(5_000_000_000), 12_499_999_997_500_000_000);
}

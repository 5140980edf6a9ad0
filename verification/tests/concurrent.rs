use rayon::iter::{IntoParallelRefIterator, ParallelIterator};
use vec64::Vec64;

#[test]
fn par_iter_filter_count() {
    let n = 1_000_000;
    let buffer: Vec64<u64> = Vec64::from((0..n as u64).collect::<Vec<u64>>());

    let count = buffer.par_iter().filter(|&&x| x % 3 == 0).count();

    // 0, 3, 6, ..., 999999: count = ceil(1_000_000 / 3) = 333_334
    let expected = (n + 2) / 3;
    assert_eq!(count, expected);
}

#[test]
fn par_iter_reduction() {
    let n = 1_000_000u64;
    let buffer: Vec64<u64> = Vec64::from((0..n).collect::<Vec<u64>>());

    let sum: u64 = buffer.par_iter().sum();
    let expected = n * (n - 1) / 2;
    assert_eq!(sum, expected);
}

use vec64::Vec64;

#[test]
fn push_grows_capacity_by_doubling() {
    let mut v: Vec64<u32> = Vec64::new();
    assert_eq!(v.capacity(), 0);
    v.push(1);
    assert_eq!(v.capacity(), 4);
    for i in 0..4 {
        v.push(i);
    }
    assert_eq!(v.len(), 5);
    assert_eq!(v.capacity(), 8);
    assert_eq!(v.as_slice(), &[1, 0, 1, 2, 3]);
}

#[test]
fn extend_beyond_capacity_grows_to_fit() {
    let mut a: Vec64<u8> = Vec64::with_capacity(2);
    a.push(1);
    let b: Vec64<u8> = Vec64::from(vec![2u8; 10]);
    assert_eq!(b.capacity(), 10);
    a.extend_from_vec64(b);
    assert_eq!(a.len(), 11);
    assert_eq!(a.capacity(), 11);
    assert_eq!(a[0], 1);
    assert_eq!(a[10], 2);
    assert!(!a.is_empty());
}

#[test]
fn set_replaces_in_place() {
    let mut v: Vec64<u64> = Vec64::with_capacity(3);
    v.push(1);
    v.push(2);
    v.push(3);
    v.set(1, 20);
    assert_eq!(v.as_slice(), &[1, 20, 3]);
    assert_eq!(v.len(), 3);
    assert_eq!(v.capacity(), 3);
}

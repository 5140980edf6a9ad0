use std::sync::Arc;
use vec64::AppendOnlyVec;

#[test]
fn push_under_cap_succeeds() {
    let mut v = AppendOnlyVec::<u32>::with_capacity(4);
    assert_eq!(v.push(10), Some(0));
    assert_eq!(v.push(20), Some(1));
    assert_eq!(v.count(), 2);
    assert_eq!(v.as_slice(), &[10, 20]);
}

#[test]
fn push_past_cap_returns_none_and_leaves_state_unchanged() {
    let mut v = AppendOnlyVec::<u32>::with_capacity(2);
    assert_eq!(v.push(1), Some(0));
    assert_eq!(v.push(2), Some(1));
    // Cap reached; subsequent pushes return None. Count is unchanged.
    assert_eq!(v.push(3), None);
    assert_eq!(v.count(), 2);
    assert_eq!(v.as_slice(), &[1, 2]);
}

#[test]
fn index_get_slice_agree() {
    let mut v = AppendOnlyVec::<String>::with_capacity(8);
    v.push("a".into());
    v.push("b".into());
    v.push("c".into());
    assert_eq!(&v[0], "a");
    assert_eq!(&v[1], "b");
    assert_eq!(v.get(2).map(String::as_str), Some("c"));
    assert!(v.get(3).is_none());
    let slice: &[String] = v.as_slice();
    assert_eq!(slice, &["a".to_string(), "b".into(), "c".into()]);
}

#[test]
fn deref_to_slice() {
    let mut v = AppendOnlyVec::<u32>::with_capacity(4);
    v.push(7);
    v.push(8);
    let s: &[u32] = &*v;
    assert_eq!(s, &[7, 8]);
}

#[test]
fn iter_yields_index_and_ref() {
    let mut v = AppendOnlyVec::<u32>::with_capacity(4);
    v.push(100);
    v.push(200);
    let mut pairs: Vec<(usize, u32)> = Vec::new();
    let mut it = v.iter();
    while let Some((i, x)) = it.next() {
        pairs.push((i, *x));
    }
    assert_eq!(pairs, vec![(0, 100), (1, 200)]);
}

#[test]
fn drop_releases_initialised_prefix() {
    let canary = Arc::new(());
    {
        let mut v = AppendOnlyVec::<Arc<()>>::with_capacity(8);
        v.push(canary.clone());
        v.push(canary.clone());
        v.push(canary.clone());
        assert_eq!(Arc::strong_count(&canary), 4);
    }
    assert_eq!(Arc::strong_count(&canary), 1);
}

#[test]
fn default_has_no_capacity() {
    let mut v: AppendOnlyVec<u8> = AppendOnlyVec::default();
    assert_eq!(v.capacity(), 0);
    assert!(v.is_empty());
    assert_eq!(v.push(1), None);
    assert!(v.is_empty());
}

#[test]
fn capacity_is_fixed_and_indices_are_stable() {
    let mut v = AppendOnlyVec::<u64>::with_capacity(3);
    assert_eq!(v.capacity(), 3);
    assert_eq!(v.push(5), Some(0));
    assert_eq!(v.get(0), Some(&5));
    assert_eq!(v.push(6), Some(1));
    assert_eq!(v.push(7), Some(2));
    assert_eq!(v.push(8), None);
    assert_eq!(v.capacity(), 3);
    assert_eq!(v.get(0), Some(&5));
    assert_eq!(v.get(2), Some(&7));
    assert_eq!(v.get(3), None);
    assert!(!v.is_empty());
}

#[test]
fn empty_until_a_push_succeeds() {
    let mut v = AppendOnlyVec::<u8>::with_capacity(1);
    assert!(v.is_empty());
    assert_eq!(v.count(), 0);
    assert!(v.as_slice().is_empty());
    assert_eq!(v.push(9), Some(0));
    assert!(!v.is_empty());
    assert_eq!(v.push(10), None);
    assert_eq!(v.count(), 1);
}

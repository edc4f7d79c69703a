use hummock::key::{get_epoch, key_with_epoch, user_key, KeyOrder, VersionedComparator};

#[test]
fn full_key_round_trip() {
    let k = key_with_epoch(b"alpha".to_vec(), 0x0102_0304_0506_0708);
    assert_eq!(k.len(), 13);
    assert_eq!(&k[5..], &[1u8, 2, 3, 4, 5, 6, 7, 8]);
    assert_eq!(user_key(&k), b"alpha");
    assert_eq!(get_epoch(&k), 0x0102_0304_0506_0708);
}

#[test]
fn newer_epoch_sorts_first() {
    let newer = key_with_epoch(b"a".to_vec(), 5);
    let older = key_with_epoch(b"a".to_vec(), 3);
    let other = key_with_epoch(b"b".to_vec(), 9);
    assert_eq!(VersionedComparator::compare_key(&newer, &older), KeyOrder::Less);
    assert_eq!(VersionedComparator::compare_key(&older, &newer), KeyOrder::Greater);
    assert_eq!(VersionedComparator::compare_key(&older, &older), KeyOrder::Equal);
    assert_eq!(VersionedComparator::compare_key(&older, &other), KeyOrder::Less);
    assert!(VersionedComparator::same_user_key(&newer, &older));
    assert!(!VersionedComparator::same_user_key(&newer, &other));
}

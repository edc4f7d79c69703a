use hummock::compactor::RemoteBuilderFactory;
use hummock::concat_iterator::can_concat;
use hummock::concat_iterator::ConcatSstableIterator;
use hummock::context::{clamp_to_usize, FilterKeyExtractorManager, StorageConfig};
use hummock::error::HummockError;
use hummock::iterator::HummockIterator;
use hummock::key::{compare_bytes, get_table_id, key_with_epoch, user_key, KeyOrder};
use hummock::key_range::KeyRange;
use hummock::memory::MemoryLimiter;
use hummock::merge_iterator::UnorderedMergeIteratorInner;
use hummock::multi_builder::TableBuilderFactory;
use hummock::sstable::{CompressionAlgorithm, Sstable, SstableBuilder, SstableBuilderOptions};
use hummock::sstable_id_manager::SstableIdManager;
use hummock::sstable_store::SstableStore;
use hummock::value::{Entry, HummockValue};
use std::sync::Arc;

fn put(key: &[u8], epoch: u64) -> Entry {
    Entry { key: key_with_epoch(key.to_vec(), epoch), value: HummockValue::put(key) }
}

fn options(capacity: usize, block: usize, bloom: usize) -> SstableBuilderOptions {
    SstableBuilderOptions {
        capacity,
        block_capacity: block,
        restart_interval: 16,
        estimate_bloom_filter_capacity: bloom,
        compression_algorithm: CompressionAlgorithm::Lz4,
    }
}

#[test]
fn byte_strings_compare_lexicographically() {
    assert_eq!(compare_bytes(b"", b""), KeyOrder::Equal);
    assert_eq!(compare_bytes(b"", b"a"), KeyOrder::Less);
    assert_eq!(compare_bytes(b"ab", b"a"), KeyOrder::Greater);
    assert_eq!(compare_bytes(b"ab", b"b"), KeyOrder::Less);
    assert_eq!(compare_bytes(b"abc", b"abc"), KeyOrder::Equal);
    assert_eq!(compare_bytes(&[0xff], &[0x01, 0x02]), KeyOrder::Greater);
}

#[test]
fn the_table_id_follows_the_table_marker() {
    assert_eq!(get_table_id(b"t\x00\x00\x01\x02rest"), Some(258));
    assert_eq!(get_table_id(b"t\xff\xff\xff\xff"), Some(u32::MAX));
    assert_eq!(get_table_id(b"x\x00\x00\x01\x02rest"), None);
    assert_eq!(get_table_id(b"t\x00\x00"), None);
    assert_eq!(get_table_id(b""), None);
}

#[test]
fn a_table_must_be_sorted_and_have_full_keys() {
    assert!(Sstable::new(1, vec![]).is_ok());
    assert!(Sstable::new(1, vec![put(b"a", 2), put(b"a", 1), put(b"b", 9)]).is_ok());
    assert_eq!(Sstable::new(1, vec![put(b"a", 1), put(b"a", 2)]).err(), Some(HummockError::Other));
    assert_eq!(Sstable::new(1, vec![put(b"a", 1), put(b"a", 1)]).err(), Some(HummockError::Other));
    assert_eq!(Sstable::new(1, vec![put(b"b", 1), put(b"a", 1)]).err(), Some(HummockError::Other));
    let short = Entry { key: b"short".to_vec(), value: HummockValue::delete() };
    assert_eq!(Sstable::new(1, vec![short]).err(), Some(HummockError::Other));
    let t = Sstable::new(9, vec![put(b"a", 2), put(b"b", 1)]).unwrap();
    assert_eq!((t.id(), t.len()), (9, 2));
    assert_eq!(user_key(&t.entry(1).key), b"b");
}

#[test]
fn a_builder_counts_the_bytes_of_keys_and_payloads() {
    let mut b = SstableBuilder::new(3, options(40, 8, 0));
    assert!(b.is_empty() && !b.reach_capacity());
    b.add(&key_with_epoch(b"t\x00\x00\x00\x07a".to_vec(), 2), HummockValue::put(b"12345"));
    b.add(&key_with_epoch(b"t\x00\x00\x00\x07b".to_vec(), 2), HummockValue::delete());
    assert_eq!(b.approximate_len(), 14 + 5 + 14);
    assert!(!b.reach_capacity());
    b.add(&key_with_epoch(b"t\x00\x00\x00\x09c".to_vec(), 2), HummockValue::put(b""));
    assert_eq!(b.len(), 3);
    assert!(b.reach_capacity());
    assert_eq!(b.sstable_id(), 3);
    assert_eq!(b.options().capacity, 40);
    let (id, data, meta, table_ids) = b.finish();
    assert_eq!(id, 3);
    assert_eq!(data.len(), 3);
    assert_eq!(meta.key_count, 3);
    assert_eq!(meta.estimated_size, 47);
    assert_eq!(meta.smallest_key, key_with_epoch(b"t\x00\x00\x00\x07a".to_vec(), 2));
    assert_eq!(meta.largest_key, key_with_epoch(b"t\x00\x00\x00\x09c".to_vec(), 2));
    assert_eq!(table_ids, vec![7, 9]);
}

#[test]
fn merged_runs_come_out_in_key_order() {
    let run = |id: u64, entries: Vec<Entry>| {
        ConcatSstableIterator::new(vec![Arc::new(Sstable::new(id, entries).unwrap())])
    };
    let long = ConcatSstableIterator::new(vec![
        Arc::new(Sstable::new(1, vec![put(b"a", 5), put(b"b", 5)]).unwrap()),
        Arc::new(Sstable::new(2, vec![]).unwrap()),
        Arc::new(Sstable::new(3, vec![put(b"e", 5)]).unwrap()),
    ]);
    let mut merged = UnorderedMergeIteratorInner::new(vec![
        run(4, vec![put(b"c", 1), put(b"d", 9)]),
        long,
        run(5, vec![put(b"a", 7), put(b"b", 3)]),
    ]);
    let mut drain = |it: &mut UnorderedMergeIteratorInner<ConcatSstableIterator>| {
        let mut seen = vec![];
        while it.is_valid() {
            let k = it.key().to_vec();
            assert!(!it.value().is_delete());
            seen.push((user_key(&k).to_vec(), hummock::key::get_epoch(&k)));
            it.next();
        }
        seen
    };
    merged.rewind();
    let all = drain(&mut merged);
    let expected: Vec<(Vec<u8>, u64)> = vec![
        (b"a".to_vec(), 7),
        (b"a".to_vec(), 5),
        (b"b".to_vec(), 5),
        (b"b".to_vec(), 3),
        (b"c".to_vec(), 1),
        (b"d".to_vec(), 9),
        (b"e".to_vec(), 5),
    ];
    assert_eq!(all, expected);
    merged.seek(&key_with_epoch(b"b".to_vec(), 4));
    assert_eq!(drain(&mut merged), expected[3..].to_vec());
    merged.seek(&key_with_epoch(b"z".to_vec(), 4));
    assert!(!merged.is_valid());
    merged.rewind();
    assert_eq!(drain(&mut merged).len(), 7);
}

#[test]
fn tables_can_be_concatenated_if_they_lie_apart() {
    let t = |id: u64, entries: Vec<Entry>| Arc::new(Sstable::new(id, entries).unwrap());
    assert!(can_concat(&vec![]));
    assert!(can_concat(&vec![t(1, vec![put(b"a", 1), put(b"b", 1)])]));
    assert!(can_concat(&vec![
        t(1, vec![put(b"a", 1), put(b"b", 1)]),
        t(2, vec![]),
        t(3, vec![put(b"c", 1)]),
    ]));
    // Two versions of one user key in two tables.
    assert!(!can_concat(&vec![t(1, vec![put(b"a", 2)]), t(2, vec![put(b"a", 1)])]));
    assert!(!can_concat(&vec![
        t(1, vec![put(b"a", 1), put(b"c", 1)]),
        t(2, vec![]),
        t(3, vec![put(b"b", 1)]),
    ]));
}

#[test]
fn memory_is_reserved_and_given_back() {
    let mut limiter = MemoryLimiter::new(100);
    let a = limiter.require_memory(60).unwrap();
    assert_eq!(a.quota(), 60);
    assert!(limiter.require_memory(41).is_none());
    let b = limiter.require_memory(40).unwrap();
    assert_eq!((limiter.get_memory_usage(), limiter.get_memory_left()), (100, 0));
    limiter.release(a);
    assert_eq!(limiter.get_memory_usage(), 40);
    limiter.release(b);
    assert_eq!(limiter.get_memory_usage(), 0);
    let c = limiter.require_memory(70).unwrap();
    limiter.release_to(80);
    assert_eq!(limiter.get_memory_usage(), 70);
    limiter.release_to(20);
    assert_eq!(limiter.get_memory_usage(), 20);
    limiter.release(c);
    assert_eq!(limiter.get_memory_usage(), 0);
    let mut other = MemoryLimiter::new(100);
    let big = other.require_memory(90).unwrap();
    limiter.release(big);
    assert_eq!(limiter.get_memory_usage(), 0);
}

#[test]
fn ids_are_handed_out_in_order_and_watermarks_guard_them() {
    let mut ids = SstableIdManager::new(10, 12);
    assert_eq!(ids.available(), 2);
    assert_eq!(ids.global_watermark_sst_id(), u64::MAX);
    assert!(ids.may_delete(1_000_000));
    let first = ids.add_watermark_sst_id(None).unwrap();
    assert_eq!(ids.global_watermark_sst_id(), 10);
    let second = ids.add_watermark_sst_id(Some(4)).unwrap();
    assert_ne!(first, second);
    assert_eq!(ids.global_watermark_sst_id(), 4);
    assert!(ids.may_delete(3) && !ids.may_delete(4) && !ids.may_delete(11));
    assert_eq!(ids.get_new_sst_id(), Ok(11));
    assert_eq!(ids.get_new_sst_id(), Err(HummockError::CompactionExecutor));
    assert_eq!(ids.add_watermark_sst_id(None), Err(HummockError::CompactionExecutor));
    ids.remove_watermark_sst_id(second);
    assert_eq!(ids.global_watermark_sst_id(), 10);
    ids.remove_watermark_sst_id(first);
    assert_eq!(ids.global_watermark_sst_id(), u64::MAX);
    assert_eq!(SstableIdManager::new(5, 3).available(), 0);
    ids.add_watermark_sst_id(Some(77)).unwrap();
    ids.reserve(100, 103);
    assert_eq!(ids.available(), 3);
    assert_eq!(ids.get_new_sst_id(), Ok(100));
    assert_eq!(ids.global_watermark_sst_id(), 77);
}

#[test]
fn a_remote_factory_needs_an_id_and_memory_for_every_builder() {
    let o = options(100, 20, 5);
    let mut factory =
        RemoteBuilderFactory::new(SstableIdManager::new(1, 10), MemoryLimiter::new(300), o);
    let (t1, b1) = factory.open_builder().unwrap();
    let (_t2, b2) = factory.open_builder().unwrap();
    assert_eq!(t1.quota(), 125);
    assert_eq!((b1.sstable_id(), b2.sstable_id()), (1, 2));
    assert_eq!(b1.options(), o);
    assert_eq!(factory.open_builder().err(), Some(HummockError::MemoryLimit));
    let (ids, memory) = factory.into_parts();
    assert_eq!((ids.available(), memory.get_memory_usage()), (7, 250));
    let mut factory =
        RemoteBuilderFactory::new(SstableIdManager::new(1, 2), MemoryLimiter::new(300), o);
    assert!(factory.open_builder().is_ok());
    assert_eq!(factory.open_builder().err(), Some(HummockError::CompactionExecutor));
    let (_, memory) = factory.into_parts();
    assert_eq!(memory.get_memory_usage(), 125);
}

#[test]
fn settings_and_estimates() {
    let config = StorageConfig { sstable_size_mb: 2, block_size_kb: 3 };
    let o = config.builder_options();
    assert_eq!((o.capacity, o.block_capacity, o.restart_interval), (2 << 20, 3 << 10, 16));
    assert_eq!(o.compression_algorithm, CompressionAlgorithm::Uncompressed);
    assert_eq!(clamp_to_usize(7), 7);
    let mut m = FilterKeyExtractorManager::new();
    assert_eq!(m.estimate_bloom_filter_size(1 << 20), 0);
    m.update_bloom_filter_avg_size(100, 50);
    assert_eq!(m.avg_filter_bytes_per_kb, 0);
    m.update_bloom_filter_avg_size(4096, 400);
    assert_eq!(m.avg_filter_bytes_per_kb, 100);
    m.update_bloom_filter_avg_size(2048, 100);
    assert_eq!(m.avg_filter_bytes_per_kb, 75);
    assert_eq!(m.estimate_bloom_filter_size(10 * 1024 + 5), 750);
    assert_eq!(m.estimate_bloom_filter_size(usize::MAX), (usize::MAX / 1024) * 75);
    m.avg_filter_bytes_per_kb = usize::MAX;
    assert_eq!(m.estimate_bloom_filter_size(4096), usize::MAX);
}

#[test]
fn a_store_holds_tables_by_id() {
    let mut store = SstableStore::new();
    assert!(store.sstable(1).is_none());
    store.put(Sstable::new(1, vec![put(b"a", 1)]).unwrap());
    store.put(Sstable::new(1, vec![put(b"a", 1), put(b"b", 1)]).unwrap());
    assert_eq!(store.sstable(1).unwrap().len(), 2);
    store.delete_cache(1);
    store.delete_cache(1);
    assert!(store.sstable(1).is_none());
    let kr = KeyRange::new(b"left", b"right");
    assert_eq!((&kr.left[..], &kr.right[..], kr.inf), (&b"left"[..], &b"right"[..], false));
    assert!(KeyRange::inf().inf && KeyRange::inf().left.is_empty());
}

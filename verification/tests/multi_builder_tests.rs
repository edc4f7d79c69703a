use hummock::key::{get_epoch, key_with_epoch, user_key};
use hummock::multi_builder::{CapacitySplitTableBuilder, LocalTableBuilderFactory};
use hummock::sstable::{CachePolicy, CompressionAlgorithm, SstableBuilderOptions};
use hummock::value::HummockValue;
use itertools::Itertools;

const DEFAULT_RESTART_INTERVAL: usize = 16;

fn options(capacity: usize, block_capacity: usize) -> SstableBuilderOptions {
    SstableBuilderOptions {
        capacity,
        block_capacity,
        restart_interval: DEFAULT_RESTART_INTERVAL,
        estimate_bloom_filter_capacity: 0,
        compression_algorithm: CompressionAlgorithm::Uncompressed,
    }
}

fn default_builder_opt_for_test() -> SstableBuilderOptions {
    options(256 * (1 << 20), 64 * (1 << 10))
}

#[test]
fn test_empty() {
    let block_size = 1 << 10;
    let table_capacity = 4 * block_size;
    let factory = LocalTableBuilderFactory::new(1001, options(table_capacity, block_size));
    let builder = CapacitySplitTableBuilder::new(factory, CachePolicy::Fill);
    let results = builder.finish();
    assert!(results.is_empty());
}

#[test]
fn test_lots_of_tables() {
    let block_size = 1 << 10;
    let table_capacity = 4 * block_size;
    let factory = LocalTableBuilderFactory::new(1001, options(table_capacity, block_size));
    let mut builder = CapacitySplitTableBuilder::new(factory, CachePolicy::Fill);

    for i in 0..table_capacity {
        builder
            .add_user_key(
                b"key".to_vec(),
                HummockValue::put(b"value"),
                (table_capacity - i) as u64,
            )
            .unwrap();
    }

    let results = builder.finish();
    assert!(results.len() > 1);
    assert_eq!(results.iter().map(|p| p.id).duplicates().count(), 0);
}

#[test]
fn test_table_seal() {
    let factory = LocalTableBuilderFactory::new(1001, default_builder_opt_for_test());
    let mut builder = CapacitySplitTableBuilder::new(factory, CachePolicy::Fill);
    let mut epoch = 100;

    assert_eq!(builder.len(), 0);
    builder.seal_current();
    assert_eq!(builder.len(), 0);
    epoch -= 1;
    builder.add_user_key(b"k".to_vec(), HummockValue::put(b"v"), epoch).unwrap();
    assert_eq!(builder.len(), 1);
    epoch -= 1;
    builder.add_user_key(b"k".to_vec(), HummockValue::put(b"v"), epoch).unwrap();
    assert_eq!(builder.len(), 1);
    builder.seal_current();
    assert_eq!(builder.len(), 1);
    epoch -= 1;
    builder.add_user_key(b"k".to_vec(), HummockValue::put(b"v"), epoch).unwrap();
    assert_eq!(builder.len(), 2);
    builder.seal_current();
    assert_eq!(builder.len(), 2);
    builder.seal_current();
    assert_eq!(builder.len(), 2);

    let results = builder.finish();
    assert_eq!(results.len(), 2);
}

#[test]
fn test_initial_not_allowed_split() {
    let factory = LocalTableBuilderFactory::new(1001, default_builder_opt_for_test());
    let mut builder = CapacitySplitTableBuilder::new(factory, CachePolicy::Fill);

    builder
        .add_full_key(&key_with_epoch(b"k".to_vec(), 233), HummockValue::put(b"v"), false)
        .unwrap();
}

#[test]
fn ids_count_up_and_tables_hold_what_was_added() {
    let factory = LocalTableBuilderFactory::new(7, options(32, 16));
    let mut builder = CapacitySplitTableBuilder::new(factory, CachePolicy::NotFill);
    assert!(builder.is_empty());
    // Each entry takes 1 + 8 + 7 = 16 bytes, so a table is full after two.
    for (i, k) in [b"a", b"b", b"c", b"d", b"e"].iter().enumerate() {
        builder
            .add_user_key(k.to_vec(), HummockValue::put(b"payload"), 9 - i as u64)
            .unwrap();
    }
    assert!(!builder.is_empty());
    assert_eq!(builder.len(), 3);
    let tables = builder.finish();
    assert_eq!(tables.iter().map(|t| t.id).collect_vec(), vec![7, 8, 9]);
    assert_eq!(tables.iter().map(|t| t.data.len()).collect_vec(), vec![2, 2, 1]);
    assert_eq!(tables.iter().map(|t| t.data_len).collect_vec(), vec![32, 32, 16]);
    assert_eq!(user_key(&tables[1].data[0].key), b"c");
    assert_eq!(get_epoch(&tables[1].data[1].key), 6);
    assert_eq!(user_key(&tables[0].meta.smallest_key), b"a");
    assert_eq!(user_key(&tables[0].meta.largest_key), b"b");
    assert_eq!(tables[2].meta.key_count, 1);
    assert!(tables.iter().all(|t| t.cache_policy == CachePolicy::NotFill && t.unit_id == 0));
}

#[test]
fn a_full_table_is_not_split_where_splitting_is_not_allowed() {
    let factory = LocalTableBuilderFactory::new(1, options(16, 16));
    let mut builder = CapacitySplitTableBuilder::new(factory, CachePolicy::Fill);
    for epoch in [5u64, 4, 3] {
        builder
            .add_full_key(&key_with_epoch(b"k".to_vec(), epoch), HummockValue::put(b"1234567"), false)
            .unwrap();
    }
    assert_eq!(builder.len(), 1);
    builder
        .add_full_key(&key_with_epoch(b"l".to_vec(), 5), HummockValue::delete(), true)
        .unwrap();
    assert_eq!(builder.len(), 2);
    let tables = builder.finish();
    assert_eq!(tables[0].data.len(), 3);
    assert_eq!(tables[1].data.len(), 1);
    assert!(tables[1].data[0].value.is_delete());
}

#[test]
fn a_factory_out_of_ids_fails_the_add() {
    let factory = LocalTableBuilderFactory::new(u64::MAX, options(16, 16));
    let mut builder = CapacitySplitTableBuilder::new(factory, CachePolicy::Fill);
    let r = builder.add_user_key(b"k".to_vec(), HummockValue::put(b"v"), 1);
    assert_eq!(r, Err(hummock::error::HummockError::CompactionExecutor));
    assert!(builder.is_empty());
}

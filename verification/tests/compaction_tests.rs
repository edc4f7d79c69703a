use hummock::compactor::{estimate_memory_use_for_compaction, Compactor};
use hummock::error::HummockError;
use hummock::concat_iterator::ConcatSstableIterator;
use hummock::context::{CompactorContext, FilterKeyExtractorManager, StorageConfig};
use hummock::filter::{
    CompactionFilter, DummyCompactionFilter, MultiCompactionFilter, StateCleanUpCompactionFilter,
    TTLCompactionFilter,
};
use hummock::key::{get_epoch, key_with_epoch, user_key};
use hummock::key_range::KeyRange;
use hummock::memory::MemoryLimiter;
use hummock::multi_builder::{
    CapacitySplitTableBuilder, LocalTableBuilderFactory, SealedSstableBuilder,
};
use hummock::sstable::{CachePolicy, CompressionAlgorithm, Sstable, SstableBuilderOptions};
use hummock::sstable_id_manager::SstableIdManager;
use hummock::sstable_store::SstableStore;
use hummock::task::{
    CompactTask, Level, LevelType, SstableInfo, TableOption, TaskKeyRange,
    COMPACTION_FILTER_STATE_CLEAN, COMPACTION_FILTER_TTL,
};
use hummock::value::{Entry, HummockValue};
use std::collections::{HashMap, HashSet};
use std::sync::Arc;

fn put(key: &[u8], epoch: u64, value: &[u8]) -> Entry {
    Entry { key: key_with_epoch(key.to_vec(), epoch), value: HummockValue::put(value) }
}

fn del(key: &[u8], epoch: u64) -> Entry {
    Entry { key: key_with_epoch(key.to_vec(), epoch), value: HummockValue::delete() }
}

fn options(capacity: usize) -> SstableBuilderOptions {
    SstableBuilderOptions {
        capacity,
        block_capacity: 1 << 10,
        restart_interval: 16,
        estimate_bloom_filter_capacity: 0,
        compression_algorithm: CompressionAlgorithm::Uncompressed,
    }
}

fn scan<F: CompactionFilter>(
    entries: Vec<Entry>,
    capacity: usize,
    kr: KeyRange,
    gc_delete_keys: bool,
    watermark: u64,
    filter: F,
) -> Vec<SealedSstableBuilder> {
    let table = Sstable::new(1, entries).unwrap();
    let iter = ConcatSstableIterator::new(vec![Arc::new(table)]);
    let factory = LocalTableBuilderFactory::new(100, options(capacity));
    let mut builder = CapacitySplitTableBuilder::new(factory, CachePolicy::Fill);
    Compactor::compact_and_build_sst(&mut builder, kr, iter, gc_delete_keys, watermark, filter)
        .unwrap();
    builder.finish()
}

fn summary(tables: &[SealedSstableBuilder]) -> Vec<(Vec<u8>, u64, Option<Vec<u8>>)> {
    tables
        .iter()
        .flat_map(|t| t.data.iter())
        .map(|e| {
            let value = match &e.value {
                HummockValue::Put(v) => Some(v.clone()),
                HummockValue::Delete => None,
            };
            (user_key(&e.key).to_vec(), get_epoch(&e.key), value)
        })
        .collect()
}

fn one_key_input() -> Vec<Entry> {
    vec![put(b"a", 5, b"v"), del(b"a", 3), put(b"a", 1, b"old")]
}

#[test]
fn tombstone_collapse() {
    let out = scan(one_key_input(), 1 << 20, KeyRange::inf(), true, 4, DummyCompactionFilter);
    assert_eq!(summary(&out), vec![(b"a".to_vec(), 5, Some(b"v".to_vec()))]);
}

#[test]
fn tombstone_kept() {
    let out = scan(one_key_input(), 1 << 20, KeyRange::inf(), false, 4, DummyCompactionFilter);
    assert_eq!(
        summary(&out),
        vec![(b"a".to_vec(), 5, Some(b"v".to_vec())), (b"a".to_vec(), 3, None)]
    );
}

#[test]
fn versions_above_the_watermark_all_survive() {
    let input = vec![
        put(b"a", 9, b"9"),
        del(b"a", 8),
        put(b"a", 7, b"7"),
        put(b"a", 4, b"4"),
        put(b"a", 2, b"2"),
        put(b"b", 3, b"3"),
        put(b"b", 1, b"1"),
    ];
    let out = scan(input, 1 << 20, KeyRange::inf(), true, 5, DummyCompactionFilter);
    assert_eq!(
        summary(&out),
        vec![
            (b"a".to_vec(), 9, Some(b"9".to_vec())),
            (b"a".to_vec(), 8, None),
            (b"a".to_vec(), 7, Some(b"7".to_vec())),
            (b"a".to_vec(), 4, Some(b"4".to_vec())),
            (b"b".to_vec(), 3, Some(b"3".to_vec())),
        ]
    );
}

#[test]
fn a_version_at_the_watermark_shadows_older_ones() {
    let input = vec![put(b"a", 5, b"5"), put(b"a", 4, b"4"), put(b"a", 3, b"3")];
    let out = scan(input, 1 << 20, KeyRange::inf(), false, 5, DummyCompactionFilter);
    assert_eq!(summary(&out), vec![(b"a".to_vec(), 5, Some(b"5".to_vec()))]);
}

#[test]
fn the_scan_ends_at_the_right_end_and_starts_at_the_left() {
    let input = || vec![put(b"alpha", 10, b"1"), put(b"mango", 10, b"2"), put(b"zebra", 10, b"3")];
    let m = key_with_epoch(b"m".to_vec(), u64::MAX);
    let first = scan(input(), 1 << 20, KeyRange::new(b"", &m), false, 0, DummyCompactionFilter);
    assert_eq!(summary(&first), vec![(b"alpha".to_vec(), 10, Some(b"1".to_vec()))]);
    let second = scan(input(), 1 << 20, KeyRange::new(&m, b""), false, 0, DummyCompactionFilter);
    assert_eq!(
        summary(&second),
        vec![(b"mango".to_vec(), 10, Some(b"2".to_vec())), (b"zebra".to_vec(), 10, Some(b"3".to_vec()))]
    );
}

#[test]
fn capacity_split() {
    // 160 distinct user keys of 64 bytes each at epoch 1: about 10 KiB.
    let mut input = Vec::new();
    for i in 0..160u32 {
        let key = format!("key-{:08}", i).into_bytes();
        input.push(put(&key, 1, &[7u8; 44]));
    }
    let out = scan(input, 1 << 10, KeyRange::inf(), false, 0, DummyCompactionFilter);
    assert!(out.len() >= 2);
    assert_eq!(out.len(), 10);
    assert_eq!(summary(&out).len(), 160);
    for table in &out {
        assert_eq!(table.data_len, 1024);
        let keys: HashSet<Vec<u8>> = table.data.iter().map(|e| user_key(&e.key).to_vec()).collect();
        assert_eq!(keys.len(), table.data.len());
    }
    for pair in out.windows(2) {
        let last = user_key(&pair[0].data.last().unwrap().key).to_vec();
        let first = user_key(&pair[1].data[0].key).to_vec();
        assert!(last < first);
    }
}

#[test]
fn a_user_key_is_never_split_over_tables() {
    let mut input = Vec::new();
    for epoch in (1..=40u64).rev() {
        input.push(put(b"hot", epoch, &[0u8; 53]));
    }
    input.push(put(b"next", 1, b"x"));
    let out = scan(input, 256, KeyRange::inf(), false, 0, DummyCompactionFilter);
    assert_eq!(out.len(), 2);
    assert_eq!(out[0].data.len(), 40);
    assert_eq!(user_key(&out[1].data[0].key), b"next");
}

fn table_key(table_id: u32, suffix: &[u8]) -> Vec<u8> {
    let mut k = vec![b't'];
    k.extend_from_slice(&table_id.to_be_bytes());
    k.extend_from_slice(suffix);
    k
}

fn epoch_at(seconds: u64) -> u64 {
    (seconds * 1000) << 16
}

#[test]
fn ttl_filter() {
    let mut ttl = HashMap::new();
    ttl.insert(7u32, 60u32);
    let filter = TTLCompactionFilter::new(ttl, 1000);
    let input = vec![
        put(&table_key(7, b"fresh"), epoch_at(990) + 3, b"new"),
        put(&table_key(7, b"stale"), epoch_at(900) + 3, b"old"),
    ];
    let out = scan(input, 1 << 20, KeyRange::inf(), false, 0, filter);
    assert_eq!(summary(&out), vec![(table_key(7, b"fresh"), epoch_at(990) + 3, Some(b"new".to_vec()))]);
}

#[test]
fn ttl_filter_drops_only_what_is_older_than_the_retention() {
    let mut ttl = HashMap::new();
    ttl.insert(7u32, 60u32);
    let filter = TTLCompactionFilter::new(ttl, 1000);
    assert!(!filter.should_delete(&key_with_epoch(table_key(7, b"k"), epoch_at(940))));
    assert!(filter.should_delete(&key_with_epoch(table_key(7, b"k"), epoch_at(939))));
    assert!(!filter.should_delete(&key_with_epoch(table_key(7, b"k"), epoch_at(2000))));
    assert!(!filter.should_delete(&key_with_epoch(table_key(8, b"k"), epoch_at(1))));
    assert!(!filter.should_delete(&key_with_epoch(b"plain".to_vec(), epoch_at(1))));
}

#[test]
fn state_clean_up_filter_drops_the_keys_of_dropped_tables() {
    let filter = StateCleanUpCompactionFilter::new(HashSet::from([1u32, 3]));
    assert!(!filter.should_delete(&key_with_epoch(table_key(1, b"k"), 5)));
    assert!(filter.should_delete(&key_with_epoch(table_key(2, b"k"), 5)));
    assert!(!filter.should_delete(&key_with_epoch(b"plain".to_vec(), 5)));
    assert!(!DummyCompactionFilter.should_delete(&key_with_epoch(table_key(2, b"k"), 5)));
}

#[test]
fn a_filter_chain_gives_the_same_answer_every_time() {
    let mut chain = MultiCompactionFilter::new();
    chain.register(hummock::filter::BuiltinFilter::StateCleanUp(
        StateCleanUpCompactionFilter::new(HashSet::from([1u32])),
    ));
    let mut ttl = HashMap::new();
    ttl.insert(1u32, 10u32);
    chain.register(hummock::filter::BuiltinFilter::Ttl(TTLCompactionFilter::new(ttl, 100)));
    let keys = vec![
        key_with_epoch(table_key(1, b"a"), epoch_at(95)),
        key_with_epoch(table_key(1, b"b"), epoch_at(50)),
        key_with_epoch(table_key(2, b"c"), epoch_at(95)),
        key_with_epoch(b"plain".to_vec(), 1),
    ];
    let once: Vec<bool> = keys.iter().map(|k| chain.should_delete(k)).collect();
    let twice: Vec<bool> = keys.iter().map(|k| chain.should_delete(k)).collect();
    assert_eq!(once, vec![false, true, true, false]);
    assert_eq!(once, twice);
    let kept: Vec<&Vec<u8>> = keys.iter().filter(|k| !chain.should_delete(k)).collect();
    let kept_again: Vec<&Vec<u8>> =
        kept.iter().copied().filter(|k| !chain.should_delete(k)).collect();
    assert_eq!(kept, kept_again);
}

fn info(id: u64, file_size: u64) -> SstableInfo {
    SstableInfo { id, key_range: None, file_size, table_ids: vec![] }
}

fn task(input_ssts: Vec<Level>, splits: Vec<TaskKeyRange>) -> CompactTask {
    CompactTask {
        input_ssts,
        splits,
        watermark: 0,
        sorted_output_ssts: vec![],
        task_id: 1,
        target_level: 1,
        gc_delete_keys: false,
        task_status: false,
        compaction_group_id: 2,
        existing_table_ids: vec![],
        compression_algorithm: 0,
        target_file_size: 1 << 20,
        compaction_filter_mask: 0,
        table_options: HashMap::new(),
        current_epoch_time: 0,
    }
}

fn whole_range() -> TaskKeyRange {
    TaskKeyRange { left: vec![], right: vec![], inf: true }
}

fn context(tables: Vec<Sstable>, ids: (u64, u64), memory: u64) -> CompactorContext {
    let mut sstable_store = SstableStore::new();
    for t in tables {
        sstable_store.put(t);
    }
    CompactorContext {
        options: StorageConfig { sstable_size_mb: 256, block_size_kb: 64 },
        sstable_store,
        is_share_buffer_compact: false,
        filter_key_extractor_manager: FilterKeyExtractorManager::new(),
        memory_limiter: MemoryLimiter::new(memory),
        sstable_id_manager: SstableIdManager::new(ids.0, ids.1),
    }
}

#[test]
fn memory_estimate() {
    let levels = vec![
        Level {
            level_idx: 0,
            level_type: LevelType::Overlapping,
            table_infos: vec![info(1, 10), info(2, 20)],
        },
        Level {
            level_idx: 1,
            level_type: LevelType::Nonoverlapping,
            table_infos: vec![info(3, 100), info(4, 1000)],
        },
        Level { level_idx: 2, level_type: LevelType::Nonoverlapping, table_infos: vec![] },
    ];
    let t = task(levels, vec![whole_range(), whole_range(), whole_range()]);
    assert_eq!(estimate_memory_use_for_compaction(&t), 10 + 20 + 3 * 100);
    let huge = task(
        vec![Level {
            level_idx: 1,
            level_type: LevelType::Nonoverlapping,
            table_infos: vec![info(3, u64::MAX / 2)],
        }],
        vec![whole_range(), whole_range(), whole_range()],
    );
    assert_eq!(estimate_memory_use_for_compaction(&huge), u64::MAX);
}

#[test]
fn multi_user_key_split() {
    let table = Sstable::new(
        11,
        vec![put(b"alpha", 10, b"1"), put(b"mango", 10, b"2"), put(b"zebra", 10, b"3")],
    )
    .unwrap();
    let m = key_with_epoch(b"m".to_vec(), u64::MAX);
    let t = task(
        vec![Level {
            level_idx: 0,
            level_type: LevelType::Overlapping,
            table_infos: vec![info(11, 60)],
        }],
        vec![
            TaskKeyRange { left: vec![], right: m.clone(), inf: false },
            TaskKeyRange { left: m, right: vec![], inf: false },
        ],
    );
    let o = Compactor::compact(context(vec![table], (500, 600), 1 << 40), t);
    assert!(o.success && o.report);
    assert!(o.task.task_status);
    assert_eq!(o.need_quota, 60);
    assert_eq!(o.sealed.len(), 2);
    assert_eq!(summary(&o.sealed[..1]), vec![(b"alpha".to_vec(), 10, Some(b"1".to_vec()))]);
    assert_eq!(
        summary(&o.sealed[1..]),
        vec![(b"mango".to_vec(), 10, Some(b"2".to_vec())), (b"zebra".to_vec(), 10, Some(b"3".to_vec()))]
    );
    // One id went to the watermark; the tables got the next two.
    assert_eq!(o.sealed.iter().map(|s| s.id).collect::<Vec<_>>(), vec![501, 502]);
    assert_eq!(o.task.sorted_output_ssts.iter().map(|s| s.id).collect::<Vec<_>>(), vec![501, 502]);
    let range = o.task.sorted_output_ssts[1].key_range.as_ref().unwrap();
    assert_eq!(user_key(&range.left), b"mango");
    assert_eq!(user_key(&range.right), b"zebra");
    assert!(o.sealed.iter().all(|s| s.cache_policy == CachePolicy::NotFill));
    // The input is forgotten and the watermark released.
    assert!(o.context.sstable_store.sstable(11).is_none());
    assert_eq!(o.context.sstable_id_manager.global_watermark_sst_id(), u64::MAX);
}

#[test]
fn overlapping_tables_are_merged_in_key_order() {
    let newer = Sstable::new(1, vec![put(b"a", 7, b"a7"), del(b"c", 6)]).unwrap();
    let older =
        Sstable::new(2, vec![put(b"a", 3, b"a3"), put(b"b", 2, b"b2"), put(b"c", 1, b"c1")])
            .unwrap();
    let base = Sstable::new(3, vec![put(b"b", 1, b"b1")]).unwrap();
    let far = Sstable::new(4, vec![put(b"d", 1, b"d1")]).unwrap();
    let mut t = task(
        vec![
            Level {
                level_idx: 0,
                level_type: LevelType::Overlapping,
                table_infos: vec![info(1, 1), info(2, 1)],
            },
            Level {
                level_idx: 1,
                level_type: LevelType::Nonoverlapping,
                table_infos: vec![info(3, 1), info(4, 1)],
            },
        ],
        vec![whole_range()],
    );
    t.watermark = 6;
    t.gc_delete_keys = true;
    t.target_level = 0;
    let o = Compactor::compact(context(vec![newer, older, base, far], (1, 100), 1 << 40), t);
    assert!(o.success);
    assert_eq!(
        summary(&o.sealed),
        vec![
            (b"a".to_vec(), 7, Some(b"a7".to_vec())),
            (b"a".to_vec(), 3, Some(b"a3".to_vec())),
            (b"b".to_vec(), 2, Some(b"b2".to_vec())),
            (b"d".to_vec(), 1, Some(b"d1".to_vec())),
        ]
    );
    assert!(o.sealed.iter().all(|s| s.cache_policy == CachePolicy::Fill));
}

#[test]
fn a_task_fails_and_is_reported_when_something_is_amiss() {
    let level = || {
        vec![Level {
            level_idx: 0,
            level_type: LevelType::Overlapping,
            table_infos: vec![info(1, 1)],
        }]
    };
    let table = || Sstable::new(1, vec![put(b"a", 1, b"v")]).unwrap();
    // A mask that names a filter that does not exist.
    let mut t = task(level(), vec![whole_range()]);
    t.compaction_filter_mask = 1;
    let o = Compactor::compact(context(vec![table()], (1, 100), 1 << 40), t);
    assert!(!o.success && o.report && !o.task.task_status && o.sealed.is_empty());
    // An input table that is not at hand.
    let o = Compactor::compact(context(vec![], (1, 100), 1 << 40), task(level(), vec![whole_range()]));
    assert!(!o.success && o.report && !o.task.task_status);
    // A split whose end is no key.
    let bad = TaskKeyRange { left: b"m".to_vec(), right: vec![], inf: false };
    let o = Compactor::compact(context(vec![table()], (1, 100), 1 << 40), task(level(), vec![bad]));
    assert!(!o.success && o.report);
    // No id for the table to write: one id goes to the watermark.
    let o = Compactor::compact(context(vec![table()], (1, 2), 1 << 40), task(level(), vec![whole_range()]));
    assert!(!o.success && o.report && o.sealed.is_empty());
    // No memory for the builder.
    let o = Compactor::compact(context(vec![table()], (1, 100), 10), task(level(), vec![whole_range()]));
    assert!(!o.success && o.report && o.sealed.is_empty());
    assert_eq!(o.context.memory_limiter.get_memory_usage(), 0);
    // No id even for the watermark: the task is not started.
    let o = Compactor::compact(context(vec![table()], (1, 1), 1 << 40), task(level(), vec![whole_range()]));
    assert!(!o.success && !o.report);
    assert!(o.context.sstable_store.sstable(1).is_some());
}

#[test]
fn tables_meant_not_to_overlap_must_lie_apart() {
    let t = task(
        vec![Level {
            level_idx: 1,
            level_type: LevelType::Nonoverlapping,
            table_infos: vec![info(1, 1), info(2, 1)],
        }],
        vec![whole_range()],
    );
    let first = Sstable::new(1, vec![put(b"a", 1, b"1"), put(b"c", 1, b"3")]).unwrap();
    let second = Sstable::new(2, vec![put(b"b", 1, b"2")]).unwrap();
    let compactor = Compactor::new(context(vec![first, second], (1, 9), 1 << 40), t);
    assert_eq!(compactor.build_sst_iter().err(), Some(HummockError::Other));
    let (ctx, t) = compactor.into_parts();
    let o = Compactor::compact(ctx, t);
    assert!(!o.success && o.report && o.sealed.is_empty());
    let missing = task(
        vec![Level {
            level_idx: 1,
            level_type: LevelType::Nonoverlapping,
            table_infos: vec![info(5, 1)],
        }],
        vec![whole_range()],
    );
    let compactor = Compactor::new(context(vec![], (1, 9), 1 << 40), missing);
    assert_eq!(compactor.build_sst_iter().err(), Some(HummockError::ObjectIoError));
}

#[test]
fn one_split_can_be_compacted_on_its_own() {
    let table = Sstable::new(
        1,
        vec![put(b"a", 9, b"new"), put(b"a", 2, b"old"), del(b"b", 3), put(b"c", 1, b"1")],
    )
    .unwrap();
    let b = key_with_epoch(b"b".to_vec(), u64::MAX);
    let mut t = task(
        vec![Level {
            level_idx: 0,
            level_type: LevelType::Overlapping,
            table_infos: vec![info(1, 1)],
        }],
        vec![
            TaskKeyRange { left: vec![], right: b.clone(), inf: false },
            TaskKeyRange { left: b, right: vec![], inf: false },
        ],
    );
    t.watermark = 5;
    t.gc_delete_keys = true;
    t.target_level = 0;
    t.compression_algorithm = 7;
    let mut compactor = Compactor::new(context(vec![table], (40, 50), 1 << 40), t);
    assert_eq!(compactor.task().splits.len(), 2);
    let options = compactor.builder_options();
    assert_eq!(options.capacity, 1 << 20);
    assert_eq!(options.estimate_bloom_filter_capacity, 1 << 10);
    assert_eq!(options.compression_algorithm, CompressionAlgorithm::Zstd);
    let iter = compactor.build_sst_iter().unwrap();
    let ((split_index, ssts), sealed) = compactor.compact_key_range(1, iter).unwrap();
    assert_eq!(split_index, 1);
    assert_eq!(summary(&sealed), vec![(b"c".to_vec(), 1, Some(b"1".to_vec()))]);
    assert_eq!((ssts.len(), ssts[0].id, ssts[0].file_size), (1, 40, 10));
    assert_eq!(sealed[0].cache_policy, CachePolicy::Fill);
    let iter = compactor.build_sst_iter().unwrap();
    let keep_all = StateCleanUpCompactionFilter::new(HashSet::new());
    let ((split_index, ssts), sealed) =
        compactor.compact_key_range_with_filter(0, iter, keep_all).unwrap();
    assert_eq!(split_index, 0);
    assert_eq!(
        summary(&sealed),
        vec![(b"a".to_vec(), 9, Some(b"new".to_vec())), (b"a".to_vec(), 2, Some(b"old".to_vec()))]
    );
    assert_eq!(ssts[0].id, 41);
    let (ctx, _) = compactor.into_parts();
    assert_eq!(ctx.sstable_id_manager.available(), 8);
}

#[test]
fn a_failed_split_does_not_stop_the_others() {
    let table = Sstable::new(
        1,
        vec![put(b"a", 1, b"1"), put(b"m", 1, b"2"), put(b"z", 1, b"3")],
    )
    .unwrap();
    let m = key_with_epoch(b"m".to_vec(), u64::MAX);
    let z = key_with_epoch(b"z".to_vec(), u64::MAX);
    let t = task(
        vec![Level {
            level_idx: 0,
            level_type: LevelType::Overlapping,
            table_infos: vec![info(1, 1)],
        }],
        vec![
            TaskKeyRange { left: vec![], right: m.clone(), inf: false },
            TaskKeyRange { left: b"bad".to_vec(), right: z.clone(), inf: false },
            TaskKeyRange { left: z, right: vec![], inf: false },
        ],
    );
    let o = Compactor::compact(context(vec![table], (10, 20), 1 << 40), t);
    assert!(!o.success && o.report && !o.task.task_status);
    assert_eq!(
        summary(&o.sealed),
        vec![(b"a".to_vec(), 1, Some(b"1".to_vec())), (b"z".to_vec(), 1, Some(b"3".to_vec()))]
    );
    assert_eq!(o.sealed.iter().map(|s| s.id).collect::<Vec<_>>(), vec![11, 12]);
    assert_eq!(o.context.sstable_id_manager.available(), 7);
    // The memory of the tables that wait to be stored stays reserved.
    let quota = o.sealed[0].tracker.quota();
    assert_eq!(o.context.memory_limiter.get_memory_usage(), 2 * quota);
    assert_eq!(quota, (1 << 20) + (64 << 10) + 1024);
}

#[test]
fn the_filters_of_a_task_follow_its_mask() {
    let table = Sstable::new(
        1,
        vec![
            put(&table_key(1, b"k"), epoch_at(995), b"live"),
            put(&table_key(1, b"l"), epoch_at(10), b"expired"),
            put(&table_key(2, b"k"), epoch_at(995), b"dropped table"),
        ],
    )
    .unwrap();
    let mut t = task(
        vec![Level {
            level_idx: 0,
            level_type: LevelType::Overlapping,
            table_infos: vec![info(1, 1)],
        }],
        vec![whole_range()],
    );
    t.compaction_filter_mask = COMPACTION_FILTER_STATE_CLEAN | COMPACTION_FILTER_TTL;
    t.existing_table_ids = vec![1];
    t.table_options = HashMap::from([
        (1, TableOption { retention_seconds: Some(60) }),
        (2, TableOption { retention_seconds: None }),
    ]);
    t.current_epoch_time = 1000;
    let o = Compactor::compact(context(vec![table], (1, 100), 1 << 40), t);
    assert!(o.success);
    assert_eq!(
        summary(&o.sealed),
        vec![(table_key(1, b"k"), epoch_at(995), Some(b"live".to_vec()))]
    );
    assert_eq!(o.sealed[0].table_ids, vec![1]);
}

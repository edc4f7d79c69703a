//! The compactor worker: it merges the input tables of a task, applies the
//! retention rules and cuts the result into new tables.

use crate::buffer::bytes_as_slice;
use crate::concat_iterator::{can_concat, spec_tables_wf, ConcatSstableIterator};
use crate::context::{clamp_to_usize, CompactorContext};
use crate::error::{HummockError, HummockResult};
use crate::filter::{CompactionFilter, DummyCompactionFilter};
use crate::iterator::{spec_full_keys, HummockIterator};
use crate::key::is_full_key;
use crate::key_range::KeyRange;
use crate::memory::{MemoryLimiter, MemoryTracker};
use crate::merge_iterator::{spec_iters_wf, UnorderedMergeIteratorInner};
use crate::multi_builder::{
    lemma_add_all_stays_failed, lemma_ids_after_add, spec_add_all, spec_ids_after_opens,
    spec_opens_table, spec_tables, CapacitySplitTableBuilder, SealedSstableBuilder,
    TableBuilderFactory, TablesModel,
};
use crate::retention::{
    lemma_added_after_stop, lemma_added_prefix, spec_action_at, spec_added, spec_rule,
    spec_state_after, KeyAction, ScanState,
};
use crate::split_output::{spec_scan_input, spec_split_output};
use crate::sstable::{
    CachePolicy, CompressionAlgorithm, Sstable, SstableBuilder, SstableBuilderOptions,
    DEFAULT_ENTRY_SIZE,
};
use crate::sstable_id_manager::{spec_without_tracker, SstableIdManager, Watermark};
use crate::task::{CompactTask, Level, LevelType, SstableInfo};
use crate::task_filter::{build_multi_compaction_filter, spec_mask_valid, spec_task_deletes};
use crate::task_input::{
    evict_inputs, lemma_first_error_stays, lemma_scan_input_is_task_input, level_tables,
    spec_first_error, spec_input_ids, spec_input_runs, spec_iter_tables,
};
use crate::task_model::{
    spec_builder_quota, spec_cache_policy, spec_opens, spec_resources_after,
    spec_resources_before, spec_resources_of, spec_setting_of, spec_split_ok, spec_split_runs,
    spec_task_options, spec_task_rule, spec_task_succeeds, spec_task_tables, spec_task_written,
    SplitResources, TaskSetting,
};
use crate::task_output::{
    lemma_all_ssts_first, spec_all_ssts, spec_info_of, spec_same_task, sst_info, CompactOutput,
};
use crate::value::EntryView;
use bytes::Bytes;
use std::sync::Arc;
use vstd::prelude::*;

verus! {

/// Opens builders with fresh table ids, reserving memory for each.
pub struct RemoteBuilderFactory {
    sstable_id_manager: SstableIdManager,
    limiter: MemoryLimiter,
    options: SstableBuilderOptions,
}

impl RemoteBuilderFactory {
    /// The fresh ids the factory draws on.
    pub closed spec fn ids(&self) -> SstableIdManager {
        self.sstable_id_manager
    }

    /// The memory quota the factory draws on.
    pub closed spec fn memory(&self) -> MemoryLimiter {
        self.limiter
    }

    /// The settings of every builder the factory opens.
    pub closed spec fn spec_options(&self) -> SstableBuilderOptions {
        self.options
    }

    /// A factory that draws on the given ids and memory.
    pub fn new(
        sstable_id_manager: SstableIdManager,
        limiter: MemoryLimiter,
        options: SstableBuilderOptions,
    ) -> (f: Self)
        ensures
            f.ids() == sstable_id_manager,
            f.memory() == limiter,
            f.spec_options() == options,
    {
        RemoteBuilderFactory { sstable_id_manager, limiter, options }
    }

    /// Gives back the ids and the memory quota.
    pub fn into_parts(self) -> (parts: (SstableIdManager, MemoryLimiter))
        ensures
            parts.0 == self.ids(),
            parts.1 == self.memory(),
    {
        (self.sstable_id_manager, self.limiter)
    }
}

impl TableBuilderFactory for RemoteBuilderFactory {
    open spec fn wf(&self) -> bool {
        self.ids().wf() && self.memory().wf()
    }

    open spec fn remaining_opens(&self) -> nat {
        spec_opens(
            self.ids().spec_available(),
            self.memory().spec_available(),
            spec_builder_quota(self.spec_options()),
        )
    }

    open spec fn capacity(&self) -> usize {
        self.spec_options().capacity
    }

    open spec fn open_error(&self) -> HummockError {
        if spec_builder_quota(self.spec_options()) > self.memory().spec_available() {
            HummockError::MemoryLimit
        } else {
            HummockError::CompactionExecutor
        }
    }

    open spec fn id_after(&self, n: nat) -> u64 {
        (self.ids().spec_next_id() + n) as u64
    }

    open spec fn follows(&self, before: Self) -> bool {
        &&& self.spec_options() == before.spec_options()
        &&& self.memory().spec_total() == before.memory().spec_total()
        &&& self.memory().spec_used() == before.memory().spec_used() + spec_builder_quota(
            before.spec_options(),
        ) * (self.ids().spec_next_id() - before.ids().spec_next_id())
        &&& self.ids().spec_end_id() == before.ids().spec_end_id()
        &&& self.ids().spec_next_id() >= before.ids().spec_next_id()
        &&& self.ids().spec_watermarks() == before.ids().spec_watermarks()
        &&& self.ids().spec_next_tracker_id() == before.ids().spec_next_tracker_id()
    }

    proof fn lemma_follows_itself(&self) {
    }

    proof fn lemma_follows_chain(&self, middle: Self, before: Self) {
        let quota = spec_builder_quota(before.spec_options()) as int;
        let a = middle.ids().spec_next_id() - before.ids().spec_next_id();
        let b = self.ids().spec_next_id() - middle.ids().spec_next_id();
        assert(quota * (a + b) == quota * a + quota * b) by (nonlinear_arith);
    }

    fn open_builder(&mut self) -> (r: HummockResult<(MemoryTracker, SstableBuilder)>) {
        let quota = (self.options.capacity as u64).saturating_add(
            self.options.block_capacity as u64,
        ).saturating_add(self.options.estimate_bloom_filter_capacity as u64);
        let left = self.limiter.get_memory_left();
        let fresh = self.sstable_id_manager.available();
        let ghost memory = left as int;
        proof {
            if quota > 0 && memory >= quota {
                assert((memory - quota) / (quota as int) == memory / (quota as int) - 1)
                    by (nonlinear_arith)
                    requires
                        quota > 0,
                        memory >= quota,
                ;
                assert(memory / (quota as int) >= 1) by (nonlinear_arith)
                    requires
                        quota > 0,
                        memory >= quota,
                ;
            }
            if quota > 0 && memory < quota {
                assert(memory / (quota as int) == 0) by (nonlinear_arith)
                    requires
                        quota > 0,
                        0 <= memory < quota,
                ;
            }
        }
        if fresh == 0 && quota <= left {
            assert(quota as int * 0 == 0);
            return Err(HummockError::CompactionExecutor);
        }
        match self.limiter.require_memory(quota) {
            None => {
                assert(quota as int * 0 == 0);
                Err(HummockError::MemoryLimit)
            },
            Some(tracker) => {
                match self.sstable_id_manager.get_new_sst_id() {
                    Ok(id) => {
                        assert(quota as int * 1 == quota as int);
                        Ok((tracker, SstableBuilder::new(id, self.options)))
                    },
                    Err(e) => Err(e),
                }
            },
        }
    }
}

/// Number of tables that were opened when the tables `written` were left
/// by a split that started with the ids and the memory of `context`.
pub open spec fn spec_opened(
    context: CompactorContext,
    options: SstableBuilderOptions,
    written: TablesModel,
) -> int {
    spec_opens(
        context.sstable_id_manager.spec_available(),
        context.memory_limiter.spec_available(),
        spec_builder_quota(options),
    ) - written.remaining
}

/// The sizes of the tables, added up.
pub open spec fn spec_sum_file_sizes(infos: Seq<SstableInfo>) -> int
    decreases infos.len(),
{
    if infos.len() == 0 {
        0
    } else {
        spec_sum_file_sizes(infos.drop_last()) + infos.last().file_size
    }
}

/// The memory that merging a level takes: for tables that do not overlap,
/// the first table once for every split; else all tables.
pub open spec fn spec_level_memory(level: Level, splits: int) -> int {
    if level.level_type == LevelType::Nonoverlapping {
        if level.table_infos@.len() > 0 {
            level.table_infos@[0].file_size * splits
        } else {
            0
        }
    } else {
        spec_sum_file_sizes(level.table_infos@)
    }
}

/// The memory that merging the levels takes.
pub open spec fn spec_levels_memory(levels: Seq<Level>, splits: int) -> int
    decreases levels.len(),
{
    if levels.len() == 0 {
        0
    } else {
        spec_levels_memory(levels.drop_last(), splits) + spec_level_memory(levels.last(), splits)
    }
}

/// The sum of table sizes is not negative.
pub proof fn lemma_sum_file_sizes_nonnegative(infos: Seq<SstableInfo>)
    ensures
        spec_sum_file_sizes(infos) >= 0,
    decreases infos.len(),
{
    if infos.len() > 0 {
        lemma_sum_file_sizes_nonnegative(infos.drop_last());
    }
}

/// The memory that merging the levels takes is not negative.
pub proof fn lemma_levels_memory_nonnegative(levels: Seq<Level>, splits: int)
    requires
        splits >= 0,
    ensures
        spec_levels_memory(levels, splits) >= 0,
    decreases levels.len(),
{
    if levels.len() > 0 {
        lemma_levels_memory_nonnegative(levels.drop_last(), splits);
        lemma_sum_file_sizes_nonnegative(levels.last().table_infos@);
        let level = levels.last();
        if level.level_type == LevelType::Nonoverlapping && level.table_infos@.len() > 0 {
            assert(level.table_infos@[0].file_size * splits >= 0) by (nonlinear_arith)
                requires
                    level.table_infos@[0].file_size >= 0,
                    splits >= 0,
            ;
        }
    }
}

/// The memory that the merge of a task's input is expected to take, capped
/// at the largest `u64`: for a level whose tables do not overlap, the size
/// of its first table once for every split; for any other level, the sizes
/// of all its tables.
pub fn estimate_memory_use_for_compaction(task: &CompactTask) -> (total: u64)
    ensures
        total == ({
            let exact = spec_levels_memory(task.input_ssts@, task.splits@.len() as int);
            if exact > u64::MAX {
                u64::MAX as int
            } else {
                exact
            }
        }),
{
    let splits = task.splits.len() as u64;
    let ghost levels = task.input_ssts@;
    let mut total: u64 = 0;
    let mut i: usize = 0;
    assert(levels.subrange(0, 0) =~= Seq::<Level>::empty());
    while i < task.input_ssts.len()
        invariant
            i <= task.input_ssts@.len(),
            levels == task.input_ssts@,
            splits == task.splits@.len(),
            spec_levels_memory(levels.subrange(0, i as int), splits as int) >= 0,
            total == ({
                let exact = spec_levels_memory(levels.subrange(0, i as int), splits as int);
                if exact > u64::MAX {
                    u64::MAX as int
                } else {
                    exact
                }
            }),
        decreases task.input_ssts@.len() - i,
    {
        let level = &task.input_ssts[i];
        proof {
            assert(levels.subrange(0, i + 1).drop_last() =~= levels.subrange(0, i as int));
            lemma_levels_memory_nonnegative(levels.subrange(0, i + 1), splits as int);
            lemma_sum_file_sizes_nonnegative(level.table_infos@);
        }
        let mut level_memory: u64 = 0;
        if level.level_type == LevelType::Nonoverlapping {
            if level.table_infos.len() > 0 {
                level_memory = match level.table_infos[0].file_size.checked_mul(splits) {
                    Some(m) => m,
                    None => u64::MAX,
                };
            }
        } else {
            let ghost infos = level.table_infos@;
            let mut k: usize = 0;
            assert(infos.subrange(0, 0) =~= Seq::<SstableInfo>::empty());
            while k < level.table_infos.len()
                invariant
                    k <= level.table_infos@.len(),
                    infos == level.table_infos@,
                    spec_sum_file_sizes(infos.subrange(0, k as int)) >= 0,
                    level_memory == ({
                        let exact = spec_sum_file_sizes(infos.subrange(0, k as int));
                        if exact > u64::MAX {
                            u64::MAX as int
                        } else {
                            exact
                        }
                    }),
                decreases level.table_infos@.len() - k,
            {
                proof {
                    assert(infos.subrange(0, k + 1).drop_last() =~= infos.subrange(0, k as int));
                }
                level_memory = level_memory.saturating_add(level.table_infos[k].file_size);
                k += 1;
            }
            assert(infos.subrange(0, k as int) =~= infos);
        }
        total = total.saturating_add(level_memory);
        i += 1;
    }
    assert(levels.subrange(0, i as int) =~= levels);
    total
}

/// What compacting split `i` with the task's filters means for the task as
/// a whole: the split hands back the tables, and leaves the resources, that
/// the task's rules say.
pub proof fn lemma_split_of_task<F: CompactionFilter>(
    setting: TaskSetting,
    resources: SplitResources,
    before: Compactor,
    after: Compactor,
    split_index: usize,
    it: UnorderedMergeIteratorInner<ConcatSstableIterator>,
    filter: F,
    r: HummockResult<(CompactOutput, Vec<SealedSstableBuilder>)>,
)
    requires
        split_index < before.spec_task().splits@.len(),
        setting == spec_setting_of(before.spec_context(), before.spec_task()),
        resources == spec_resources_of(before.spec_context()),
        before.wf(),
        spec_first_error(setting.task.input_ssts@, setting.store) is None,
        spec_iter_tables(it.iters()) == spec_input_runs(setting.task.input_ssts@, setting.store),
        forall|key: Seq<u8>| #[trigger] filter.deletes(key) == spec_task_deletes(setting.task, key),
        Compactor::spec_split_compacted(before, after, split_index, it, filter, r),
    ensures
        setting == spec_setting_of(after.spec_context(), after.spec_task()),
        spec_resources_of(after.spec_context()) == spec_resources_after(
            setting,
            resources,
            split_index as int,
        ),
        r is Ok <==> spec_split_runs(setting, split_index as int) && spec_task_written(
            setting,
            resources,
            split_index as int,
        ).1,
        r matches Ok(out) ==> out.1@.map_values(|s: SealedSstableBuilder| s@) == spec_tables(
            spec_task_written(setting, resources, split_index as int).0,
        ),
{
    let task = setting.task;
    let i = split_index as int;
    let split = task.splits@[i];
    lemma_scan_input_is_task_input(it, split.left@, task.input_ssts@, setting.store);
    let rule = spec_rule(split.right@, task.gc_delete_keys, task.watermark, filter);
    assert(rule.deletes =~= spec_task_rule(task, i).deletes);
    assert(rule =~= spec_task_rule(task, i));
}

/// What a compactor hands back after a task.
pub struct CompactionOutcome {
    /// Whether every split was compacted.
    pub success: bool,
    /// Whether the manager is to be told of the task. It is not when the
    /// task could not even be started.
    pub report: bool,
    /// The task, with its status and its output filled in if it is to be
    /// reported.
    pub task: CompactTask,
    /// The context the compactor worked with.
    pub context: CompactorContext,
    /// The tables written, ordered by split and then by key; they wait to
    /// be stored.
    pub sealed: Vec<SealedSstableBuilder>,
    /// The memory that merging the input was expected to take.
    pub need_quota: u64,
}

/// Implementation of compaction.
pub struct Compactor {
    /// What the compactor works with.
    context: CompactorContext,
    /// The task at hand.
    compact_task: CompactTask,
}

impl Compactor {
    /// What the compactor works with.
    pub closed spec fn spec_context(&self) -> CompactorContext {
        self.context
    }

    /// The task at hand.
    pub closed spec fn spec_task(&self) -> CompactTask {
        self.compact_task
    }

    /// The context is in a usable state.
    pub open spec fn wf(&self) -> bool {
        self.spec_context().wf()
    }

    /// A compactor for one task.
    pub fn new(context: CompactorContext, compact_task: CompactTask) -> (c: Self)
        ensures
            c.spec_context() == context,
            c.spec_task() == compact_task,
    {
        Compactor { context, compact_task }
    }

    /// Gives back the context and the task.
    pub fn into_parts(self) -> (parts: (CompactorContext, CompactTask))
        ensures
            parts.0 == self.spec_context(),
            parts.1 == self.spec_task(),
    {
        (self.context, self.compact_task)
    }

    /// The task at hand.
    pub fn task(&self) -> (t: &CompactTask)
        ensures
            *t == self.spec_task(),
    {
        &self.compact_task
    }

    /// What compacting a split does: the task and the tables at hand stay
    /// as they are; the split fails with `Other` if one of its ends is
    /// neither empty nor a full key, and otherwise succeeds exactly if every
    /// table it needs can be opened; it fails with `MemoryLimit` if the
    /// memory does not cover another builder, and with `CompactionExecutor`
    /// if the memory would but no id is left; on success the sealed tables are the
    /// tables that the retention rules and the capacity cut from the input,
    /// with the next fresh ids in turn, each with what the manager is told
    /// of it.
    pub open spec fn spec_split_compacted<I: HummockIterator, F: CompactionFilter>(
        before: Compactor,
        after: Compactor,
        split_index: usize,
        iter: I,
        compaction_filter: F,
        r: HummockResult<(CompactOutput, Vec<SealedSstableBuilder>)>,
    ) -> bool {
        let task = before.spec_task();
        let context = before.spec_context();
        let split = task.splits@[split_index as int];
        let options = spec_task_options(context.options, context.filter_key_extractor_manager, task);
        let rule = spec_rule(
            split.right@,
            task.gc_delete_keys,
            task.watermark,
            compaction_filter,
        );
        let written = spec_split_output(
            rule,
            spec_scan_input(iter, split.left@),
            options.capacity,
            spec_opens(
                context.sstable_id_manager.spec_available(),
                context.memory_limiter.spec_available(),
                spec_builder_quota(options),
            ),
        );
        &&& after.wf()
        &&& after.spec_task() == task
        &&& after.spec_context().options == context.options
        &&& after.spec_context().sstable_store == context.sstable_store
        &&& after.spec_context().filter_key_extractor_manager
            == context.filter_key_extractor_manager
        &&& after.spec_context().is_share_buffer_compact == context.is_share_buffer_compact
        &&& after.spec_context().sstable_id_manager.spec_watermarks()
            == context.sstable_id_manager.spec_watermarks()
        &&& after.spec_context().sstable_id_manager.spec_next_tracker_id()
            == context.sstable_id_manager.spec_next_tracker_id()
        &&& after.spec_context().sstable_id_manager.spec_end_id()
            == context.sstable_id_manager.spec_end_id()
        &&& after.spec_context().memory_limiter.spec_total() == context.memory_limiter.spec_total()
        &&& spec_split_ok(split) ==> spec_opened(context, options, written.0) >= 0
        &&& spec_split_ok(split) ==> after.spec_context().sstable_id_manager.spec_next_id()
            == context.sstable_id_manager.spec_next_id() + spec_opened(
            context,
            options,
            written.0,
        ) && after.spec_context().memory_limiter.spec_used() == context.memory_limiter.spec_used()
            + if written.1 {
            spec_builder_quota(options) * spec_opened(context, options, written.0)
        } else {
            0
        }
        &&& !spec_split_ok(split) ==> r == Err::<(CompactOutput, Vec<SealedSstableBuilder>), _>(
            HummockError::Other,
        ) && after.spec_context() == context
        &&& spec_split_ok(split) ==> (r is Ok <==> written.1)
        &&& spec_split_ok(split) ==> (r matches Err(e) ==> e == if spec_builder_quota(options)
            > context.memory_limiter.spec_available() - spec_builder_quota(options) * spec_opened(
            context,
            options,
            written.0,
        ) {
            HummockError::MemoryLimit
        } else {
            HummockError::CompactionExecutor
        })
        &&& r matches Ok(out) ==> {
            &&& out.0.0 == split_index
            &&& out.1@.map_values(|s: SealedSstableBuilder| s@) == spec_tables(written.0)
            &&& out.0.1@.len() == out.1@.len()
            &&& after.spec_context().sstable_id_manager.spec_next_id()
                == context.sstable_id_manager.spec_next_id() + out.1@.len()
            &&& forall|i: int|
                0 <= i < out.1@.len() ==> (#[trigger] out.1@[i]).wf() && out.1@[i].cache_policy
                    == spec_cache_policy(task.target_level) && spec_info_of(
                    out.0.1@[i],
                    out.1@[i],
                ) && out.1@[i].id == context.sstable_id_manager.spec_next_id() + i
        }
    }

    /// The settings of the builders of the task at hand.
    pub fn builder_options(&self) -> (o: SstableBuilderOptions)
        ensures
            o == spec_task_options(
                self.spec_context().options,
                self.spec_context().filter_key_extractor_manager,
                self.spec_task(),
            ),
    {
        let mut options = self.context.options.builder_options();
        let target = clamp_to_usize(self.compact_task.target_file_size);
        if target < options.capacity {
            options.capacity = target;
        }
        options.compression_algorithm = if self.compact_task.compression_algorithm == 0 {
            CompressionAlgorithm::Uncompressed
        } else if self.compact_task.compression_algorithm == 1 {
            CompressionAlgorithm::Lz4
        } else {
            CompressionAlgorithm::Zstd
        };
        options.estimate_bloom_filter_capacity =
            self.context.filter_key_extractor_manager.estimate_bloom_filter_size(options.capacity);
        if options.estimate_bloom_filter_capacity == 0 {
            options.estimate_bloom_filter_capacity = options.capacity / DEFAULT_ENTRY_SIZE;
        }
        options
    }

    /// Compacts one split: scans the entries of `iter` in the split's key
    /// range, applies the retention rules and the filter, and cuts what
    /// survives into tables with fresh ids.
    ///
    /// On success the sealed tables come back with what the manager is told
    /// of each. The split fails if one of its ends is neither empty nor a
    /// full key, or if a table cannot be opened for want of ids or memory;
    /// the memory of the tables built so far is then released.
    pub fn compact_key_range_impl<I: HummockIterator, F: CompactionFilter>(
        &mut self,
        split_index: usize,
        iter: I,
        compaction_filter: F,
    ) -> (r: HummockResult<(CompactOutput, Vec<SealedSstableBuilder>)>)
        requires
            old(self).wf(),
            split_index < old(self).spec_task().splits@.len(),
            iter.wf(),
        ensures
            Compactor::spec_split_compacted(
                *old(self),
                *final(self),
                split_index,
                iter,
                compaction_filter,
                r,
            ),
    {
        let left_len = self.compact_task.splits[split_index].left.len();
        let right_len = self.compact_task.splits[split_index].right.len();
        if (0 < left_len && left_len < 8) || (0 < right_len && right_len < 8) {
            return Err(HummockError::Other);
        }
        let kr = KeyRange {
            left: Bytes::copy_from_slice(self.compact_task.splits[split_index].left.as_slice()),
            right: Bytes::copy_from_slice(self.compact_task.splits[split_index].right.as_slice()),
            inf: self.compact_task.splits[split_index].inf,
        };
        let cache_policy = if self.compact_task.target_level == 0 {
            CachePolicy::Fill
        } else {
            CachePolicy::NotFill
        };
        let options = self.builder_options();
        let used_before = self.context.memory_limiter.get_memory_usage();
        let mut ids = SstableIdManager::new(0, 0);
        let mut limiter = MemoryLimiter::new(0);
        core::mem::swap(&mut self.context.sstable_id_manager, &mut ids);
        core::mem::swap(&mut self.context.memory_limiter, &mut limiter);
        let builder_factory = RemoteBuilderFactory::new(ids, limiter, options);
        let ghost factory0 = builder_factory;
        let mut builder = CapacitySplitTableBuilder::new(builder_factory, cache_policy);
        let built = Compactor::compact_and_build_sst(
            &mut builder,
            kr,
            iter,
            self.compact_task.gc_delete_keys,
            self.compact_task.watermark,
            compaction_filter,
        );
        let ghost opened = factory0.remaining_opens() - builder.model().remaining;
        let ghost first_id = old(self).context.sstable_id_manager.spec_next_id();
        let (sealed, builder_factory) = builder.finish_with_factory();
        let (mut ids, mut limiter) = builder_factory.into_parts();
        proof {
            let f = |s: SealedSstableBuilder| s.id;
            assert(sealed@.map_values(f).len() == sealed@.len());
            assert(opened == sealed@.len());
            assert(builder_factory.id_after(0) == first_id + opened);
            assert forall|i: int| 0 <= i < sealed@.len() implies (#[trigger] sealed@[i]).id
                == first_id + i by {
                assert(sealed@.map_values(f)[i] == sealed@[i].id);
            }
        }
        match built {
            Err(e) => {
                limiter.release_to(used_before);
                core::mem::swap(&mut self.context.sstable_id_manager, &mut ids);
                core::mem::swap(&mut self.context.memory_limiter, &mut limiter);
                Err(e)
            },
            Ok(()) => {
                core::mem::swap(&mut self.context.sstable_id_manager, &mut ids);
                core::mem::swap(&mut self.context.memory_limiter, &mut limiter);
                let mut ssts: Vec<SstableInfo> = Vec::new();
                let mut i: usize = 0;
                while i < sealed.len()
                    invariant
                        i <= sealed@.len(),
                        ssts@.len() == i,
                        forall|k: int| 0 <= k < i ==> spec_info_of(#[trigger] ssts@[k], sealed@[k]),
                    decreases sealed@.len() - i,
                {
                    ssts.push(sst_info(&sealed[i]));
                    i += 1;
                }
                Ok(((split_index, ssts), sealed))
            },
        }
    }

    /// Compacts one split without a filter.
    pub fn compact_key_range<I: HummockIterator>(&mut self, split_index: usize, iter: I) -> (r:
        HummockResult<(CompactOutput, Vec<SealedSstableBuilder>)>)
        requires
            old(self).wf(),
            split_index < old(self).spec_task().splits@.len(),
            iter.wf(),
        ensures
            Compactor::spec_split_compacted(
                *old(self),
                *final(self),
                split_index,
                iter,
                DummyCompactionFilter,
                r,
            ),
    {
        self.compact_key_range_impl(split_index, iter, DummyCompactionFilter {  })
    }

    /// Compacts one split with a filter.
    pub fn compact_key_range_with_filter<I: HummockIterator, F: CompactionFilter>(
        &mut self,
        split_index: usize,
        iter: I,
        compaction_filter: F,
    ) -> (r: HummockResult<(CompactOutput, Vec<SealedSstableBuilder>)>)
        requires
            old(self).wf(),
            split_index < old(self).spec_task().splits@.len(),
            iter.wf(),
        ensures
            Compactor::spec_split_compacted(
                *old(self),
                *final(self),
                split_index,
                iter,
                compaction_filter,
                r,
            ),
    {
        self.compact_key_range_impl(split_index, iter, compaction_filter)
    }

    /// Builds the merging iterator over the input tables of the task: one
    /// sorted run for each level whose tables do not overlap, and one for
    /// each table of any other level. Fails with `ObjectIoError` if a table
    /// is not at hand, and with `Other` if the tables of a level that are
    /// meant not to overlap do not lie apart in key order.
    pub fn build_sst_iter(&self) -> (r: HummockResult<
        UnorderedMergeIteratorInner<ConcatSstableIterator>,
    >)
        requires
            self.wf(),
        ensures
            r is Ok <==> spec_first_error(
                self.spec_task().input_ssts@,
                self.spec_context().sstable_store@,
            ) is None,
            r matches Err(e) ==> spec_first_error(
                self.spec_task().input_ssts@,
                self.spec_context().sstable_store@,
            ) == Some(e),
            r matches Ok(it) ==> it.wf() && spec_iter_tables(it.iters()) == spec_input_runs(
                self.spec_task().input_ssts@,
                self.spec_context().sstable_store@,
            ),
    {
        let ghost store = self.context.sstable_store@;
        let ghost levels = self.compact_task.input_ssts@;
        let mut table_iters: Vec<ConcatSstableIterator> = Vec::new();
        let mut i: usize = 0;
        assert(levels.subrange(0, 0) =~= Seq::<Level>::empty());
        assert(spec_iter_tables(table_iters@) =~= Seq::<Seq<Arc<Sstable>>>::empty());
        while i < self.compact_task.input_ssts.len()
            invariant
                self.wf(),
                i <= self.compact_task.input_ssts@.len(),
                store == self.context.sstable_store@,
                levels == self.compact_task.input_ssts@,
                spec_first_error(levels.subrange(0, i as int), store) is None,
                spec_iters_wf(table_iters@),
                spec_iter_tables(table_iters@) == spec_input_runs(
                    levels.subrange(0, i as int),
                    store,
                ),
            decreases self.compact_task.input_ssts@.len() - i,
        {
            let level = &self.compact_task.input_ssts[i];
            proof {
                assert(levels.subrange(0, i + 1).drop_last() =~= levels.subrange(0, i as int));
            }
            let ghost before = spec_iter_tables(table_iters@);
            let tables = match level_tables(&self.context.sstable_store, level) {
                Ok(tables) => tables,
                Err(e) => {
                    proof {
                        lemma_first_error_stays(levels, store, i + 1);
                    }
                    return Err(e);
                },
            };
            if level.level_type == LevelType::Nonoverlapping && !can_concat(&tables) {
                proof {
                    lemma_first_error_stays(levels, store, i + 1);
                }
                return Err(HummockError::Other);
            }
            if tables.len() > 0 {
                if level.level_type == LevelType::Nonoverlapping {
                    let ghost run = tables@;
                    table_iters.push(ConcatSstableIterator::new(tables));
                    assert(spec_iter_tables(table_iters@) =~= before + seq![run]);
                } else {
                    let mut k: usize = 0;
                    let ghost singles = tables@.map_values(|t: Arc<Sstable>| seq![t]);
                    assert(singles.subrange(0, 0) =~= Seq::<Seq<Arc<Sstable>>>::empty());
                    assert(before + singles.subrange(0, 0) =~= before);
                    while k < tables.len()
                        invariant
                            k <= tables@.len(),
                            spec_tables_wf(tables@),
                            singles == tables@.map_values(|t: Arc<Sstable>| seq![t]),
                            spec_iters_wf(table_iters@),
                            spec_iter_tables(table_iters@) == before + singles.subrange(
                                0,
                                k as int,
                            ),
                        decreases tables@.len() - k,
                    {
                        let ghost so_far = spec_iter_tables(table_iters@);
                        let mut single: Vec<Arc<Sstable>> = Vec::new();
                        single.push(tables[k].clone());
                        assert(single@ =~= seq![tables@[k as int]]);
                        table_iters.push(ConcatSstableIterator::new(single));
                        assert(spec_iter_tables(table_iters@) =~= so_far + seq![singles[k as int]]);
                        assert(singles.subrange(0, k + 1) =~= singles.subrange(0, k as int)
                            + seq![singles[k as int]]);
                        k += 1;
                    }
                    assert(singles.subrange(0, k as int) =~= singles);
                }
            } else {
                assert(before + Seq::<Seq<Arc<Sstable>>>::empty() =~= before);
            }
            i += 1;
        }
        assert(levels.subrange(0, i as int) =~= levels);
        Ok(UnorderedMergeIteratorInner::new(table_iters))
    }

    /// Records the outcome in the task: its status, and the tables of the
    /// outputs in the order given.
    pub fn compact_done(&mut self, output_ssts: Vec<CompactOutput>, task_ok: bool)
        ensures
            final(self).spec_context() == old(self).spec_context(),
            final(self).spec_task().task_status == task_ok,
            final(self).spec_task().sorted_output_ssts@ == old(
                self,
            ).spec_task().sorted_output_ssts@ + spec_all_ssts(output_ssts@),
            spec_same_task(old(self).spec_task(), final(self).spec_task()),
    {
        self.compact_task.task_status = task_ok;
        let mut rest = output_ssts;
        let ghost start = self.compact_task.sorted_output_ssts@;
        assert(start + spec_all_ssts(output_ssts@) =~= (start + Seq::<SstableInfo>::empty())
            + spec_all_ssts(rest@));
        let ghost mut done: Seq<SstableInfo> = Seq::empty();
        while rest.len() > 0
            invariant
                self.context == old(self).context,
                self.compact_task.task_status == task_ok,
                spec_same_task(old(self).compact_task, self.compact_task),
                self.compact_task.sorted_output_ssts@ == start + done,
                start + spec_all_ssts(output_ssts@) == (start + done) + spec_all_ssts(rest@),
            decreases rest@.len(),
        {
            proof {
                lemma_all_ssts_first(rest@);
            }
            let ghost rest_before = rest@;
            let (_, mut ssts) = rest.remove(0);
            let ghost moved = ssts@;
            self.compact_task.sorted_output_ssts.append(&mut ssts);
            proof {
                assert(rest@ =~= rest_before.skip(1));
                assert((start + done) + spec_all_ssts(rest_before) =~= (start + (done + moved))
                    + spec_all_ssts(rest@));
                assert(start + done + moved =~= start + (done + moved));
                done = done + moved;
            }
        }
        proof {
            assert(spec_all_ssts(rest@) =~= Seq::<SstableInfo>::empty());
            assert((start + done) + Seq::<SstableInfo>::empty() =~= start + done);
        }
    }

    /// Handles a compaction task: registers a watermark for the tables it
    /// is about to write, builds the filters the task asks for, compacts the
    /// splits one after the other, records the outcome in the task, forgets
    /// the input tables and releases the watermark.
    ///
    /// A split that fails does not stop the others; the task then counts as
    /// failed, and what the other splits wrote is still handed back. If no
    /// watermark can be registered the task is not started and nothing is
    /// to be reported.
    pub fn compact(context: CompactorContext, compact_task: CompactTask) -> (o: CompactionOutcome)
        requires
            context.wf(),
            compact_task.splits@.len() > 0,
            compact_task.input_ssts@.len() > 0,
        ensures
            o.context.wf(),
            o.context.options == context.options,
            o.context.is_share_buffer_compact == context.is_share_buffer_compact,
            o.context.filter_key_extractor_manager == context.filter_key_extractor_manager,
            spec_same_task(compact_task, o.task),
            o.report <==> context.sstable_id_manager.spec_available() > 0,
            !o.report ==> !o.success && o.task == compact_task && o.sealed@.len() == 0
                && o.context == context && o.need_quota == 0,
            o.report ==> {
                let setting = spec_setting_of(context, compact_task);
                let start = SplitResources {
                    next_id: context.sstable_id_manager.spec_next_id() + 1,
                    memory_used: context.memory_limiter.spec_used() as int,
                };
                let splits = if spec_mask_valid(compact_task.compaction_filter_mask) {
                    compact_task.splits@.len() as int
                } else {
                    0
                };
                &&& o.task.task_status == o.success
                &&& o.success <==> spec_mask_valid(compact_task.compaction_filter_mask)
                    && spec_task_succeeds(setting, start, splits)
                &&& o.sealed@.map_values(|s: SealedSstableBuilder| s@) == spec_task_tables(
                    setting,
                    start,
                    splits,
                )
                &&& spec_resources_of(o.context) == spec_resources_before(setting, start, splits)
                &&& o.context.sstable_id_manager.spec_end_id()
                    == context.sstable_id_manager.spec_end_id()
                &&& o.context.memory_limiter.spec_total() == context.memory_limiter.spec_total()
                &&& o.task.sorted_output_ssts@.len() == compact_task.sorted_output_ssts@.len()
                    + o.sealed@.len()
                &&& o.task.sorted_output_ssts@.subrange(
                    0,
                    compact_task.sorted_output_ssts@.len() as int,
                ) == compact_task.sorted_output_ssts@
                &&& forall|i: int|
                    0 <= i < o.sealed@.len() ==> (#[trigger] o.sealed@[i]).wf()
                        && o.sealed@[i].cache_policy == spec_cache_policy(
                        compact_task.target_level,
                    ) && spec_info_of(
                        o.task.sorted_output_ssts@[compact_task.sorted_output_ssts@.len() + i],
                        o.sealed@[i],
                    )
                &&& forall|i: int|
                    0 <= i < o.sealed@.len() ==> context.sstable_id_manager.spec_next_id() < (
                    #[trigger] o.sealed@[i]).id < o.context.sstable_id_manager.spec_next_id()
                &&& forall|i: int, j: int|
                    0 <= i < j < o.sealed@.len() ==> (#[trigger] o.sealed@[i]).id < (
                    #[trigger] o.sealed@[j]).id
                &&& o.context.sstable_store@ == context.sstable_store@.remove_keys(
                    spec_input_ids(compact_task.input_ssts@),
                )
                &&& o.context.sstable_id_manager.spec_watermarks() == spec_without_tracker(
                    context.sstable_id_manager.spec_watermarks().push(
                        Watermark {
                            tracker_id: context.sstable_id_manager.spec_next_tracker_id(),
                            sst_id: context.sstable_id_manager.spec_next_id(),
                        },
                    ),
                    context.sstable_id_manager.spec_next_tracker_id(),
                )
                &&& o.need_quota == ({
                    let exact = spec_levels_memory(
                        compact_task.input_ssts@,
                        compact_task.splits@.len() as int,
                    );
                    if exact > u64::MAX {
                        u64::MAX as int
                    } else {
                        exact
                    }
                })
            },
    {
        let mut ctx = context;
        let tracker_id = match ctx.sstable_id_manager.add_watermark_sst_id(None) {
            Ok(tracker_id) => tracker_id,
            Err(_) => {
                return CompactionOutcome {
                    success: false,
                    report: false,
                    task: compact_task,
                    context: ctx,
                    sealed: Vec::new(),
                    need_quota: 0,
                };
            },
        };
        let need_quota = estimate_memory_use_for_compaction(&compact_task);
        let parallelism = compact_task.splits.len();
        let ghost task0 = compact_task;
        let ghost store0 = ctx.sstable_store@;
        let ghost marks = ctx.sstable_id_manager.spec_watermarks();
        let mut compact_success = true;
        let mut output_ssts: Vec<CompactOutput> = Vec::new();
        let mut sealed: Vec<SealedSstableBuilder> = Vec::new();
        let ghost setting = spec_setting_of(ctx, compact_task);
        let ghost start = spec_resources_of(ctx);
        let mut compactor = Compactor::new(ctx, compact_task);
        assert(spec_all_ssts(output_ssts@) =~= Seq::<SstableInfo>::empty());
        assert(setting == spec_setting_of(context, compact_task));
        assert(sealed@.map_values(|s: SealedSstableBuilder| s@) =~= spec_task_tables(
            setting,
            start,
            0,
        ));
        match build_multi_compaction_filter(&compactor.compact_task) {
            Err(_) => {
                compact_success = false;
            },
            Ok(multi_filter) => {
                let mut split_index: usize = 0;
                while split_index < parallelism
                    invariant
                        split_index <= parallelism,
                        parallelism == task0.splits@.len(),
                        compactor.wf(),
                        compactor.spec_task() == task0,
                        compactor.spec_context().options == context.options,
                        compactor.spec_context().is_share_buffer_compact
                            == context.is_share_buffer_compact,
                        compactor.spec_context().filter_key_extractor_manager
                            == context.filter_key_extractor_manager,
                        compactor.spec_context().sstable_store@ == store0,
                        compactor.spec_context().sstable_id_manager.spec_watermarks() == marks,
                        context.sstable_id_manager.spec_next_id()
                            < compactor.spec_context().sstable_id_manager.spec_next_id(),
                        forall|i: int|
                            0 <= i < sealed@.len() ==> context.sstable_id_manager.spec_next_id() < (
                            #[trigger] sealed@[i]).id
                                < compactor.spec_context().sstable_id_manager.spec_next_id(),
                        forall|i: int, j: int|
                            0 <= i < j < sealed@.len() ==> (#[trigger] sealed@[i]).id < (
                            #[trigger] sealed@[j]).id,
                        forall|key: Seq<u8>| #[trigger]
                            multi_filter.deletes(key) == spec_task_deletes(task0, key),
                        spec_setting_of(compactor.spec_context(), compactor.spec_task())
                            == setting,
                        spec_resources_of(compactor.spec_context()) == spec_resources_before(
                            setting,
                            start,
                            split_index as int,
                        ),
                        sealed@.map_values(|s: SealedSstableBuilder| s@) == spec_task_tables(
                            setting,
                            start,
                            split_index as int,
                        ),
                        compact_success == spec_task_succeeds(setting, start, split_index as int),
                        spec_all_ssts(output_ssts@).len() == sealed@.len(),
                        forall|i: int|
                            0 <= i < sealed@.len() ==> (#[trigger] sealed@[i]).wf()
                                && sealed@[i].cache_policy == spec_cache_policy(
                                task0.target_level,
                            ) && spec_info_of(spec_all_ssts(output_ssts@)[i], sealed@[i]),
                    decreases parallelism - split_index,
                {
                    let ghost before = compactor;
                    let ghost resources = spec_resources_of(compactor.spec_context());
                    let ghost views_before = sealed@.map_values(|s: SealedSstableBuilder| s@);
                    match compactor.build_sst_iter() {
                        Err(_) => {
                            compact_success = false;
                            assert(views_before + Seq::<Seq<EntryView>>::empty() =~= views_before);
                        },
                        Ok(merge_iter) => {
                            let split = compactor.compact_key_range_with_filter(
                                split_index,
                                merge_iter,
                                &multi_filter,
                            );
                            proof {
                                assert forall|key: Seq<u8>| #[trigger]
                                    (&multi_filter).deletes(key) == spec_task_deletes(
                                        task0,
                                        key,
                                    ) by {
                                    assert(multi_filter.deletes(key) == spec_task_deletes(
                                        task0,
                                        key,
                                    ));
                                }
                                lemma_split_of_task(
                                    setting,
                                    resources,
                                    before,
                                    compactor,
                                    split_index,
                                    merge_iter,
                                    &multi_filter,
                                    split,
                                );
                                if split is Err {
                                    assert(views_before + Seq::<Seq<EntryView>>::empty()
                                        =~= views_before);
                                }
                            }
                            match split {
                                Ok((output, mut tables)) => {
                                    let ghost infos_before = spec_all_ssts(output_ssts@);
                                    let ghost outputs_before = output_ssts@;
                                    let ghost sealed_before = sealed@;
                                    let ghost added = tables@;
                                    output_ssts.push(output);
                                    sealed.append(&mut tables);
                                    proof {
                                        assert(sealed@.map_values(|s: SealedSstableBuilder| s@)
                                            =~= views_before + added.map_values(
                                            |s: SealedSstableBuilder| s@,
                                        ));
                                        assert(output_ssts@.drop_last() =~= outputs_before);
                                        let infos = spec_all_ssts(output_ssts@);
                                        assert(infos =~= infos_before + output.1@);
                                        assert forall|i: int|
                                            0 <= i < sealed@.len() implies (
                                        #[trigger] sealed@[i]).wf() && sealed@[i].cache_policy
                                            == spec_cache_policy(task0.target_level)
                                            && spec_info_of(infos[i], sealed@[i]) by {
                                            if i < sealed_before.len() {
                                                assert(sealed@[i] == sealed_before[i]);
                                            } else {
                                                assert(sealed@[i] == added[i
                                                    - sealed_before.len()]);
                                            }
                                        }
                                    }
                                },
                                Err(_) => {
                                    compact_success = false;
                                },
                            }
                        },
                    }
                    split_index += 1;
                }
            },
        }
        let ghost infos = spec_all_ssts(output_ssts@);
        compactor.compact_done(output_ssts, compact_success);
        let (mut ctx, compact_task) = compactor.into_parts();
        evict_inputs(&mut ctx.sstable_store, &compact_task.input_ssts);
        ctx.sstable_id_manager.remove_watermark_sst_id(tracker_id);
        proof {
            let start = task0.sorted_output_ssts@;
            assert(compact_task.sorted_output_ssts@.subrange(0, start.len() as int) =~= start);
        }
        CompactionOutcome {
            success: compact_success,
            report: true,
            task: compact_task,
            context: ctx,
            sealed,
            need_quota,
        }
    }

    /// Scans the entries of `iter` that lie in the key range `kr`, applies
    /// the retention rules and the filter, and hands what survives to
    /// `sst_builder`, allowing a new table only at a new user key.
    ///
    /// Fails, with the factory's error, as soon as the builder cannot open
    /// a table it needs; what was written before stays written.
    pub fn compact_and_build_sst<T: TableBuilderFactory, I: HummockIterator, F: CompactionFilter>(
        sst_builder: &mut CapacitySplitTableBuilder<T>,
        kr: KeyRange,
        iter: I,
        gc_delete_keys: bool,
        watermark: u64,
        compaction_filter: F,
    ) -> (r: HummockResult<()>)
        requires
            old(sst_builder).wf(),
            iter.wf(),
            kr.spec_left().len() == 0 || is_full_key(kr.spec_left()),
            kr.spec_right().len() == 0 || is_full_key(kr.spec_right()),
        ensures
            final(sst_builder).wf(),
            final(sst_builder).factory().capacity() == old(sst_builder).factory().capacity(),
            final(sst_builder).factory().follows(old(sst_builder).factory()),
            final(sst_builder).policy() == old(sst_builder).policy(),
            spec_ids_after_opens(
                old(sst_builder).table_ids(),
                old(sst_builder).factory(),
                final(sst_builder).table_ids(),
                final(sst_builder).factory(),
                old(sst_builder).model().remaining - final(sst_builder).model().remaining,
            ),
            ({
                let input = spec_scan_input(iter, kr.spec_left());
                let rule = spec_rule(
                    kr.spec_right(),
                    gc_delete_keys,
                    watermark,
                    compaction_filter,
                );
                let written = spec_add_all(
                    old(sst_builder).model(),
                    old(sst_builder).factory().capacity(),
                    spec_added(rule, input, input.len() as int),
                );
                &&& final(sst_builder).model() == written.0
                &&& r is Ok <==> written.1
                &&& r is Err ==> r == Err::<(), _>(final(sst_builder).factory().open_error())
            }),
    {
        let mut it = iter;
        proof {
            iter.lemma_full_keys();
        }
        let ghost input = spec_scan_input(iter, kr.spec_left());
        let ghost rule = spec_rule(
            kr.spec_right(),
            gc_delete_keys,
            watermark,
            compaction_filter,
        );
        let ghost m0 = old(sst_builder).model();
        let ghost capacity = old(sst_builder).factory().capacity();
        proof {
            sst_builder.factory().lemma_follows_itself();
            assert(sst_builder.table_ids() =~= sst_builder.table_ids() + Seq::new(
                0,
                |i: int| sst_builder.factory().id_after(i as nat),
            ));
        }
        if !kr.left.is_empty() {
            it.seek(bytes_as_slice(&kr.left));
        } else {
            it.rewind();
        }
        let right = bytes_as_slice(&kr.right);
        let mut state = ScanState::new();
        let mut running = true;
        let ghost mut n: int = 0;
        assert(input.skip(0) =~= input);
        while running && it.is_valid()
            invariant
                it.wf(),
                input == spec_scan_input(iter, kr.spec_left()),
                rule == spec_rule(
                    kr.spec_right(),
                    gc_delete_keys,
                    watermark,
                    compaction_filter,
                ),
                m0 == old(sst_builder).model(),
                capacity == old(sst_builder).factory().capacity(),
                sst_builder.wf(),
                spec_full_keys(input),
                0 <= n <= input.len(),
                it.remaining() == input.skip(n),
                right@ == rule.right,
                right@.len() == 0 || is_full_key(right@),
                state@ == spec_state_after(rule, input, n),
                state@.last_key.len() == 0 || is_full_key(state@.last_key),
                !running ==> n < input.len() && spec_action_at(rule, input, n) == KeyAction::Stop,
                sst_builder.factory().capacity() == capacity,
                sst_builder.factory().follows(old(sst_builder).factory()),
                sst_builder.policy() == old(sst_builder).policy(),
                spec_ids_after_opens(
                    old(sst_builder).table_ids(),
                    old(sst_builder).factory(),
                    sst_builder.table_ids(),
                    sst_builder.factory(),
                    m0.remaining - sst_builder.model().remaining,
                ),
                spec_add_all(m0, capacity, spec_added(rule, input, n)) == (
                    sst_builder.model(),
                    true,
                ),
            decreases input.len() - n, running as int,
        {
            assert(it.remaining()[0] == input[n]);
            let action = state.observe(
                right,
                gc_delete_keys,
                watermark,
                &compaction_filter,
                it.key(),
                it.value().is_delete(),
            );
            match action {
                KeyAction::Stop => {
                    running = false;
                },
                KeyAction::Skip => {
                    it.next();
                    proof {
                        assert(input.skip(n).skip(1) =~= input.skip(n + 1));
                        n = n + 1;
                    }
                },
                KeyAction::Add { allow_split } => {
                    let ghost before = spec_added(rule, input, n);
                    let ghost factory_before = sst_builder.factory();
                    let ghost ids_before = sst_builder.table_ids();
                    let ghost model_before = sst_builder.model();
                    let added = sst_builder.add_full_key(
                        it.key(),
                        it.value().clone(),
                        allow_split,
                    );
                    proof {
                        sst_builder.factory().lemma_follows_chain(
                            factory_before,
                            old(sst_builder).factory(),
                        );
                        lemma_ids_after_add(
                            old(sst_builder).table_ids(),
                            old(sst_builder).factory(),
                            ids_before,
                            factory_before,
                            m0.remaining - model_before.remaining,
                            sst_builder.table_ids(),
                            sst_builder.factory(),
                            spec_opens_table(model_before, capacity, allow_split),
                        );
                        let after = spec_added(rule, input, n + 1);
                        assert(after == before.push((input[n], allow_split)));
                        assert(after.drop_last() =~= before);
                    }
                    if let Err(e) = added {
                        proof {
                            let all = spec_added(rule, input, input.len() as int);
                            lemma_added_prefix(rule, input, n + 1, input.len() as int);
                            lemma_add_all_stays_failed(
                                m0,
                                capacity,
                                all,
                                spec_added(rule, input, n + 1).len() as int,
                            );
                        }
                        return Err(e);
                    }
                    it.next();
                    proof {
                        assert(input.skip(n).skip(1) =~= input.skip(n + 1));
                        n = n + 1;
                    }
                },
            }
        }
        proof {
            if n < input.len() {
                lemma_added_after_stop(rule, input, n, input.len() as int);
            }
        }
        Ok(())
    }
}

} // verus!

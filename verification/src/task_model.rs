//! A task as plain data: what its splits read and write, and the ids and
//! the memory they take.

use crate::context::{
    spec_clamp, spec_estimate_bloom_filter_size, spec_options_of, CompactorContext,
    FilterKeyExtractorManager, StorageConfig,
};
use crate::key::is_full_key;
use crate::multi_builder::{spec_tables, TablesModel};
use crate::retention::RetentionRule;
use crate::split_output::spec_split_output;
use crate::sstable::{
    CachePolicy, CompressionAlgorithm, Sstable, SstableBuilderOptions, DEFAULT_ENTRY_SIZE,
};
use crate::task::{CompactTask, TaskKeyRange};
use crate::task_filter::spec_task_deletes;
use crate::task_input::{spec_first_error, spec_task_input};
use crate::value::EntryView;
use std::sync::Arc;
use vstd::prelude::*;

verus! {

/// The memory that one open builder takes: its table, one block and its
/// bloom filter; capped at the largest `u64`.
pub open spec fn spec_builder_quota(options: SstableBuilderOptions) -> u64 {
    let sum = options.capacity + options.block_capacity + options.estimate_bloom_filter_capacity;
    if sum > u64::MAX {
        u64::MAX
    } else {
        sum as u64
    }
}

/// How many builders can be opened with `ids` fresh ids and `memory`
/// bytes, if each takes `quota` bytes.
pub open spec fn spec_opens(ids: nat, memory: int, quota: u64) -> nat {
    if quota == 0 {
        ids
    } else {
        let by_memory = (memory / quota as int) as nat;
        if by_memory < ids {
            by_memory
        } else {
            ids
        }
    }
}

/// The compression that a task's code asks for.
pub open spec fn spec_compression(code: u32) -> CompressionAlgorithm {
    if code == 0 {
        CompressionAlgorithm::Uncompressed
    } else if code == 1 {
        CompressionAlgorithm::Lz4
    } else {
        CompressionAlgorithm::Zstd
    }
}

/// Whether the output of a task fills the block cache: only output for
/// the first level does.
pub open spec fn spec_cache_policy(target_level: u32) -> CachePolicy {
    if target_level == 0 {
        CachePolicy::Fill
    } else {
        CachePolicy::NotFill
    }
}

/// The settings of the builders of a task: the capacity is the task's
/// target size, capped by the engine's largest table size; the bloom filter
/// size is the running average's estimate, or one byte per entry of the default size
/// if there is no estimate.
pub open spec fn spec_task_options(
    config: StorageConfig,
    manager: FilterKeyExtractorManager,
    task: CompactTask,
) -> SstableBuilderOptions {
    let base = spec_options_of(config);
    let target = spec_clamp(task.target_file_size as int);
    let capacity = if target < base.capacity {
        target
    } else {
        base.capacity
    };
    let estimate = spec_estimate_bloom_filter_size(manager.avg_filter_bytes_per_kb, capacity);
    SstableBuilderOptions {
        capacity,
        block_capacity: base.block_capacity,
        restart_interval: base.restart_interval,
        estimate_bloom_filter_capacity: if estimate == 0 {
            (capacity / DEFAULT_ENTRY_SIZE) as usize
        } else {
            estimate
        },
        compression_algorithm: spec_compression(task.compression_algorithm),
    }
}

/// Whether the ends of a split can be compared with keys: each is empty
/// or a full key.
pub open spec fn spec_split_ok(split: TaskKeyRange) -> bool {
    &&& split.left@.len() == 0 || is_full_key(split.left@)
    &&& split.right@.len() == 0 || is_full_key(split.right@)
}

/// What the splits of a task work with and do not change.
pub struct TaskSetting {
    /// The task.
    pub task: CompactTask,
    /// The settings of the builders.
    pub options: SstableBuilderOptions,
    /// The tables at hand.
    pub store: Map<u64, Arc<Sstable>>,
    /// The end of the range of fresh ids.
    pub end_id: int,
    /// The memory quota.
    pub memory_total: int,
}

/// What a split uses up.
pub struct SplitResources {
    /// The next fresh id.
    pub next_id: int,
    /// The memory reserved.
    pub memory_used: int,
}

/// The rules of the scan of split `i`.
pub open spec fn spec_task_rule(task: CompactTask, i: int) -> RetentionRule {
    RetentionRule {
        right: task.splits@[i].right@,
        gc_delete_keys: task.gc_delete_keys,
        watermark: task.watermark,
        deletes: |key: Seq<u8>| spec_task_deletes(task, key),
    }
}

/// How many builders split `i` can open with the resources it finds.
pub open spec fn spec_task_opens(setting: TaskSetting, resources: SplitResources) -> nat {
    spec_opens(
        if setting.end_id >= resources.next_id {
            (setting.end_id - resources.next_id) as nat
        } else {
            0
        },
        setting.memory_total - resources.memory_used,
        spec_builder_quota(setting.options),
    )
}

/// What split `i` leaves in its builder with the resources it finds, and
/// whether it could write every entry.
pub open spec fn spec_task_written(setting: TaskSetting, resources: SplitResources, i: int) -> (
    TablesModel,
    bool,
) {
    spec_split_output(
        spec_task_rule(setting.task, i),
        spec_task_input(setting.task.input_ssts@, setting.store, setting.task.splits@[i].left@),
        setting.options.capacity,
        spec_task_opens(setting, resources),
    )
}

/// Whether split `i` gets as far as scanning: nothing is amiss with the
/// input, and the ends of the split are keys.
pub open spec fn spec_split_runs(setting: TaskSetting, i: int) -> bool {
    spec_first_error(setting.task.input_ssts@, setting.store) is None && spec_split_ok(
        setting.task.splits@[i],
    )
}

/// The resources that split `i` leaves: every table it opened took an id;
/// the memory of its tables stays reserved if it succeeded and is given
/// back if it failed.
pub open spec fn spec_resources_after(setting: TaskSetting, resources: SplitResources, i: int)
    -> SplitResources {
    if !spec_split_runs(setting, i) {
        resources
    } else {
        let written = spec_task_written(setting, resources, i);
        let opened = spec_task_opens(setting, resources) - written.0.remaining;
        SplitResources {
            next_id: resources.next_id + opened,
            memory_used: resources.memory_used + if written.1 {
                spec_builder_quota(setting.options) * opened
            } else {
                0
            },
        }
    }
}

/// The resources that the first `n` splits leave.
pub open spec fn spec_resources_before(setting: TaskSetting, start: SplitResources, n: int)
    -> SplitResources
    decreases n,
{
    if n <= 0 {
        start
    } else {
        spec_resources_after(setting, spec_resources_before(setting, start, n - 1), n - 1)
    }
}

/// The tables that split `i` hands back: those it wrote if it succeeded,
/// none if it failed.
pub open spec fn spec_split_tables(setting: TaskSetting, start: SplitResources, i: int) -> Option<
    Seq<Seq<EntryView>>,
> {
    let written = spec_task_written(setting, spec_resources_before(setting, start, i), i);
    if spec_split_runs(setting, i) && written.1 {
        Some(spec_tables(written.0))
    } else {
        None
    }
}

/// The tables that the first `n` splits hand back, split by split.
pub open spec fn spec_task_tables(setting: TaskSetting, start: SplitResources, n: int) -> Seq<
    Seq<EntryView>,
>
    decreases n,
{
    if n <= 0 {
        Seq::empty()
    } else {
        spec_task_tables(setting, start, n - 1) + match spec_split_tables(setting, start, n - 1) {
            Some(tables) => tables,
            None => Seq::empty(),
        }
    }
}

/// Whether each of the first `n` splits succeeds.
pub open spec fn spec_task_succeeds(setting: TaskSetting, start: SplitResources, n: int) -> bool
    decreases n,
{
    n <= 0 || (spec_task_succeeds(setting, start, n - 1) && spec_split_tables(setting, start, n - 1)
        is Some)
}

/// What the splits of a task work with, as the task finds it.
pub open spec fn spec_setting_of(context: CompactorContext, task: CompactTask) -> TaskSetting {
    TaskSetting {
        task,
        options: spec_task_options(context.options, context.filter_key_extractor_manager, task),
        store: context.sstable_store@,
        end_id: context.sstable_id_manager.spec_end_id() as int,
        memory_total: context.memory_limiter.spec_total() as int,
    }
}

/// The resources of a context.
pub open spec fn spec_resources_of(context: CompactorContext) -> SplitResources {
    SplitResources {
        next_id: context.sstable_id_manager.spec_next_id() as int,
        memory_used: context.memory_limiter.spec_used() as int,
    }
}

} // verus!

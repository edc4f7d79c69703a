//! Compaction tasks and the table metadata they carry.

use std::collections::HashMap;
use vstd::prelude::*;

verus! {

/// Bit of the filter mask that asks for the state clean-up filter.
pub const COMPACTION_FILTER_STATE_CLEAN: u32 = 2;

/// Bit of the filter mask that asks for the retention filter.
pub const COMPACTION_FILTER_TTL: u32 = 4;

/// A range of keys as a task carries it.
#[derive(Debug)]
pub struct TaskKeyRange {
    /// The first key of the range; empty for no lower end.
    pub left: Vec<u8>,
    /// The first key after the range; empty for no upper end.
    pub right: Vec<u8>,
    /// Whether the range is marked as unbounded.
    pub inf: bool,
}

/// What the manager knows of a stored table.
#[derive(Debug)]
pub struct SstableInfo {
    /// The id of the table.
    pub id: u64,
    /// The smallest and the largest key of the table.
    pub key_range: Option<TaskKeyRange>,
    /// Size of the table in bytes.
    pub file_size: u64,
    /// The ids of the tables whose keys it holds.
    pub table_ids: Vec<u32>,
}

/// Whether the tables of a level may cover the same keys.
#[derive(Clone, Copy, Debug, PartialEq, Eq, Structural)]
pub enum LevelType {
    Overlapping,
    Nonoverlapping,
}

/// The tables of one level.
#[derive(Debug)]
pub struct Level {
    /// Position of the level in its group.
    pub level_idx: u32,
    /// Whether its tables may overlap.
    pub level_type: LevelType,
    /// Its tables; in key order if they do not overlap.
    pub table_infos: Vec<SstableInfo>,
}

/// Options of one table.
#[derive(Clone, Copy, Debug, PartialEq, Eq, Structural)]
pub struct TableOption {
    /// Seconds after which a version of a key expires, if configured.
    pub retention_seconds: Option<u32>,
}

/// A unit of compaction work issued by the manager.
#[derive(Debug)]
pub struct CompactTask {
    /// The levels to merge.
    pub input_ssts: Vec<Level>,
    /// The key ranges to process independently of each other, in key order.
    pub splits: Vec<TaskKeyRange>,
    /// Epochs at or below it collapse.
    pub watermark: u64,
    /// The tables written, ordered by split and then by key.
    pub sorted_output_ssts: Vec<SstableInfo>,
    /// The id of the task.
    pub task_id: u64,
    /// The level that receives the output.
    pub target_level: u32,
    /// Whether tombstones at or below the watermark are dropped.
    pub gc_delete_keys: bool,
    /// Whether the task succeeded.
    pub task_status: bool,
    /// The group of tables the task belongs to.
    pub compaction_group_id: u64,
    /// The ids of the tables that still exist.
    pub existing_table_ids: Vec<u32>,
    /// Compression of the output: 0 for none, 1 for LZ4, anything else
    /// for Zstandard.
    pub compression_algorithm: u32,
    /// Size in bytes at which an output table is full.
    pub target_file_size: u64,
    /// The filters to apply, as a set of bits.
    pub compaction_filter_mask: u32,
    /// The options of the tables, by table id.
    pub table_options: HashMap<u32, TableOption>,
    /// The second against which retention is measured.
    pub current_epoch_time: u64,
}

} // verus!

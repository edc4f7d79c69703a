//! What a compactor works with: its settings, the tables at hand, and the
//! resources it draws on.

use crate::memory::MemoryLimiter;
use crate::sstable::{CompressionAlgorithm, SstableBuilderOptions};
use crate::sstable_id_manager::SstableIdManager;
use crate::sstable_store::SstableStore;
use vstd::prelude::*;

verus! {

/// Number of keys between two restart points of a block.
pub const DEFAULT_RESTART_INTERVAL: usize = 16;

/// Settings of the storage engine.
#[derive(Clone, Copy, Debug, PartialEq, Eq, Structural)]
pub struct StorageConfig {
    /// Largest size of a table, in MiB.
    pub sstable_size_mb: u32,
    /// Size of a block, in KiB.
    pub block_size_kb: u32,
}

/// The smaller of `x` and the largest `usize`.
pub open spec fn spec_clamp(x: int) -> usize {
    if x > usize::MAX {
        usize::MAX
    } else {
        x as usize
    }
}

/// The smaller of `x` and the largest `usize`.
pub fn clamp_to_usize(x: u64) -> (r: usize)
    ensures
        r == spec_clamp(x as int),
{
    if x > usize::MAX as u64 {
        usize::MAX
    } else {
        x as usize
    }
}

/// The builder settings that follow from the engine's settings.
pub open spec fn spec_options_of(config: StorageConfig) -> SstableBuilderOptions {
    SstableBuilderOptions {
        capacity: spec_clamp(config.sstable_size_mb * 0x10_0000),
        block_capacity: spec_clamp(config.block_size_kb * 0x400),
        restart_interval: DEFAULT_RESTART_INTERVAL,
        estimate_bloom_filter_capacity: 0,
        compression_algorithm: CompressionAlgorithm::Uncompressed,
    }
}

impl StorageConfig {
    /// The builder settings that follow from the engine's settings.
    pub fn builder_options(&self) -> (o: SstableBuilderOptions)
        ensures
            o == spec_options_of(*self),
    {
        SstableBuilderOptions {
            capacity: clamp_to_usize(self.sstable_size_mb as u64 * 0x10_0000),
            block_capacity: clamp_to_usize(self.block_size_kb as u64 * 0x400),
            restart_interval: DEFAULT_RESTART_INTERVAL,
            estimate_bloom_filter_capacity: 0,
            compression_algorithm: CompressionAlgorithm::Uncompressed,
        }
    }
}

/// Keeps a running average of how many bytes of bloom filter a KiB of
/// table takes.
#[derive(Clone, Copy, Debug, PartialEq, Eq, Structural)]
pub struct FilterKeyExtractorManager {
    /// Bytes of bloom filter per KiB of table; zero before the first sample.
    pub avg_filter_bytes_per_kb: usize,
}

/// The bloom filter size expected for a table of `sst_size` bytes.
pub open spec fn spec_estimate_bloom_filter_size(avg: usize, sst_size: usize) -> usize {
    spec_clamp((sst_size / 1024) * avg)
}

/// The average after a table of `sst_size` bytes took `bloom_filter_size`
/// bytes of bloom filter: tables under one KiB do not count, the first
/// sample is taken as it is, and later ones weigh as much as all before.
pub open spec fn spec_updated_avg(avg: usize, sst_size: usize, bloom_filter_size: usize)
    -> usize {
    if sst_size / 1024 == 0 {
        avg
    } else if avg == 0 {
        (bloom_filter_size / (sst_size / 1024)) as usize
    } else {
        (avg / 2 + bloom_filter_size / (sst_size / 1024) / 2) as usize
    }
}

impl FilterKeyExtractorManager {
    /// A manager without samples.
    pub fn new() -> (m: Self)
        ensures
            m.avg_filter_bytes_per_kb == 0,
    {
        FilterKeyExtractorManager { avg_filter_bytes_per_kb: 0 }
    }

    /// The bloom filter size expected for a table of `sst_size` bytes;
    /// zero before the first sample.
    pub fn estimate_bloom_filter_size(&self, sst_size: usize) -> (n: usize)
        ensures
            n == spec_estimate_bloom_filter_size(self.avg_filter_bytes_per_kb, sst_size),
    {
        match (sst_size / 1024).checked_mul(self.avg_filter_bytes_per_kb) {
            Some(n) => n,
            None => usize::MAX,
        }
    }

    /// Takes the bloom filter size of a finished table into the average.
    pub fn update_bloom_filter_avg_size(&mut self, sst_size: usize, bloom_filter_size: usize)
        ensures
            final(self).avg_filter_bytes_per_kb == spec_updated_avg(
                old(self).avg_filter_bytes_per_kb,
                sst_size,
                bloom_filter_size,
            ),
    {
        let kb = sst_size / 1024;
        if kb > 0 {
            let sample = bloom_filter_size / kb;
            if self.avg_filter_bytes_per_kb == 0 {
                self.avg_filter_bytes_per_kb = sample;
            } else {
                self.avg_filter_bytes_per_kb = self.avg_filter_bytes_per_kb / 2 + sample / 2;
            }
        }
    }
}

/// What a compactor works with.
pub struct CompactorContext {
    /// The settings of the engine.
    pub options: StorageConfig,
    /// The tables at hand.
    pub sstable_store: SstableStore,
    /// Whether the compactor writes out the shared buffer rather than
    /// merging stored tables.
    pub is_share_buffer_compact: bool,
    /// The running average of bloom filter sizes.
    pub filter_key_extractor_manager: FilterKeyExtractorManager,
    /// The memory quota of the open table builders.
    pub memory_limiter: MemoryLimiter,
    /// The fresh table ids and the watermarks.
    pub sstable_id_manager: SstableIdManager,
}

impl CompactorContext {
    /// The parts of the context are each in a usable state.
    pub open spec fn wf(&self) -> bool {
        &&& self.sstable_store.wf()
        &&& self.memory_limiter.wf()
        &&& self.sstable_id_manager.wf()
    }
}

} // verus!

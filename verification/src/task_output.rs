//! What a task reports of the tables it wrote.

use crate::multi_builder::SealedSstableBuilder;
use crate::task::{CompactTask, SstableInfo, TaskKeyRange};
use crate::value::copy_bytes;
use vstd::prelude::*;

verus! {

/// One split's share of the output: the index of the split and what the
/// manager is told of its tables.
pub type CompactOutput = (usize, Vec<SstableInfo>);

/// Whether `info` is what the manager is told of the sealed table.
pub open spec fn spec_info_of(info: SstableInfo, sealed: SealedSstableBuilder) -> bool {
    &&& info.id == sealed.id
    &&& info.file_size == sealed.data_len
    &&& info.table_ids@ == sealed.table_ids@
    &&& info.key_range matches Some(range)
    &&& range.left@ == sealed.meta.smallest_key@
    &&& range.right@ == sealed.meta.largest_key@
    &&& !range.inf
}

/// What the manager is told of a sealed table.
pub fn sst_info(sealed: &SealedSstableBuilder) -> (info: SstableInfo)
    ensures
        spec_info_of(info, *sealed),
{
    let mut table_ids: Vec<u32> = Vec::new();
    let mut i: usize = 0;
    while i < sealed.table_ids.len()
        invariant
            i <= sealed.table_ids@.len(),
            table_ids@ == sealed.table_ids@.subrange(0, i as int),
        decreases sealed.table_ids@.len() - i,
    {
        table_ids.push(sealed.table_ids[i]);
        assert(sealed.table_ids@.subrange(0, i + 1) =~= sealed.table_ids@.subrange(
            0,
            i as int,
        ).push(sealed.table_ids@[i as int]));
        i += 1;
    }
    assert(sealed.table_ids@.subrange(0, i as int) =~= sealed.table_ids@);
    SstableInfo {
        id: sealed.id,
        key_range: Some(
            TaskKeyRange {
                left: copy_bytes(sealed.meta.smallest_key.as_slice()),
                right: copy_bytes(sealed.meta.largest_key.as_slice()),
                inf: false,
            },
        ),
        file_size: sealed.data_len as u64,
        table_ids,
    }
}

/// What the manager is told of the tables of all outputs, output by output.
pub open spec fn spec_all_ssts(outputs: Seq<CompactOutput>) -> Seq<SstableInfo>
    decreases outputs.len(),
{
    if outputs.len() == 0 {
        Seq::empty()
    } else {
        spec_all_ssts(outputs.drop_last()) + outputs.last().1@
    }
}

/// Taking the first output off a list takes its tables off the front.
pub proof fn lemma_all_ssts_first(outputs: Seq<CompactOutput>)
    requires
        outputs.len() > 0,
    ensures
        spec_all_ssts(outputs) == outputs[0].1@ + spec_all_ssts(outputs.skip(1)),
    decreases outputs.len(),
{
    if outputs.len() == 1 {
        assert(outputs.drop_last() =~= Seq::<CompactOutput>::empty());
        assert(outputs.skip(1) =~= Seq::<CompactOutput>::empty());
        assert(spec_all_ssts(outputs.drop_last()) + outputs.last().1@ =~= outputs[0].1@
            + spec_all_ssts(outputs.skip(1)));
    } else {
        lemma_all_ssts_first(outputs.drop_last());
        assert(outputs.drop_last().skip(1) =~= outputs.skip(1).drop_last());
        assert(outputs.drop_last()[0] == outputs[0]);
        assert(outputs.skip(1).last() == outputs.last());
        assert((outputs[0].1@ + spec_all_ssts(outputs.skip(1).drop_last())) + outputs.last().1@
            =~= outputs[0].1@ + (spec_all_ssts(outputs.skip(1).drop_last())
            + outputs.last().1@));
    }
}

/// Whether two tasks agree in all but their status and their output.
pub open spec fn spec_same_task(a: CompactTask, b: CompactTask) -> bool {
    &&& a.input_ssts == b.input_ssts
    &&& a.splits == b.splits
    &&& a.watermark == b.watermark
    &&& a.task_id == b.task_id
    &&& a.target_level == b.target_level
    &&& a.gc_delete_keys == b.gc_delete_keys
    &&& a.compaction_group_id == b.compaction_group_id
    &&& a.existing_table_ids == b.existing_table_ids
    &&& a.compression_algorithm == b.compression_algorithm
    &&& a.target_file_size == b.target_file_size
    &&& a.compaction_filter_mask == b.compaction_filter_mask
    &&& a.table_options == b.table_options
    &&& a.current_epoch_time == b.current_epoch_time
}

} // verus!

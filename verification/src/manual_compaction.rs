//! Requests for a compaction by hand.

use crate::task::TaskKeyRange;
use std::collections::HashSet;
use vstd::prelude::*;

verus! {

/// A request to compact a table by hand.
#[derive(Debug)]
pub struct TriggerManualCompactionRequest {
    /// The group of tables to compact.
    pub compaction_group_id: u64,
    /// The range of keys to compact; the whole range if missing.
    pub key_range: Option<TaskKeyRange>,
    /// The table whose keys are to be compacted.
    pub table_id: u32,
    /// The level to compact.
    pub level: u32,
    /// The tables to compact.
    pub sst_ids: Vec<u64>,
}

/// What a compaction by hand works on.
#[derive(Debug)]
pub struct ManualCompactionOption {
    /// The tables to compact.
    pub sst_ids: Vec<u64>,
    /// The range of keys to compact.
    pub key_range: TaskKeyRange,
    /// The ids of the tables whose keys are to be compacted.
    pub internal_table_id: HashSet<u32>,
    /// The level to compact.
    pub level: usize,
}

/// The set of the ids in a list.
pub open spec fn spec_table_id_set(ids: Seq<u32>) -> Set<u32>
    decreases ids.len(),
{
    if ids.len() == 0 {
        Set::empty()
    } else {
        spec_table_id_set(ids.drop_last()).insert(ids.last())
    }
}

/// Turns a request into what the compaction works on: a missing key range
/// becomes the unbounded one, and the table ids are those of the internal
/// tables of the requested table, if they are known, and the requested
/// table itself.
pub fn manual_compaction_option(
    request: TriggerManualCompactionRequest,
    internal_table_ids: Option<Vec<u32>>,
) -> (option: ManualCompactionOption)
    ensures
        option.level == request.level,
        option.sst_ids == request.sst_ids,
        request.key_range matches Some(range) ==> option.key_range == range,
        request.key_range is None ==> option.key_range.inf && option.key_range.left@.len() == 0
            && option.key_range.right@.len() == 0,
        option.internal_table_id@ == match internal_table_ids {
            Some(ids) => spec_table_id_set(ids@),
            None => Set::empty(),
        }.insert(request.table_id),
{
    broadcast use vstd::std_specs::hash::group_hash_axioms;

    let key_range = match request.key_range {
        Some(range) => range,
        None => TaskKeyRange { left: Vec::new(), right: Vec::new(), inf: true },
    };
    let mut internal_table_id: HashSet<u32> = HashSet::new();
    if let Some(ids) = internal_table_ids {
        let mut i: usize = 0;
        assert(ids@.subrange(0, 0) =~= Seq::<u32>::empty());
        while i < ids.len()
            invariant
                i <= ids@.len(),
                internal_table_id@ == spec_table_id_set(ids@.subrange(0, i as int)),
            decreases ids@.len() - i,
        {
            proof {
                assert(ids@.subrange(0, i + 1).drop_last() =~= ids@.subrange(0, i as int));
            }
            let _ = internal_table_id.insert(ids[i]);
            i += 1;
        }
        assert(ids@.subrange(0, i as int) =~= ids@);
    }
    let _ = internal_table_id.insert(request.table_id);
    ManualCompactionOption {
        sst_ids: request.sst_ids,
        key_range,
        internal_table_id,
        level: request.level as usize,
    }
}

} // verus!

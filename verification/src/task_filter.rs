//! The filters that a task asks for.

use crate::error::{HummockError, HummockResult};
use crate::filter::{
    spec_state_clean_up, spec_ttl_expired, BuiltinFilter, CompactionFilter, MultiCompactionFilter,
    StateCleanUpCompactionFilter, TTLCompactionFilter,
};
use crate::task::{
    CompactTask, TableOption, COMPACTION_FILTER_STATE_CLEAN, COMPACTION_FILTER_TTL,
};
use std::collections::{HashMap, HashSet};
use vstd::prelude::*;
use vstd::std_specs::iter::IteratorSpec;

verus! {

/// The set of the ids in a list.
pub open spec fn spec_id_set(ids: Seq<u32>) -> Set<u32>
    decreases ids.len(),
{
    if ids.len() == 0 {
        Set::empty()
    } else {
        spec_id_set(ids.drop_last()).insert(ids.last())
    }
}

/// The retention of each table for which one is configured, in seconds.
pub open spec fn spec_ttl_map(options: Map<u32, TableOption>) -> Map<u32, u32> {
    Map::new(
        |id: u32| options.contains_key(id) && options[id].retention_seconds is Some,
        |id: u32| options[id].retention_seconds->0,
    )
}

/// Whether a filter mask names only filters that exist.
pub open spec fn spec_mask_valid(mask: u32) -> bool {
    mask & !(COMPACTION_FILTER_STATE_CLEAN | COMPACTION_FILTER_TTL) == 0
}

/// Whether the filters that a task asks for drop a key.
pub open spec fn spec_task_deletes(task: CompactTask, key: Seq<u8>) -> bool {
    ||| (task.compaction_filter_mask & COMPACTION_FILTER_STATE_CLEAN != 0 && spec_state_clean_up(
        spec_id_set(task.existing_table_ids@),
        key,
    ))
    ||| (task.compaction_filter_mask & COMPACTION_FILTER_TTL != 0 && spec_ttl_expired(
        spec_ttl_map(task.table_options@),
        task.current_epoch_time,
        key,
    ))
}

/// Builds the chain of filters that a task's mask asks for. A mask with a
/// bit that names no filter is refused.
pub fn build_multi_compaction_filter(task: &CompactTask) -> (r: HummockResult<
    MultiCompactionFilter,
>)
    ensures
        r is Ok <==> spec_mask_valid(task.compaction_filter_mask),
        r is Err ==> r == Err::<MultiCompactionFilter, _>(HummockError::Other),
        r matches Ok(f) ==> forall|key: Seq<u8>| #[trigger]
            f.deletes(key) == spec_task_deletes(*task, key),
{
    broadcast use vstd::std_specs::hash::group_hash_axioms;

    let mask = task.compaction_filter_mask;
    if mask & !(COMPACTION_FILTER_STATE_CLEAN | COMPACTION_FILTER_TTL) != 0 {
        return Err(HummockError::Other);
    }
    let mut multi_filter = MultiCompactionFilter::new();
    if mask & COMPACTION_FILTER_STATE_CLEAN != 0 {
        let mut existing: HashSet<u32> = HashSet::new();
        let mut i: usize = 0;
        assert(task.existing_table_ids@.subrange(0, 0) =~= Seq::<u32>::empty());
        while i < task.existing_table_ids.len()
            invariant
                i <= task.existing_table_ids@.len(),
                existing@ == spec_id_set(task.existing_table_ids@.subrange(0, i as int)),
            decreases task.existing_table_ids@.len() - i,
        {
            proof {
                assert(task.existing_table_ids@.subrange(0, i + 1).drop_last()
                    =~= task.existing_table_ids@.subrange(0, i as int));
            }
            let _ = existing.insert(task.existing_table_ids[i]);
            i += 1;
        }
        assert(task.existing_table_ids@.subrange(0, i as int) =~= task.existing_table_ids@);
        let filter = StateCleanUpCompactionFilter::new(existing);
        multi_filter.register(BuiltinFilter::StateCleanUp(filter));
    }
    if mask & COMPACTION_FILTER_TTL != 0 {
        let mut id_to_ttl: HashMap<u32, u32> = HashMap::new();
        let ghost options = task.table_options@;
        let ghost all = task.table_options.iter().remaining();
        let ghost mut done: int = 0;
        for entry in it: task.table_options.iter()
            invariant
                all == it.seq(),
                done == it.index(),
                options == task.table_options@,
                forall|i: int|
                    0 <= i < all.len() ==> options.contains_key(*(#[trigger] all[i]).0)
                        && options[*all[i].0] == *all[i].1,
                forall|id: u32| #[trigger]
                    id_to_ttl@.contains_key(id) ==> options.contains_key(id)
                        && options[id].retention_seconds == Some(id_to_ttl@[id]),
                forall|p: int|
                    0 <= p < done && (#[trigger] all[p]).1.retention_seconds is Some
                        ==> id_to_ttl@.contains_key(*all[p].0),
        {
            assert(entry == all[done]);
            if let Some(seconds) = entry.1.retention_seconds {
                let _ = id_to_ttl.insert(*entry.0, seconds);
            }
            proof {
                done = done + 1;
            }
        }
        proof {
            assert(done == all.len());
            assert forall|id: u32|
                options.contains_key(id) && options[id].retention_seconds
                    is Some implies id_to_ttl@.contains_key(id) by {
                assert(all.contains((&id, &options[id])));
                let p = choose|p: int| 0 <= p < all.len() && all[p] == (&id, &options[id]);
                assert(all[p].1.retention_seconds is Some);
            }
            assert(id_to_ttl@ =~= spec_ttl_map(options));
        }
        let filter = TTLCompactionFilter::new(id_to_ttl, task.current_epoch_time);
        multi_filter.register(BuiltinFilter::Ttl(filter));
    }
    proof {
        let chain = multi_filter.chain();
        assert forall|key: Seq<u8>| #[trigger]
            multi_filter.deletes(key) == spec_task_deletes(*task, key) by {
            if spec_task_deletes(*task, key) {
                if mask & COMPACTION_FILTER_STATE_CLEAN != 0 && spec_state_clean_up(
                    spec_id_set(task.existing_table_ids@),
                    key,
                ) {
                    assert(chain[0].deletes(key));
                } else {
                    assert(chain[chain.len() - 1].deletes(key));
                }
            }
        }
    }
    Ok(multi_filter)
}

} // verus!

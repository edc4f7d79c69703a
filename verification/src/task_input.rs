//! The input of a task: the sorted runs its levels contribute to the merge.

use crate::concat_iterator::{spec_rest, spec_table_views, spec_tables_wf, ConcatSstableIterator};
use crate::error::{HummockError, HummockResult};
use crate::iterator::{
    lemma_seek_index_bound, spec_not_below, spec_seek, spec_seek_index, spec_sorted,
    HummockIterator,
};
use crate::key::{spec_epoch, spec_user_key};
use crate::merge_iterator::{
    lemma_merged_not_below, lemma_merged_sorted, spec_merged, spec_runs_distinct,
    spec_runs_rewound, spec_runs_sorted, spec_runs_sought, UnorderedMergeIteratorInner,
};
use crate::multi_builder::spec_tables_apart;
use crate::split_output::spec_scan_input;
use crate::sstable::Sstable;
use crate::sstable_store::SstableStore;
use crate::task::{Level, LevelType, SstableInfo};
use crate::value::EntryView;
use std::sync::Arc;
use vstd::prelude::*;

verus! {

/// The tables of a level as they are at hand in the store.
pub open spec fn spec_level_tables(level: Level, store: Map<u64, Arc<Sstable>>) -> Seq<
    Arc<Sstable>,
> {
    level.table_infos@.map_values(|info: SstableInfo| store[info.id])
}

/// Whether every table of a level is at hand in the store.
pub open spec fn spec_level_at_hand(level: Level, store: Map<u64, Arc<Sstable>>) -> bool {
    forall|i: int|
        0 <= i < level.table_infos@.len() ==> store.contains_key(
            (#[trigger] level.table_infos@[i]).id,
        )
}

/// The sorted runs that a level contributes to a merge: none if it has no
/// tables, all its tables as one run if they do not overlap, else each
/// table as a run of its own.
pub open spec fn spec_level_runs(level: Level, store: Map<u64, Arc<Sstable>>) -> Seq<
    Seq<Arc<Sstable>>,
> {
    let tables = spec_level_tables(level, store);
    if tables.len() == 0 {
        Seq::empty()
    } else if level.level_type == LevelType::Nonoverlapping {
        seq![tables]
    } else {
        tables.map_values(|t: Arc<Sstable>| seq![t])
    }
}

/// The sorted runs that the levels contribute to a merge, level by level.
pub open spec fn spec_input_runs(levels: Seq<Level>, store: Map<u64, Arc<Sstable>>) -> Seq<
    Seq<Arc<Sstable>>,
>
    decreases levels.len(),
{
    if levels.len() == 0 {
        Seq::empty()
    } else {
        spec_input_runs(levels.drop_last(), store) + spec_level_runs(levels.last(), store)
    }
}

/// What is amiss with a level, if anything: a table that is not at hand,
/// or tables that are meant not to overlap but do not lie apart.
pub open spec fn spec_level_error(level: Level, store: Map<u64, Arc<Sstable>>) -> Option<
    HummockError,
> {
    if !spec_level_at_hand(level, store) {
        Some(HummockError::ObjectIoError)
    } else if level.level_type == LevelType::Nonoverlapping && !spec_tables_apart(
        spec_table_views(spec_level_tables(level, store)),
    ) {
        Some(HummockError::Other)
    } else {
        None
    }
}

/// What is amiss with the first level with which something is amiss.
pub open spec fn spec_first_error(levels: Seq<Level>, store: Map<u64, Arc<Sstable>>) -> Option<
    HummockError,
>
    decreases levels.len(),
{
    if levels.len() == 0 {
        None
    } else {
        match spec_first_error(levels.drop_last(), store) {
            Some(e) => Some(e),
            None => spec_level_error(levels.last(), store),
        }
    }
}

/// Once something is amiss with a level, further levels do not change what
/// is reported.
pub proof fn lemma_first_error_stays(levels: Seq<Level>, store: Map<u64, Arc<Sstable>>, n: int)
    requires
        0 <= n <= levels.len(),
        spec_first_error(levels.subrange(0, n), store) is Some,
    ensures
        spec_first_error(levels, store) == spec_first_error(levels.subrange(0, n), store),
    decreases levels.len() - n,
{
    if n < levels.len() {
        assert(levels.drop_last().subrange(0, n) =~= levels.subrange(0, n));
        lemma_first_error_stays(levels.drop_last(), store, n);
    } else {
        assert(levels.subrange(0, n) =~= levels);
    }
}

/// If nothing is amiss with the levels, every run they contribute is made
/// of tables that lie apart.
pub proof fn lemma_input_runs_apart(levels: Seq<Level>, store: Map<u64, Arc<Sstable>>, r: int)
    requires
        spec_first_error(levels, store) is None,
        0 <= r < spec_input_runs(levels, store).len(),
    ensures
        spec_tables_apart(spec_table_views(spec_input_runs(levels, store)[r])),
    decreases levels.len(),
{
    let before = spec_input_runs(levels.drop_last(), store);
    if r < before.len() {
        lemma_input_runs_apart(levels.drop_last(), store, r);
    } else {
        let level = levels.last();
        let tables = spec_level_tables(level, store);
        if level.level_type != LevelType::Nonoverlapping {
            assert(spec_input_runs(levels, store)[r] == seq![tables[r - before.len()]]);
        }
    }
}

/// The entries a scan reads are sorted: if nothing is amiss with the
/// levels of a task and no two runs hold the same key, a scan over the
/// merging iterator of the levels reads entries whose keys strictly
/// increase, none of them below the left end of the scan.
pub proof fn lemma_scan_input_sorted(
    it: UnorderedMergeIteratorInner<ConcatSstableIterator>,
    left: Seq<u8>,
    levels: Seq<Level>,
    store: Map<u64, Arc<Sstable>>,
)
    requires
        it.wf(),
        spec_iter_tables(it.iters()) == spec_input_runs(levels, store),
        spec_first_error(levels, store) is None,
        spec_runs_distinct(spec_runs_rewound(it.iters())),
    ensures
        spec_sorted(spec_scan_input(it, left)),
        left.len() > 0 ==> spec_not_below(spec_scan_input(it, left), left),
{
    let iters = it.iters();
    let rewound = spec_runs_rewound(iters);
    let sought = spec_runs_sought(iters, left);
    assert forall|r: int| 0 <= r < iters.len() implies spec_sorted(#[trigger] rewound[r])
        && spec_sorted(sought[r]) && spec_not_below(sought[r], left) by {
        assert(iters[r].wf());
        assert(spec_iter_tables(iters)[r] == iters[r].tables());
        lemma_input_runs_apart(levels, store, r);
        iters[r].lemma_sorted(left);
    }
    assert(spec_runs_sorted(rewound)) by {
        assert forall|r: int| 0 <= r < rewound.len() implies spec_sorted(#[trigger] rewound[r]) by {
            assert(spec_sorted(rewound[r]));
        }
    }
    lemma_merged_sorted(rewound);
    if left.len() > 0 {
        assert forall|r: int| 0 <= r < sought.len() implies spec_sorted(#[trigger] sought[r])
            && spec_not_below(sought[r], left) by {
            assert(spec_sorted(rewound[r]));
        }
        assert forall|r1: int, r2: int, x: int, y: int|
            0 <= r1 < sought.len() && 0 <= r2 < sought.len() && r1 != r2 && 0 <= x
                < sought[r1].len() && 0 <= y < sought[r2].len() implies spec_user_key(
            (#[trigger] sought[r1][x]).key,
        ) != spec_user_key((#[trigger] sought[r2][y]).key) || spec_epoch(
            sought[r1][x].key,
        ) != spec_epoch(sought[r2][y].key) by {
            let k1 = spec_seek_index(rewound[r1], left) as int;
            let k2 = spec_seek_index(rewound[r2], left) as int;
            lemma_seek_index_bound(rewound[r1], left);
            lemma_seek_index_bound(rewound[r2], left);
            assert(sought[r1][x] == rewound[r1][k1 + x]);
            assert(sought[r2][y] == rewound[r2][k2 + y]);
        }
        lemma_merged_sorted(sought);
        lemma_merged_not_below(sought, left);
    }
}

/// The tables that each iterator runs over.
pub open spec fn spec_iter_tables(iters: Seq<ConcatSstableIterator>) -> Seq<Seq<Arc<Sstable>>> {
    iters.map_values(|it: ConcatSstableIterator| it.tables())
}

/// The tables of a level, fetched from the store; fails if one of them is
/// not at hand.
pub fn level_tables(store: &SstableStore, level: &Level) -> (r: HummockResult<Vec<Arc<Sstable>>>)
    requires
        store.wf(),
    ensures
        r is Ok <==> spec_level_at_hand(*level, store@),
        r is Err ==> r == Err::<Vec<Arc<Sstable>>, _>(HummockError::ObjectIoError),
        r matches Ok(tables) ==> tables@ == spec_level_tables(*level, store@) && spec_tables_wf(
            tables@,
        ),
{
    let mut tables: Vec<Arc<Sstable>> = Vec::new();
    let mut i: usize = 0;
    while i < level.table_infos.len()
        invariant
            store.wf(),
            i <= level.table_infos@.len(),
            tables@.len() == i,
            forall|k: int|
                0 <= k < i ==> store@.contains_key((#[trigger] level.table_infos@[k]).id)
                    && tables@[k] == store@[level.table_infos@[k].id],
        decreases level.table_infos@.len() - i,
    {
        match store.sstable(level.table_infos[i].id) {
            Some(table) => {
                tables.push(table);
            },
            None => {
                return Err(HummockError::ObjectIoError);
            },
        }
        i += 1;
    }
    assert(tables@ =~= spec_level_tables(*level, store@));
    assert forall|k: int| 0 <= k < tables@.len() implies (#[trigger] tables@[k]).wf() by {
        assert(store@.contains_key(level.table_infos@[k].id));
    }
    Ok(tables)
}

/// The ids of the tables in a list.
pub open spec fn spec_info_ids(infos: Seq<SstableInfo>) -> Set<u64>
    decreases infos.len(),
{
    if infos.len() == 0 {
        Set::empty()
    } else {
        spec_info_ids(infos.drop_last()).insert(infos.last().id)
    }
}

/// The ids of the tables of all levels.
pub open spec fn spec_input_ids(levels: Seq<Level>) -> Set<u64>
    decreases levels.len(),
{
    if levels.len() == 0 {
        Set::empty()
    } else {
        spec_input_ids(levels.drop_last()).union(spec_info_ids(levels.last().table_infos@))
    }
}

/// Forgets the input tables of a task.
pub fn evict_inputs(store: &mut SstableStore, levels: &Vec<Level>)
    requires
        old(store).wf(),
    ensures
        final(store).wf(),
        final(store)@ == old(store)@.remove_keys(spec_input_ids(levels@)),
{
    let mut i: usize = 0;
    assert(levels@.subrange(0, 0) =~= Seq::<Level>::empty());
    assert(store@ =~= old(store)@.remove_keys(Set::empty()));
    while i < levels.len()
        invariant
            i <= levels@.len(),
            store.wf(),
            store@ == old(store)@.remove_keys(spec_input_ids(levels@.subrange(0, i as int))),
        decreases levels@.len() - i,
    {
        let level = &levels[i];
        let ghost done = spec_input_ids(levels@.subrange(0, i as int));
        let ghost infos = level.table_infos@;
        let mut k: usize = 0;
        assert(infos.subrange(0, 0) =~= Seq::<SstableInfo>::empty());
        assert(done.union(Set::empty()) =~= done);
        while k < level.table_infos.len()
            invariant
                k <= level.table_infos@.len(),
                infos == level.table_infos@,
                store.wf(),
                store@ == old(store)@.remove_keys(
                    done.union(spec_info_ids(infos.subrange(0, k as int))),
                ),
            decreases level.table_infos@.len() - k,
        {
            let ghost before = spec_info_ids(infos.subrange(0, k as int));
            store.delete_cache(level.table_infos[k].id);
            proof {
                assert(infos.subrange(0, k + 1).drop_last() =~= infos.subrange(0, k as int));
                assert(old(store)@.remove_keys(done.union(before)).remove(infos[k as int].id)
                    =~= old(store)@.remove_keys(done.union(before.insert(infos[k as int].id))));
            }
            k += 1;
        }
        proof {
            assert(infos.subrange(0, k as int) =~= infos);
            assert(levels@.subrange(0, i + 1).drop_last() =~= levels@.subrange(0, i as int));
        }
        i += 1;
    }
    assert(levels@.subrange(0, i as int) =~= levels@);
}

/// The entries of a run of tables, one table after the other.
pub open spec fn spec_run_entries(run: Seq<Arc<Sstable>>) -> Seq<EntryView> {
    spec_rest(spec_table_views(run), 0, 0)
}

/// The entries that a scan of the levels reads from `left` on: the runs of
/// the levels, each from its first key that is not below `left`, merged; all
/// entries of the runs, merged, for an empty `left`.
pub open spec fn spec_task_input(levels: Seq<Level>, store: Map<u64, Arc<Sstable>>, left: Seq<u8>)
    -> Seq<EntryView> {
    let runs = spec_input_runs(levels, store);
    if left.len() > 0 {
        spec_merged(runs.map_values(|run: Seq<Arc<Sstable>>| spec_seek(spec_run_entries(run), left)))
    } else {
        spec_merged(runs.map_values(|run: Seq<Arc<Sstable>>| spec_run_entries(run)))
    }
}

/// A scan over the merging iterator of the levels reads the entries of the
/// levels.
pub proof fn lemma_scan_input_is_task_input(
    it: UnorderedMergeIteratorInner<ConcatSstableIterator>,
    left: Seq<u8>,
    levels: Seq<Level>,
    store: Map<u64, Arc<Sstable>>,
)
    requires
        spec_iter_tables(it.iters()) == spec_input_runs(levels, store),
    ensures
        spec_scan_input(it, left) == spec_task_input(levels, store, left),
{
    let iters = it.iters();
    let runs = spec_input_runs(levels, store);
    assert forall|i: int| 0 <= i < iters.len() implies (#[trigger] iters[i]).tables() == runs[i] by {
        assert(spec_iter_tables(iters)[i] == iters[i].tables());
    }
    assert(spec_runs_rewound(iters) =~= runs.map_values(
        |run: Seq<Arc<Sstable>>| spec_run_entries(run),
    ));
    assert(spec_runs_sought(iters, left) =~= runs.map_values(
        |run: Seq<Arc<Sstable>>| spec_seek(spec_run_entries(run), left),
    ));
}

} // verus!

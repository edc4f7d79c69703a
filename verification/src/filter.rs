//! Compaction filters: rules that drop a key whatever its epoch.

use crate::key::{get_epoch, get_table_id, is_full_key, spec_epoch, spec_table_id};
use std::collections::{HashMap, HashSet};
use vstd::prelude::*;

verus! {

/// The wall-clock second at which an epoch was issued: the epoch without
/// its sixteen low bits counts milliseconds.
pub open spec fn spec_epoch_to_time(epoch: u64) -> int {
    epoch as int / 65536 / 1000
}

/// The wall-clock second at which an epoch was issued.
pub fn epoch_to_time(epoch: u64) -> (seconds: u64)
    ensures
        seconds == spec_epoch_to_time(epoch),
{
    epoch / 65536 / 1000
}

/// A rule that decides from a full key alone whether its entry is dropped.
pub trait CompactionFilter {
    /// Whether the rule drops the entry stored under `key`.
    spec fn deletes(&self, key: Seq<u8>) -> bool;

    /// Whether the rule drops the entry stored under `key`. The answer is a
    /// function of the filter and the key: asking again gives the same answer.
    fn should_delete(&self, key: &[u8]) -> (drop: bool)
        requires
            is_full_key(key@),
        ensures
            drop == self.deletes(key@),
    ;
}

impl<'a, F: CompactionFilter> CompactionFilter for &'a F {
    open spec fn deletes(&self, key: Seq<u8>) -> bool {
        (**self).deletes(key)
    }

    fn should_delete(&self, key: &[u8]) -> (drop: bool) {
        (**self).should_delete(key)
    }
}

/// The filter that drops nothing.
#[derive(Clone, Copy, Debug, Default)]
pub struct DummyCompactionFilter;

impl CompactionFilter for DummyCompactionFilter {
    open spec fn deletes(&self, key: Seq<u8>) -> bool {
        false
    }

    fn should_delete(&self, key: &[u8]) -> (drop: bool) {
        false
    }
}

/// Drops the keys of tables that no longer exist.
pub struct StateCleanUpCompactionFilter {
    existing_table_ids: HashSet<u32>,
}

impl StateCleanUpCompactionFilter {
    /// The ids of the tables that still exist.
    pub closed spec fn existing(&self) -> Set<u32> {
        self.existing_table_ids@
    }

    /// A filter that keeps exactly the keys of the given tables, and the
    /// keys that belong to no table.
    pub fn new(existing_table_ids: HashSet<u32>) -> (f: Self)
        ensures
            f.existing() == existing_table_ids@,
    {
        StateCleanUpCompactionFilter { existing_table_ids }
    }
}

/// Whether a key belongs to a table outside `existing`.
pub open spec fn spec_state_clean_up(existing: Set<u32>, key: Seq<u8>) -> bool {
    match spec_table_id(key) {
        Some(table_id) => !existing.contains(table_id),
        None => false,
    }
}

impl CompactionFilter for StateCleanUpCompactionFilter {
    open spec fn deletes(&self, key: Seq<u8>) -> bool {
        spec_state_clean_up(self.existing(), key)
    }

    fn should_delete(&self, key: &[u8]) -> (drop: bool) {
        broadcast use vstd::std_specs::hash::group_hash_axioms;

        match get_table_id(key) {
            None => false,
            Some(table_id) => !self.existing_table_ids.contains(&table_id),
        }
    }
}

/// Drops the keys of a table once they are older than the table's retention.
pub struct TTLCompactionFilter {
    table_id_to_ttl: HashMap<u32, u32>,
    expire_epoch_time: u64,
}

impl TTLCompactionFilter {
    /// Retention in seconds, by table id.
    pub closed spec fn ttl(&self) -> Map<u32, u32> {
        self.table_id_to_ttl@
    }

    /// The second against which ages are measured.
    pub closed spec fn expire_time(&self) -> u64 {
        self.expire_epoch_time
    }

    /// A filter that measures ages against `current_epoch_time`, in seconds.
    pub fn new(table_id_to_ttl: HashMap<u32, u32>, current_epoch_time: u64) -> (f: Self)
        ensures
            f.ttl() == table_id_to_ttl@,
            f.expire_time() == current_epoch_time,
    {
        TTLCompactionFilter { table_id_to_ttl, expire_epoch_time: current_epoch_time }
    }
}

/// Whether a key belongs to a table with a configured retention and was
/// written more than that many seconds before `now`.
pub open spec fn spec_ttl_expired(ttl: Map<u32, u32>, now: u64, key: Seq<u8>) -> bool {
    match spec_table_id(key) {
        Some(table_id) => ttl.contains_key(table_id) && now - spec_epoch_to_time(spec_epoch(key))
            > ttl[table_id],
        None => false,
    }
}

impl CompactionFilter for TTLCompactionFilter {
    open spec fn deletes(&self, key: Seq<u8>) -> bool {
        spec_ttl_expired(self.ttl(), self.expire_time(), key)
    }

    fn should_delete(&self, key: &[u8]) -> (drop: bool) {
        broadcast use vstd::std_specs::hash::group_hash_axioms;

        match get_table_id(key) {
            None => false,
            Some(table_id) => {
                match self.table_id_to_ttl.get(&table_id) {
                    None => false,
                    Some(ttl) => {
                        let written = epoch_to_time(get_epoch(key));
                        self.expire_epoch_time > written && self.expire_epoch_time - written
                            > *ttl as u64
                    },
                }
            },
        }
    }
}

/// One of the built-in filters.
pub enum BuiltinFilter {
    Dummy(DummyCompactionFilter),
    StateCleanUp(StateCleanUpCompactionFilter),
    Ttl(TTLCompactionFilter),
}

impl CompactionFilter for BuiltinFilter {
    open spec fn deletes(&self, key: Seq<u8>) -> bool {
        match self {
            BuiltinFilter::Dummy(f) => f.deletes(key),
            BuiltinFilter::StateCleanUp(f) => f.deletes(key),
            BuiltinFilter::Ttl(f) => f.deletes(key),
        }
    }

    fn should_delete(&self, key: &[u8]) -> (drop: bool) {
        match self {
            BuiltinFilter::Dummy(f) => f.should_delete(key),
            BuiltinFilter::StateCleanUp(f) => f.should_delete(key),
            BuiltinFilter::Ttl(f) => f.should_delete(key),
        }
    }
}

/// A chain of filters: it drops a key as soon as one of them does.
pub struct MultiCompactionFilter {
    filters: Vec<BuiltinFilter>,
}

/// Whether one of the first `n` filters drops the key.
pub open spec fn spec_any_deletes(filters: Seq<BuiltinFilter>, n: int, key: Seq<u8>) -> bool {
    exists|i: int| 0 <= i < n && i < filters.len() && (#[trigger] filters[i]).deletes(key)
}

impl MultiCompactionFilter {
    /// The registered filters, in the order of registration.
    pub closed spec fn chain(&self) -> Seq<BuiltinFilter> {
        self.filters@
    }

    /// The empty chain, which drops nothing.
    pub fn new() -> (f: Self)
        ensures
            f.chain().len() == 0,
    {
        MultiCompactionFilter { filters: Vec::new() }
    }

    /// Appends a filter to the chain.
    pub fn register(&mut self, filter: BuiltinFilter)
        ensures
            final(self).chain() == old(self).chain().push(filter),
    {
        self.filters.push(filter);
    }
}

impl CompactionFilter for MultiCompactionFilter {
    open spec fn deletes(&self, key: Seq<u8>) -> bool {
        spec_any_deletes(self.chain(), self.chain().len() as int, key)
    }

    fn should_delete(&self, key: &[u8]) -> (drop: bool) {
        let mut i: usize = 0;
        while i < self.filters.len()
            invariant
                i <= self.filters.len(),
                is_full_key(key@),
                !spec_any_deletes(self.filters@, i as int, key@),
            decreases self.filters.len() - i,
        {
            if self.filters[i].should_delete(key) {
                return true;
            }
            i += 1;
        }
        false
    }
}

/// The keys of `keys` that the filter does not drop, in order.
pub open spec fn spec_surviving<F: CompactionFilter>(filter: F, keys: Seq<Seq<u8>>) -> Seq<
    Seq<u8>,
> {
    keys.filter(|k: Seq<u8>| !filter.deletes(k))
}

/// Filtering is idempotent: running a filter over what it has already let
/// through drops nothing more.
pub proof fn lemma_filter_idempotent<F: CompactionFilter>(filter: F, keys: Seq<Seq<u8>>)
    ensures
        spec_surviving(filter, spec_surviving(filter, keys)) == spec_surviving(filter, keys),
    decreases keys.len(),
{
    let pred = |k: Seq<u8>| !filter.deletes(k);
    reveal(Seq::filter);
    if keys.len() > 0 {
        lemma_filter_idempotent(filter, keys.drop_last());
        let rest = keys.drop_last().filter(pred);
        if pred(keys.last()) {
            assert(keys.filter(pred) == rest.push(keys.last()));
            assert(rest.push(keys.last()).drop_last() =~= rest);
            assert(rest.push(keys.last()).filter(pred) == rest.filter(pred).push(keys.last()));
        }
    }
}

} // verus!

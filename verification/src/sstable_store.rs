//! The tables that are at hand in memory, by id.

use crate::sstable::Sstable;
use std::collections::HashMap;
use std::sync::Arc;
use vstd::prelude::*;

verus! {

/// Holds stored tables by id.
pub struct SstableStore {
    tables: HashMap<u64, Arc<Sstable>>,
}

impl View for SstableStore {
    type V = Map<u64, Arc<Sstable>>;

    /// The tables at hand, by the id they were stored under.
    closed spec fn view(&self) -> Map<u64, Arc<Sstable>> {
        self.tables@
    }
}

impl SstableStore {
    /// Every table at hand has full keys in strictly increasing order.
    pub open spec fn wf(&self) -> bool {
        forall|id: u64| #[trigger] self@.contains_key(id) ==> self@[id].wf()
    }

    /// A store without tables.
    pub fn new() -> (s: Self)
        ensures
            s.wf(),
            s@ == Map::<u64, Arc<Sstable>>::empty(),
    {
        SstableStore { tables: HashMap::new() }
    }

    /// Stores a table under its id, in place of any table stored there.
    pub fn put(&mut self, table: Sstable)
        requires
            old(self).wf(),
            table.wf(),
        ensures
            final(self).wf(),
            final(self)@ == old(self)@.insert(table.spec_id(), Arc::new(table)),
    {
        broadcast use vstd::std_specs::hash::group_hash_axioms;

        let id = table.id();
        let _ = self.tables.insert(id, Arc::new(table));
    }

    /// The table stored under `id`, if there is one.
    pub fn sstable(&self, id: u64) -> (t: Option<Arc<Sstable>>)
        ensures
            t == if self@.contains_key(id) {
                Some(self@[id])
            } else {
                None
            },
    {
        broadcast use vstd::std_specs::hash::group_hash_axioms;

        match self.tables.get(&id) {
            Some(t) => Some(t.clone()),
            None => None,
        }
    }

    /// Forgets the table stored under `id`.
    pub fn delete_cache(&mut self, id: u64)
        requires
            old(self).wf(),
        ensures
            final(self).wf(),
            final(self)@ == old(self)@.remove(id),
    {
        broadcast use vstd::std_specs::hash::group_hash_axioms;

        let _ = self.tables.remove(&id);
    }
}

} // verus!

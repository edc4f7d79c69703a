//! The registry of the tables of a node, by table id.

use crate::catalog::{ColumnDesc, OrderType};
use std::collections::HashMap;
use std::sync::Arc;
use vstd::prelude::*;

verus! {

/// The store behind the tables.
#[derive(Clone, Copy, Debug, PartialEq, Eq, Structural)]
pub enum StateStoreImpl {
    HummockStateStore,
    MemoryStateStore,
}

/// Why the registry refuses a request.
#[derive(Clone, Copy, Debug, PartialEq, Eq, Structural)]
pub enum TableError {
    /// A table id that is taken, or one that is not known, or a table
    /// without columns.
    InternalError,
    /// A materialized view over a table that is not known.
    CatalogError,
}

/// A table: where its rows are kept and how they are laid out.
#[derive(Debug)]
pub struct MViewTable {
    /// The id of the table under which the rows are kept in the store.
    pub keyspace_table_id: u32,
    /// The store that keeps the rows.
    pub state_store: StateStoreImpl,
    /// The columns.
    pub column_descs: Vec<ColumnDesc>,
    /// The positions of the columns of the primary key.
    pub pk_columns: Vec<usize>,
    /// The order of each column of the primary key.
    pub order_types: Vec<OrderType>,
}

/// A shared handle on a table.
pub type ScannableTableRef = Arc<MViewTable>;

/// Copies a list of columns.
pub fn copy_columns(columns: &[ColumnDesc]) -> (copy: Vec<ColumnDesc>)
    ensures
        copy@ == columns@,
{
    let mut copy: Vec<ColumnDesc> = Vec::new();
    let mut i: usize = 0;
    while i < columns.len()
        invariant
            i <= columns@.len(),
            copy@ == columns@.subrange(0, i as int),
        decreases columns@.len() - i,
    {
        copy.push(columns[i]);
        assert(columns@.subrange(0, i + 1) =~= columns@.subrange(0, i as int).push(
            columns@[i as int],
        ));
        i += 1;
    }
    assert(columns@.subrange(0, i as int) =~= columns@);
    copy
}

/// Manages all tables of a node.
pub struct SimpleTableManager {
    tables: HashMap<u32, ScannableTableRef>,
    state_store: StateStoreImpl,
}

impl View for SimpleTableManager {
    type V = Map<u32, ScannableTableRef>;

    /// The tables, by the ids they are registered under.
    closed spec fn view(&self) -> Map<u32, ScannableTableRef> {
        self.tables@
    }
}

impl SimpleTableManager {
    /// The store behind the tables.
    pub closed spec fn spec_state_store(&self) -> StateStoreImpl {
        self.state_store
    }

    /// A registry without tables over the given store.
    pub fn new(state_store: StateStoreImpl) -> (m: Self)
        ensures
            m@ == Map::<u32, ScannableTableRef>::empty(),
            m.spec_state_store() == state_store,
    {
        SimpleTableManager { tables: HashMap::new(), state_store }
    }

    /// A registry without tables over a store in memory.
    pub fn with_in_memory_store() -> (m: Self)
        ensures
            m@ == Map::<u32, ScannableTableRef>::empty(),
            m.spec_state_store() == StateStoreImpl::MemoryStateStore,
    {
        SimpleTableManager::new(StateStoreImpl::MemoryStateStore)
    }

    /// The tables, by the ids they are registered under.
    pub fn lock_tables(&self) -> (tables: &HashMap<u32, ScannableTableRef>)
        ensures
            tables@ == self@,
    {
        &self.tables
    }

    /// The store behind the tables.
    pub fn state_store(&self) -> (s: StateStoreImpl)
        ensures
            s == self.spec_state_store(),
    {
        self.state_store
    }

    /// Registers a new table with the given columns and no primary key,
    /// kept under its own id. An id that is taken is refused.
    pub fn create_table_v2(&mut self, table_id: u32, table_columns: Vec<ColumnDesc>) -> (r: Result<
        ScannableTableRef,
        TableError,
    >)
        ensures
            final(self).spec_state_store() == old(self).spec_state_store(),
            r is Err <==> old(self)@.contains_key(table_id),
            r is Err ==> r == Err::<ScannableTableRef, _>(TableError::InternalError) && final(self)@ == old(self)@,
            r matches Ok(table) ==> {
                &&& final(self)@ == old(self)@.insert(table_id, table)
                &&& table.keyspace_table_id == table_id
                &&& table.state_store == old(self).spec_state_store()
                &&& table.column_descs == table_columns
                &&& table.pk_columns@.len() == 0
                &&& table.order_types@.len() == 0
            },
    {
        broadcast use vstd::std_specs::hash::group_hash_axioms;

        if self.tables.contains_key(&table_id) {
            return Err(TableError::InternalError);
        }
        let table = Arc::new(
            MViewTable {
                keyspace_table_id: table_id,
                state_store: self.state_store,
                column_descs: table_columns,
                pk_columns: Vec::new(),
                order_types: Vec::new(),
            },
        );
        let _ = self.tables.insert(table_id, table.clone());
        Ok(table)
    }

    /// The table registered under `table_id`.
    pub fn get_table(&self, table_id: u32) -> (r: Result<ScannableTableRef, TableError>)
        ensures
            r == if self@.contains_key(table_id) {
                Ok::<ScannableTableRef, TableError>(self@[table_id])
            } else {
                Err::<ScannableTableRef, _>(TableError::InternalError)
            },
    {
        broadcast use vstd::std_specs::hash::group_hash_axioms;

        match self.tables.get(&table_id) {
            Some(table) => Ok(table.clone()),
            None => Err(TableError::InternalError),
        }
    }

    /// Removes the table registered under `table_id` from the registry. The
    /// rows of the table stay in the store.
    pub fn drop_table(&mut self, table_id: u32) -> (r: Result<(), TableError>)
        ensures
            final(self).spec_state_store() == old(self).spec_state_store(),
            r is Ok <==> old(self)@.contains_key(table_id),
            r is Err ==> r == Err::<(), _>(TableError::InternalError),
            final(self)@ == old(self)@.remove(table_id),
    {
        broadcast use vstd::std_specs::hash::group_hash_axioms;

        if !self.tables.contains_key(&table_id) {
            assert(old(self)@.remove(table_id) =~= old(self)@);
            return Err(TableError::InternalError);
        }
        let _ = self.tables.remove(&table_id);
        Ok(())
    }

    /// Registers a new materialized view with the given columns, primary
    /// key and ordering. An id that is taken is refused, and so is a view
    /// without columns.
    pub fn create_materialized_view(
        &mut self,
        table_id: u32,
        columns: &[ColumnDesc],
        pk_columns: Vec<usize>,
        orderings: Vec<OrderType>,
    ) -> (r: Result<(), TableError>)
        ensures
            final(self).spec_state_store() == old(self).spec_state_store(),
            r is Err <==> old(self)@.contains_key(table_id) || columns@.len() == 0,
            r is Err ==> r == Err::<(), _>(TableError::InternalError) && final(self)@ == old(self)@,
            r is Ok ==> {
                &&& final(self)@.dom() == old(self)@.dom().insert(table_id)
                &&& forall|id: u32|
                    id != table_id && old(self)@.contains_key(id) ==> final(self)@[id] == old(self)@[id]
                &&& final(self)@[table_id].keyspace_table_id == table_id
                &&& final(self)@[table_id].state_store == old(self).spec_state_store()
                &&& final(self)@[table_id].column_descs@ == columns@
                &&& final(self)@[table_id].pk_columns == pk_columns
                &&& final(self)@[table_id].order_types == orderings
            },
    {
        broadcast use vstd::std_specs::hash::group_hash_axioms;

        if self.tables.contains_key(&table_id) {
            return Err(TableError::InternalError);
        }
        if columns.len() == 0 {
            return Err(TableError::InternalError);
        }
        let table = Arc::new(
            MViewTable {
                keyspace_table_id: table_id,
                state_store: self.state_store,
                column_descs: copy_columns(columns),
                pk_columns,
                order_types: orderings,
            },
        );
        let _ = self.tables.insert(table_id, table);
        Ok(())
    }

    /// Registers the table of `associated_table_id` under `mview_id` as
    /// well, in place of anything registered there. A table that is not
    /// known is refused.
    pub fn register_associated_materialized_view(
        &mut self,
        associated_table_id: u32,
        mview_id: u32,
    ) -> (r: Result<ScannableTableRef, TableError>)
        ensures
            final(self).spec_state_store() == old(self).spec_state_store(),
            r is Ok <==> old(self)@.contains_key(associated_table_id),
            r is Err ==> r == Err::<ScannableTableRef, _>(TableError::CatalogError) && final(self)@ == old(self)@,
            r matches Ok(table) ==> table == old(self)@[associated_table_id] && final(self)@
                == old(self)@.insert(mview_id, table),
    {
        broadcast use vstd::std_specs::hash::group_hash_axioms;

        let table = match self.tables.get(&associated_table_id) {
            Some(table) => table.clone(),
            None => {
                return Err(TableError::CatalogError);
            },
        };
        let _ = self.tables.insert(mview_id, table.clone());
        Ok(table)
    }

    /// Removes the materialized view registered under `table_id`.
    pub fn drop_materialized_view(&mut self, table_id: u32) -> (r: Result<(), TableError>)
        ensures
            final(self).spec_state_store() == old(self).spec_state_store(),
            r is Ok <==> old(self)@.contains_key(table_id),
            r is Err ==> r == Err::<(), _>(TableError::InternalError),
            final(self)@ == old(self)@.remove(table_id),
    {
        self.drop_table(table_id)
    }
}

} // verus!

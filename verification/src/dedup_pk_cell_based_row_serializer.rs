//! A row serializer that leaves out the columns of the primary key whose
//! value can be read off the key of the row.

use crate::catalog::{spec_memcomparable_eq_value_enc, ColumnDesc, ColumnId};
use crate::cell_based_row::{
    cell_views, lemma_cells_read_back, optional_cell_view, spec_apply_cells, spec_cell_keys,
    spec_cells, spec_cells_without_filter, spec_distinct_columns, spec_ids_of, spec_nulls,
    spec_row_typed, CellBasedRowSerializer, KeyBytes, RowError, ValueBytes,
    NULL_ROW_SPECIAL_CELL_ID,
};
use crate::row::{clone_datum, datum_view, Datum, Row, ScalarView};
use std::collections::HashSet;
use vstd::prelude::*;

verus! {

/// The positions of the columns that are written: a column is left out
/// only if it belongs to the primary key and the bytes of its value in the
/// key are the bytes of its value in a cell.
pub open spec fn spec_dedup_indices(pk_indices: Seq<usize>, column_descs: Seq<ColumnDesc>) -> Set<
    usize,
> {
    Set::new(
        |i: usize|
            i < column_descs.len() && (!pk_indices.contains(i) || !spec_memcomparable_eq_value_enc(
                column_descs[i as int].data_type,
            )),
    )
}

/// The items whose position is in `indices`, in order.
pub open spec fn spec_filter_by_indices<I>(indices: Set<usize>, items: Seq<I>) -> Seq<I>
    decreases items.len(),
{
    if items.len() == 0 {
        Seq::empty()
    } else {
        let before = spec_filter_by_indices(indices, items.drop_last());
        if indices.contains((items.len() - 1) as usize) {
            before.push(items.last())
        } else {
            before
        }
    }
}

/// Number of positions below `n` that are in `indices`.
pub open spec fn spec_kept_count(indices: Set<usize>, n: int) -> int
    decreases n,
{
    if n <= 0 {
        0
    } else {
        spec_kept_count(indices, n - 1) + if indices.contains((n - 1) as usize) {
            1int
        } else {
            0int
        }
    }
}

/// The position, among `n` items, of the item that ends up at position `a`
/// when the items are filtered.
pub open spec fn spec_kept_source(indices: Set<usize>, n: int, a: int) -> int
    decreases n,
{
    if n <= 0 {
        0
    } else if a < spec_kept_count(indices, n - 1) {
        spec_kept_source(indices, n - 1, a)
    } else {
        n - 1
    }
}

/// What is kept of a list are the items at the kept positions, in order.
pub proof fn lemma_filter_sources<I>(indices: Set<usize>, items: Seq<I>, a: int)
    requires
        items.len() <= usize::MAX,
    ensures
        spec_filter_by_indices(indices, items).len() == spec_kept_count(
            indices,
            items.len() as int,
        ),
        0 <= a < spec_kept_count(indices, items.len() as int) ==> {
            let src = spec_kept_source(indices, items.len() as int, a);
            &&& 0 <= src < items.len()
            &&& indices.contains(src as usize)
            &&& spec_filter_by_indices(indices, items)[a] == items[src]
        },
    decreases items.len(),
{
    if items.len() > 0 {
        lemma_filter_sources(indices, items.drop_last(), a);
    }
}

/// Items that are kept keep their order.
pub proof fn lemma_filter_sources_increase(indices: Set<usize>, n: int, a: int, b: int)
    requires
        0 <= a < b < spec_kept_count(indices, n),
    ensures
        0 <= spec_kept_source(indices, n, a) < spec_kept_source(indices, n, b) < n,
    decreases n,
{
    if n > 0 {
        if b < spec_kept_count(indices, n - 1) {
            lemma_filter_sources_increase(indices, n - 1, a, b);
        } else {
            lemma_kept_source_bound(indices, n - 1, a);
        }
    }
}

/// A kept item comes from within the list.
pub proof fn lemma_kept_source_bound(indices: Set<usize>, n: int, a: int)
    requires
        0 <= a < spec_kept_count(indices, n),
    ensures
        0 <= spec_kept_source(indices, n, a) < n,
    decreases n,
{
    if n > 0 && a < spec_kept_count(indices, n - 1) {
        lemma_kept_source_bound(indices, n - 1, a);
    }
}

/// Filtering and mapping can be done in either order.
pub proof fn lemma_filter_map<I, J>(indices: Set<usize>, items: Seq<I>, f: spec_fn(I) -> J)
    ensures
        spec_filter_by_indices(indices, items).map_values(f) == spec_filter_by_indices(
            indices,
            items.map_values(f),
        ),
    decreases items.len(),
{
    if items.len() == 0 {
        assert(spec_filter_by_indices(indices, items).map_values(f) =~= Seq::<J>::empty());
    } else {
        lemma_filter_map(indices, items.drop_last(), f);
        assert(items.map_values(f).drop_last() =~= items.drop_last().map_values(f));
        let before = spec_filter_by_indices(indices, items.drop_last());
        if indices.contains((items.len() - 1) as usize) {
            assert(before.push(items.last()).map_values(f) =~= before.map_values(f).push(
                f(items.last()),
            ));
        }
    }
}

/// Whether `index` occurs in `indices`.
pub fn contains_index(indices: &[usize], index: usize) -> (found: bool)
    ensures
        found == indices@.contains(index),
{
    let mut i: usize = 0;
    while i < indices.len()
        invariant
            i <= indices@.len(),
            forall|k: int| 0 <= k < i ==> indices@[k] != index,
        decreases indices@.len() - i,
    {
        if indices[i] == index {
            return true;
        }
        i += 1;
    }
    false
}

/// A row serializer that leaves out the columns of the primary key whose
/// value can be read off the key of the row.
pub struct DedupPkCellBasedRowSerializer {
    /// The positions of the columns that are written.
    dedup_datum_indices: HashSet<usize>,
    /// Writes the columns that are left.
    inner: CellBasedRowSerializer,
}

impl DedupPkCellBasedRowSerializer {
    /// The positions of the columns that are written.
    pub closed spec fn spec_indices(&self) -> Set<usize> {
        self.dedup_datum_indices@
    }

    /// The ids of the columns that are written, in order.
    pub closed spec fn spec_column_ids(&self) -> Seq<ColumnId> {
        self.inner.spec_column_ids()
    }

    /// A serializer for rows with the given columns, of which those at
    /// `pk_indices` make up the primary key.
    pub fn new(pk_indices: &[usize], column_descs: &Vec<ColumnDesc>, column_ids: &[ColumnId]) -> (s:
        Self)
        ensures
            s.spec_indices() == spec_dedup_indices(pk_indices@, column_descs@),
            s.spec_column_ids() == spec_filter_by_indices(
                spec_dedup_indices(pk_indices@, column_descs@),
                column_ids@,
            ),
    {
        broadcast use vstd::std_specs::hash::group_hash_axioms;

        let mut dedup_datum_indices: HashSet<usize> = HashSet::new();
        let mut i: usize = 0;
        while i < column_descs.len()
            invariant
                i <= column_descs@.len(),
                forall|k: usize|
                    dedup_datum_indices@.contains(k) <==> k < i && spec_dedup_indices(
                        pk_indices@,
                        column_descs@,
                    ).contains(k),
            decreases column_descs@.len() - i,
        {
            if !contains_index(pk_indices, i) || !column_descs[i].data_type.memcomparable_eq_value_enc() {
                let _ = dedup_datum_indices.insert(i);
            }
            i += 1;
        }
        assert(dedup_datum_indices@ =~= spec_dedup_indices(pk_indices@, column_descs@));
        let dedupped_column_ids = Self::remove_dup_pk_column_ids(&dedup_datum_indices, column_ids);
        let inner = CellBasedRowSerializer::new(dedupped_column_ids);
        DedupPkCellBasedRowSerializer { dedup_datum_indices, inner }
    }

    /// The items whose position is among the positions that are written,
    /// in order.
    pub fn filter_by_dedup_datum_indices<I>(dedup_datum_indices: &HashSet<usize>, items: Vec<I>)
        -> (kept: Vec<I>)
        ensures
            kept@ == spec_filter_by_indices(dedup_datum_indices@, items@),
    {
        broadcast use vstd::std_specs::hash::group_hash_axioms;

        let mut rest = items;
        let mut kept: Vec<I> = Vec::new();
        assert(spec_filter_by_indices(dedup_datum_indices@, rest@) + kept@
            =~= spec_filter_by_indices(dedup_datum_indices@, items@));
        while rest.len() > 0
            invariant
                spec_filter_by_indices(dedup_datum_indices@, rest@) + kept@
                    == spec_filter_by_indices(dedup_datum_indices@, items@),
            decreases rest@.len(),
        {
            let ghost rest_before = rest@;
            let ghost kept_before = kept@;
            let index = rest.len() - 1;
            let item = rest.pop().unwrap();
            assert(rest@ =~= rest_before.drop_last());
            if dedup_datum_indices.contains(&index) {
                kept.insert(0, item);
                assert(spec_filter_by_indices(dedup_datum_indices@, rest@).push(item) + kept_before
                    =~= spec_filter_by_indices(dedup_datum_indices@, rest@) + kept@);
            }
        }
        assert(Seq::<I>::empty() + kept@ =~= kept@);
        kept
    }

    /// The values of the row at the positions that are written, copied.
    pub fn remove_dup_pk_datums_by_ref(&self, row: &Row) -> (kept: Row)
        ensures
            kept@ == spec_filter_by_indices(self.spec_indices(), row@),
    {
        let mut copy: Vec<Datum> = Vec::new();
        let mut i: usize = 0;
        while i < row.0.len()
            invariant
                i <= row.0@.len(),
                copy@.len() == i,
                forall|k: int| 0 <= k < i ==> datum_view(#[trigger] copy@[k]) == datum_view(row.0@[k]),
            decreases row.0@.len() - i,
        {
            copy.push(clone_datum(&row.0[i]));
            i += 1;
        }
        assert(Row(copy)@ =~= row@);
        self.remove_dup_pk_datums(Row(copy))
    }

    /// The values of the row at the positions that are written.
    pub fn remove_dup_pk_datums(&self, row: Row) -> (kept: Row)
        ensures
            kept@ == spec_filter_by_indices(self.spec_indices(), row@),
    {
        let kept = Self::filter_by_dedup_datum_indices(&self.dedup_datum_indices, row.0);
        proof {
            lemma_filter_map(self.dedup_datum_indices@, row.0@, |d: Datum| datum_view(d));
        }
        Row(kept)
    }

    /// The column ids at the positions that are written.
    pub fn remove_dup_pk_column_ids(dedup_datum_indices: &HashSet<usize>, column_ids: &[ColumnId])
        -> (kept: Vec<ColumnId>)
        ensures
            kept@ == spec_filter_by_indices(dedup_datum_indices@, column_ids@),
    {
        let mut all: Vec<ColumnId> = Vec::new();
        let mut i: usize = 0;
        while i < column_ids.len()
            invariant
                i <= column_ids@.len(),
                all@ == column_ids@.subrange(0, i as int),
            decreases column_ids@.len() - i,
        {
            all.push(column_ids[i]);
            assert(column_ids@.subrange(0, i + 1) =~= column_ids@.subrange(0, i as int).push(
                column_ids@[i as int],
            ));
            i += 1;
        }
        assert(column_ids@.subrange(0, i as int) =~= column_ids@);
        Self::filter_by_dedup_datum_indices(dedup_datum_indices, all)
    }

    /// The cells of the values of the row that are written. A row of which
    /// more or fewer values are left than columns is refused.
    pub fn serialize(&mut self, pk: &[u8], row: Row) -> (r: Result<
        Vec<(KeyBytes, ValueBytes)>,
        RowError,
    >)
        ensures
            final(self).spec_indices() == old(self).spec_indices(),
            final(self).spec_column_ids() == old(self).spec_column_ids(),
            r is Ok <==> spec_filter_by_indices(old(self).spec_indices(), row@).len() == old(
                self,
            ).spec_column_ids().len(),
            r is Err ==> r == Err::<Vec<(KeyBytes, ValueBytes)>, _>(RowError::ColumnCountMismatch),
            r matches Ok(cells) ==> cell_views(cells@) == spec_cells(
                pk@,
                old(self).spec_column_ids(),
                spec_filter_by_indices(old(self).spec_indices(), row@),
            ),
    {
        let row = self.remove_dup_pk_datums(row);
        self.inner.serialize(pk, row)
    }

    /// The cell of every column that is written, `None` where the value is
    /// null, and the cell that ends the row.
    pub fn serialize_without_filter(&mut self, pk: &[u8], row: Row) -> (r: Result<
        Vec<Option<(KeyBytes, ValueBytes)>>,
        RowError,
    >)
        ensures
            final(self).spec_indices() == old(self).spec_indices(),
            final(self).spec_column_ids() == old(self).spec_column_ids(),
            r is Ok <==> spec_filter_by_indices(old(self).spec_indices(), row@).len() == old(
                self,
            ).spec_column_ids().len(),
            r is Err ==> r == Err::<Vec<Option<(KeyBytes, ValueBytes)>>, _>(
                RowError::ColumnCountMismatch,
            ),
            r matches Ok(cells) ==> cells@.map_values(
                |c: Option<(KeyBytes, ValueBytes)>| optional_cell_view(c),
            ) == spec_cells_without_filter(
                pk@,
                old(self).spec_column_ids(),
                spec_filter_by_indices(old(self).spec_indices(), row@),
            ),
    {
        let row = self.remove_dup_pk_datums(row);
        self.inner.serialize_without_filter(pk, row)
    }

    /// The key of the cell of every column that is written, and the key of
    /// the cell that ends the row.
    pub fn serialize_cell_key(&mut self, pk: &[u8], row: &Row) -> (r: Result<
        Vec<KeyBytes>,
        RowError,
    >)
        ensures
            final(self).spec_indices() == old(self).spec_indices(),
            final(self).spec_column_ids() == old(self).spec_column_ids(),
            r is Ok <==> spec_filter_by_indices(old(self).spec_indices(), row@).len() == old(
                self,
            ).spec_column_ids().len(),
            r is Err ==> r == Err::<Vec<KeyBytes>, _>(RowError::ColumnCountMismatch),
            r matches Ok(keys) ==> keys@.map_values(|k: KeyBytes| k@) == spec_cell_keys(
                pk@,
                old(self).spec_column_ids(),
            ),
    {
        let row = self.remove_dup_pk_datums_by_ref(row);
        self.inner.serialize_cell_key(pk, &row)
    }

    /// The ids of the columns that are written, in order.
    pub fn column_ids(&self) -> (ids: &[ColumnId])
        ensures
            ids@ == self.spec_column_ids(),
    {
        self.inner.column_ids()
    }
}

/// What is kept of columns with distinct ids has distinct ids, and what is
/// kept of a row whose values have the types of the columns has the types
/// of the columns that are kept.
pub proof fn lemma_filter_keeps_schema(
    indices: Set<usize>,
    column_descs: Seq<ColumnDesc>,
    row: Seq<Option<ScalarView>>,
)
    requires
        column_descs.len() <= usize::MAX,
        spec_distinct_columns(column_descs),
        spec_row_typed(column_descs, row),
    ensures
        spec_distinct_columns(spec_filter_by_indices(indices, column_descs)),
        spec_row_typed(
            spec_filter_by_indices(indices, column_descs),
            spec_filter_by_indices(indices, row),
        ),
{
    let n = column_descs.len() as int;
    let kept = spec_filter_by_indices(indices, column_descs);
    let projected = spec_filter_by_indices(indices, row);
    lemma_filter_sources(indices, column_descs, 0);
    lemma_filter_sources(indices, row, 0);
    assert forall|i: int, j: int| 0 <= i < j < kept.len() implies (#[trigger] kept[i]).column_id.id
        != (#[trigger] kept[j]).column_id.id by {
        lemma_filter_sources(indices, column_descs, i);
        lemma_filter_sources(indices, column_descs, j);
        lemma_filter_sources_increase(indices, n, i, j);
    }
    assert forall|i: int| 0 <= i < kept.len() implies (#[trigger] kept[i]).column_id.id
        != NULL_ROW_SPECIAL_CELL_ID by {
        lemma_filter_sources(indices, column_descs, i);
    }
    assert forall|i: int| 0 <= i < projected.len() implies ((
    #[trigger] projected[i]) matches Some(s) ==> crate::row::spec_type_of(s)
        == kept[i].data_type) by {
        lemma_filter_sources(indices, column_descs, i);
        lemma_filter_sources(indices, row, i);
        let src = spec_kept_source(indices, n, i);
        assert(projected[i] == row[src]);
    }
}

/// Rows read back: the cells that are written for a row, read with the
/// columns that are written, give the values of the row at the positions
/// that are written.
pub proof fn lemma_dedup_round_trip(
    pk: Seq<u8>,
    indices: Set<usize>,
    column_descs: Seq<ColumnDesc>,
    row: Seq<Option<ScalarView>>,
)
    requires
        column_descs.len() <= usize::MAX,
        spec_distinct_columns(column_descs),
        spec_row_typed(column_descs, row),
    ensures
        ({
            let kept = spec_filter_by_indices(indices, column_descs);
            let projected = spec_filter_by_indices(indices, row);
            &&& spec_ids_of(kept) == spec_filter_by_indices(indices, spec_ids_of(column_descs))
            &&& spec_apply_cells(
                kept,
                spec_nulls(kept.len()),
                spec_cells(pk, spec_ids_of(kept), projected),
            ) == Some(projected)
        }),
{
    let kept = spec_filter_by_indices(indices, column_descs);
    let projected = spec_filter_by_indices(indices, row);
    lemma_filter_keeps_schema(indices, column_descs, row);
    lemma_cells_read_back(pk, kept, projected);
    lemma_filter_map(indices, column_descs, |c: ColumnDesc| c.column_id);
}

} // verus!

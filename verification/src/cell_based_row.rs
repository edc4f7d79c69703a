//! Rows as cells: one key-value pair for each value of a row that is not
//! null, and a last one that marks the end of the row.
//!
//! The key of a cell is the key of the row followed by the id of the column,
//! written so that keys sort by column id; the value is the value of the
//! column.

use crate::catalog::{ColumnDesc, ColumnId};
use crate::key::be_u32;
use crate::row::{
    datum_view, deserialize_datum, lemma_decode_encode, serialize_datum,
    spec_decode, spec_encode, spec_type_of, Datum, Row, ScalarView,
};
use crate::value::copy_bytes;
use vstd::prelude::*;

verus! {

/// The column id of the cell that ends a row.
pub const NULL_ROW_SPECIAL_CELL_ID: i32 = -1;

/// The key of a cell.
pub type KeyBytes = Vec<u8>;

/// The value of a cell.
pub type ValueBytes = Vec<u8>;

/// A cell as plain data: its key and its value.
pub type CellView = (Seq<u8>, Seq<u8>);

/// Why a row cannot be written or read.
#[derive(Clone, Copy, Debug, PartialEq, Eq, Structural)]
pub enum RowError {
    /// The row has more or fewer values than there are columns.
    ColumnCountMismatch,
    /// The key of a cell is too short to end in a column id.
    InvalidKey,
    /// The value of a cell is no value of the type of its column.
    InvalidValue,
}

/// The four bytes of a column id in a key: the id moved up by the smallest
/// `i32`, big-endian, so that the bytes sort as the ids do.
pub open spec fn spec_column_id_bytes(id: i32) -> Seq<u8> {
    let moved = id + 0x8000_0000;
    seq![
        (moved / 0x100_0000) as u8,
        (moved / 0x1_0000 % 256) as u8,
        (moved / 0x100 % 256) as u8,
        (moved % 256) as u8,
    ]
}

/// The key of the cell of a column in the row with key `pk`.
pub open spec fn spec_cell_key(pk: Seq<u8>, id: i32) -> Seq<u8> {
    pk + spec_column_id_bytes(id)
}

/// The key of the row that a cell with this key belongs to.
pub open spec fn spec_key_pk(key: Seq<u8>) -> Seq<u8> {
    key.subrange(0, key.len() - 4)
}

/// The column id at the end of the key of a cell.
pub open spec fn spec_key_column_id(key: Seq<u8>) -> i32 {
    (be_u32(key.subrange(key.len() - 4, key.len() as int)) - 0x8000_0000) as i32
}

/// Taking the key of a cell apart gives the key of the row and the column
/// id back.
pub proof fn lemma_cell_key_parts(pk: Seq<u8>, id: i32)
    ensures
        spec_cell_key(pk, id).len() == pk.len() + 4,
        spec_key_pk(spec_cell_key(pk, id)) == pk,
        spec_key_column_id(spec_cell_key(pk, id)) == id,
{
    let key = spec_cell_key(pk, id);
    let moved: u32 = (id + 0x8000_0000) as u32;
    let b0: u32 = moved / 0x100_0000;
    let b1: u32 = moved / 0x1_0000 % 256;
    let b2: u32 = moved / 0x100 % 256;
    let b3: u32 = moved % 256;
    assert(b0 < 256 && b1 < 256 && b2 < 256 && b3 < 256 && moved == b0 * 0x100_0000 + b1 * 0x1_0000
        + b2 * 0x100 + b3) by (bit_vector)
        requires
            b0 == moved / 0x100_0000,
            b1 == moved / 0x1_0000 % 256,
            b2 == moved / 0x100 % 256,
            b3 == moved % 256,
    ;
    let bytes = spec_column_id_bytes(id);
    assert(bytes[0] == b0 && bytes[1] == b1 && bytes[2] == b2 && bytes[3] == b3);
    assert(key.subrange(0, key.len() - 4) =~= pk);
    assert(key.subrange(key.len() - 4, key.len() as int) =~= bytes);
}

/// The key of the cell of a column in the row with key `pk`.
pub fn serialize_pk_and_column_id(pk: &[u8], column_id: &ColumnId) -> (key: KeyBytes)
    ensures
        key@ == spec_cell_key(pk@, column_id.id),
{
    let moved: u32 = (column_id.id as i64 + 0x8000_0000) as u32;
    let mut key = copy_bytes(pk);
    key.push((moved / 0x100_0000) as u8);
    key.push((moved / 0x1_0000 % 256) as u8);
    key.push((moved / 0x100 % 256) as u8);
    key.push((moved % 256) as u8);
    assert(key@ =~= spec_cell_key(pk@, column_id.id));
    key
}

/// The column id at the end of the key of a cell.
pub fn deserialize_column_id(key: &[u8]) -> (id: i32)
    requires
        key@.len() >= 4,
    ensures
        id == spec_key_column_id(key@),
{
    let n = key.len();
    let ghost s = key@.subrange(n - 4, n as int);
    let b0: u32 = key[n - 4] as u32;
    let b1: u32 = key[n - 3] as u32;
    let b2: u32 = key[n - 2] as u32;
    let b3: u32 = key[n - 1] as u32;
    assert(s[0] == b0 && s[1] == b1 && s[2] == b2 && s[3] == b3);
    let moved: u32 = b0 * 0x100_0000 + b1 * 0x1_0000 + b2 * 0x100 + b3;
    (moved as i64 - 0x8000_0000) as i32
}

/// The cell of a column, if its value is not null.
pub open spec fn spec_cell(pk: Seq<u8>, id: i32, datum: Option<ScalarView>) -> Option<CellView> {
    match datum {
        Some(s) => Some((spec_cell_key(pk, id), spec_encode(s))),
        None => None,
    }
}

/// The cell that ends a row.
pub open spec fn spec_sentinel(pk: Seq<u8>) -> CellView {
    (spec_cell_key(pk, NULL_ROW_SPECIAL_CELL_ID), Seq::empty())
}

/// The cells of the first `n` columns whose value is not null, in order.
pub open spec fn spec_present_cells(
    pk: Seq<u8>,
    column_ids: Seq<ColumnId>,
    row: Seq<Option<ScalarView>>,
    n: int,
) -> Seq<CellView>
    decreases n,
{
    if n <= 0 {
        Seq::empty()
    } else {
        let before = spec_present_cells(pk, column_ids, row, n - 1);
        match spec_cell(pk, column_ids[n - 1].id, row[n - 1]) {
            Some(cell) => before.push(cell),
            None => before,
        }
    }
}

/// The cells of a row: those of the columns whose value is not null, in
/// the order of the columns, and the cell that ends the row.
pub open spec fn spec_cells(pk: Seq<u8>, column_ids: Seq<ColumnId>, row: Seq<Option<ScalarView>>)
    -> Seq<CellView> {
    spec_present_cells(pk, column_ids, row, column_ids.len() as int).push(spec_sentinel(pk))
}

/// The cell of every column, `None` where the value is null, and the cell
/// that ends the row.
pub open spec fn spec_cells_without_filter(
    pk: Seq<u8>,
    column_ids: Seq<ColumnId>,
    row: Seq<Option<ScalarView>>,
) -> Seq<Option<CellView>> {
    Seq::new(column_ids.len(), |i: int| spec_cell(pk, column_ids[i].id, row[i])).push(
        Some(spec_sentinel(pk)),
    )
}

/// The key of the cell of every column, and the key of the cell that ends
/// the row.
pub open spec fn spec_cell_keys(pk: Seq<u8>, column_ids: Seq<ColumnId>) -> Seq<Seq<u8>> {
    Seq::new(column_ids.len(), |i: int| spec_cell_key(pk, column_ids[i].id)).push(
        spec_cell_key(pk, NULL_ROW_SPECIAL_CELL_ID),
    )
}

/// The cells as plain data.
pub open spec fn cell_views(cells: Seq<(KeyBytes, ValueBytes)>) -> Seq<CellView> {
    cells.map_values(|c: (KeyBytes, ValueBytes)| (c.0@, c.1@))
}

/// A cell as plain data, if there is one.
pub open spec fn optional_cell_view(cell: Option<(KeyBytes, ValueBytes)>) -> Option<CellView> {
    match cell {
        Some(c) => Some((c.0@, c.1@)),
        None => None,
    }
}

/// Writes rows as cells.
#[derive(Debug)]
pub struct CellBasedRowSerializer {
    column_ids: Vec<ColumnId>,
}

impl CellBasedRowSerializer {
    /// The ids of the columns, in the order of the values of a row.
    pub closed spec fn spec_column_ids(&self) -> Seq<ColumnId> {
        self.column_ids@
    }

    /// A serializer for rows with the given columns.
    pub fn new(column_ids: Vec<ColumnId>) -> (s: Self)
        ensures
            s.spec_column_ids() == column_ids@,
    {
        CellBasedRowSerializer { column_ids }
    }

    /// The cells of a row. A row with more or fewer values than there are
    /// columns is refused.
    pub fn serialize(&mut self, pk: &[u8], row: Row) -> (r: Result<
        Vec<(KeyBytes, ValueBytes)>,
        RowError,
    >)
        ensures
            final(self).spec_column_ids() == old(self).spec_column_ids(),
            r is Ok <==> row@.len() == old(self).spec_column_ids().len(),
            r is Err ==> r == Err::<Vec<(KeyBytes, ValueBytes)>, _>(RowError::ColumnCountMismatch),
            r matches Ok(cells) ==> cell_views(cells@) == spec_cells(
                pk@,
                old(self).spec_column_ids(),
                row@,
            ),
    {
        if row.0.len() != self.column_ids.len() {
            return Err(RowError::ColumnCountMismatch);
        }
        let ghost ids = self.column_ids@;
        let mut cells: Vec<(KeyBytes, ValueBytes)> = Vec::new();
        let mut i: usize = 0;
        assert(cell_views(cells@) =~= spec_present_cells(pk@, ids, row@, 0));
        while i < self.column_ids.len()
            invariant
                i <= self.column_ids@.len(),
                ids == self.column_ids@,
                row.0@.len() == ids.len(),
                cell_views(cells@) == spec_present_cells(pk@, ids, row@, i as int),
            decreases self.column_ids@.len() - i,
        {
            let ghost before = cell_views(cells@);
            match &row.0[i] {
                Some(value) => {
                    let key = serialize_pk_and_column_id(pk, &self.column_ids[i]);
                    let bytes = serialize_datum(value);
                    cells.push((key, bytes));
                    assert(cell_views(cells@) =~= before.push((key@, bytes@)));
                },
                None => {},
            }
            i += 1;
        }
        let ghost before = cell_views(cells@);
        let key = serialize_pk_and_column_id(pk, &ColumnId::new(NULL_ROW_SPECIAL_CELL_ID));
        let empty: Vec<u8> = Vec::new();
        cells.push((key, empty));
        assert(cell_views(cells@) =~= before.push(spec_sentinel(pk@)));
        Ok(cells)
    }

    /// The cell of every column, `None` where the value is null, and the
    /// cell that ends the row. A row with more or fewer values than there
    /// are columns is refused.
    pub fn serialize_without_filter(&mut self, pk: &[u8], row: Row) -> (r: Result<
        Vec<Option<(KeyBytes, ValueBytes)>>,
        RowError,
    >)
        ensures
            final(self).spec_column_ids() == old(self).spec_column_ids(),
            r is Ok <==> row@.len() == old(self).spec_column_ids().len(),
            r is Err ==> r == Err::<Vec<Option<(KeyBytes, ValueBytes)>>, _>(
                RowError::ColumnCountMismatch,
            ),
            r matches Ok(cells) ==> cells@.map_values(
                |c: Option<(KeyBytes, ValueBytes)>| optional_cell_view(c),
            ) == spec_cells_without_filter(pk@, old(self).spec_column_ids(), row@),
    {
        if row.0.len() != self.column_ids.len() {
            return Err(RowError::ColumnCountMismatch);
        }
        let ghost ids = self.column_ids@;
        let ghost view = |c: Option<(KeyBytes, ValueBytes)>| optional_cell_view(c);
        let mut cells: Vec<Option<(KeyBytes, ValueBytes)>> = Vec::new();
        let mut i: usize = 0;
        while i < self.column_ids.len()
            invariant
                i <= self.column_ids@.len(),
                ids == self.column_ids@,
                row.0@.len() == ids.len(),
                view == |c: Option<(KeyBytes, ValueBytes)>| optional_cell_view(c),
                cells@.len() == i,
                forall|k: int|
                    0 <= k < i ==> optional_cell_view(#[trigger] cells@[k]) == spec_cell(
                        pk@,
                        ids[k].id,
                        row@[k],
                    ),
            decreases self.column_ids@.len() - i,
        {
            match &row.0[i] {
                Some(value) => {
                    let key = serialize_pk_and_column_id(pk, &self.column_ids[i]);
                    let bytes = serialize_datum(value);
                    cells.push(Some((key, bytes)));
                },
                None => {
                    cells.push(None);
                },
            }
            i += 1;
        }
        let key = serialize_pk_and_column_id(pk, &ColumnId::new(NULL_ROW_SPECIAL_CELL_ID));
        let empty: Vec<u8> = Vec::new();
        cells.push(Some((key, empty)));
        assert(cells@.map_values(view) =~= spec_cells_without_filter(pk@, ids, row@));
        Ok(cells)
    }

    /// The key of the cell of every column, and the key of the cell that
    /// ends the row.
    pub fn serialize_cell_key(&mut self, pk: &[u8], row: &Row) -> (r: Result<
        Vec<KeyBytes>,
        RowError,
    >)
        ensures
            final(self).spec_column_ids() == old(self).spec_column_ids(),
            r is Ok <==> row@.len() == old(self).spec_column_ids().len(),
            r is Err ==> r == Err::<Vec<KeyBytes>, _>(RowError::ColumnCountMismatch),
            r matches Ok(keys) ==> keys@.map_values(|k: KeyBytes| k@) == spec_cell_keys(
                pk@,
                old(self).spec_column_ids(),
            ),
    {
        if row.0.len() != self.column_ids.len() {
            return Err(RowError::ColumnCountMismatch);
        }
        let ghost ids = self.column_ids@;
        let mut keys: Vec<KeyBytes> = Vec::new();
        let mut i: usize = 0;
        while i < self.column_ids.len()
            invariant
                i <= self.column_ids@.len(),
                ids == self.column_ids@,
                keys@.len() == i,
                forall|k: int| 0 <= k < i ==> (#[trigger] keys@[k])@ == spec_cell_key(pk@, ids[k].id),
            decreases self.column_ids@.len() - i,
        {
            keys.push(serialize_pk_and_column_id(pk, &self.column_ids[i]));
            i += 1;
        }
        keys.push(serialize_pk_and_column_id(pk, &ColumnId::new(NULL_ROW_SPECIAL_CELL_ID)));
        assert(keys@.map_values(|k: KeyBytes| k@) =~= spec_cell_keys(pk@, ids));
        Ok(keys)
    }

    /// The ids of the columns, in the order of the values of a row.
    pub fn column_ids(&self) -> (ids: &[ColumnId])
        ensures
            ids@ == self.spec_column_ids(),
    {
        self.column_ids.as_slice()
    }
}

/// The position of the first column with the given id, or the number of
/// columns if there is none.
pub open spec fn spec_column_index(columns: Seq<ColumnDesc>, id: i32) -> int
    decreases columns.len(),
{
    if columns.len() == 0 {
        0
    } else if columns[0].column_id.id == id {
        0
    } else {
        1 + spec_column_index(columns.skip(1), id)
    }
}

/// The values of a row after a cell has been read into it; `None` if the
/// value of the cell is no value of the type of its column. The cell that
/// ends a row, and a cell of a column that is not known, change nothing.
pub open spec fn spec_apply_cell(
    columns: Seq<ColumnDesc>,
    data: Seq<Option<ScalarView>>,
    cell: CellView,
) -> Option<Seq<Option<ScalarView>>> {
    let id = spec_key_column_id(cell.0);
    let index = spec_column_index(columns, id);
    if id == NULL_ROW_SPECIAL_CELL_ID || index >= columns.len() {
        Some(data)
    } else {
        match spec_decode(columns[index].data_type, cell.1) {
            Some(s) => Some(data.update(index, Some(s))),
            None => None,
        }
    }
}

/// The values of a row after cells have been read into it, one after the
/// other; `None` if one of them could not be read.
pub open spec fn spec_apply_cells(
    columns: Seq<ColumnDesc>,
    data: Seq<Option<ScalarView>>,
    cells: Seq<CellView>,
) -> Option<Seq<Option<ScalarView>>>
    decreases cells.len(),
{
    if cells.len() == 0 {
        Some(data)
    } else {
        match spec_apply_cells(columns, data, cells.drop_last()) {
            Some(before) => spec_apply_cell(columns, before, cells.last()),
            None => None,
        }
    }
}

/// A row of nulls.
pub open spec fn spec_nulls(n: nat) -> Seq<Option<ScalarView>> {
    Seq::new(n, |i: int| None::<ScalarView>)
}

/// The ids of the columns.
pub open spec fn spec_ids_of(columns: Seq<ColumnDesc>) -> Seq<ColumnId> {
    columns.map_values(|c: ColumnDesc| c.column_id)
}

/// Whether no two columns have the same id, and none has the id of the
/// cell that ends a row.
pub open spec fn spec_distinct_columns(columns: Seq<ColumnDesc>) -> bool {
    &&& forall|i: int, j: int|
        0 <= i < j < columns.len() ==> (#[trigger] columns[i]).column_id.id != (
        #[trigger] columns[j]).column_id.id
    &&& forall|i: int|
        0 <= i < columns.len() ==> (#[trigger] columns[i]).column_id.id
            != NULL_ROW_SPECIAL_CELL_ID
}

/// Whether every value of the row that is not null has the type of its
/// column.
pub open spec fn spec_row_typed(columns: Seq<ColumnDesc>, row: Seq<Option<ScalarView>>) -> bool {
    &&& row.len() == columns.len()
    &&& forall|i: int|
        0 <= i < row.len() ==> ((#[trigger] row[i]) matches Some(s) ==> spec_type_of(s)
            == columns[i].data_type)
}

/// Among columns with distinct ids, the first column with the id of
/// column `i` is column `i`.
pub proof fn lemma_column_index(columns: Seq<ColumnDesc>, i: int)
    requires
        spec_distinct_columns(columns),
        0 <= i < columns.len(),
    ensures
        spec_column_index(columns, columns[i].column_id.id) == i,
    decreases columns.len(),
{
    if i > 0 {
        let rest = columns.skip(1);
        assert(rest[i - 1] == columns[i]);
        assert forall|a: int, b: int| 0 <= a < b < rest.len() implies (
        #[trigger] rest[a]).column_id.id != (#[trigger] rest[b]).column_id.id by {
            assert(rest[a] == columns[a + 1] && rest[b] == columns[b + 1]);
        }
        assert forall|a: int| 0 <= a < rest.len() implies (#[trigger] rest[a]).column_id.id
            != NULL_ROW_SPECIAL_CELL_ID by {
            assert(rest[a] == columns[a + 1]);
        }
        lemma_column_index(rest, i - 1);
        assert(columns[0].column_id.id != columns[i].column_id.id);
    }
}

/// The first `n` values of `row`, followed by nulls.
pub open spec fn spec_row_prefix(row: Seq<Option<ScalarView>>, n: int) -> Seq<Option<ScalarView>> {
    Seq::new(
        row.len(),
        |i: int|
            if i < n {
                row[i]
            } else {
                None
            },
    )
}

/// Reading the cells of the first `n` columns into a row of nulls gives
/// the first `n` values of the row.
pub proof fn lemma_present_cells_read_back(
    pk: Seq<u8>,
    columns: Seq<ColumnDesc>,
    row: Seq<Option<ScalarView>>,
    n: int,
)
    requires
        spec_distinct_columns(columns),
        spec_row_typed(columns, row),
        0 <= n <= columns.len(),
    ensures
        spec_apply_cells(
            columns,
            spec_nulls(columns.len()),
            spec_present_cells(pk, spec_ids_of(columns), row, n),
        ) == Some(spec_row_prefix(row, n)),
    decreases n,
{
    let ids = spec_ids_of(columns);
    if n == 0 {
        assert(spec_row_prefix(row, 0) =~= spec_nulls(columns.len()));
    } else {
        lemma_present_cells_read_back(pk, columns, row, n - 1);
        let before = spec_present_cells(pk, ids, row, n - 1);
        match row[n - 1] {
            Some(s) => {
                let cell = (spec_cell_key(pk, ids[n - 1].id), spec_encode(s));
                assert(spec_present_cells(pk, ids, row, n) == before.push(cell));
                assert(before.push(cell).drop_last() =~= before);
                lemma_cell_key_parts(pk, ids[n - 1].id);
                lemma_column_index(columns, n - 1);
                lemma_decode_encode(s);
                assert(spec_row_prefix(row, n - 1).update(n - 1, Some(s)) =~= spec_row_prefix(
                    row,
                    n,
                ));
            },
            None => {
                assert(spec_row_prefix(row, n - 1) =~= spec_row_prefix(row, n));
            },
        }
    }
}

/// Rows read back: reading the cells of a row, whose values have the types
/// of their columns, with the same columns gives the row.
pub proof fn lemma_cells_read_back(pk: Seq<u8>, columns: Seq<ColumnDesc>, row: Seq<Option<ScalarView>>)
    requires
        spec_distinct_columns(columns),
        spec_row_typed(columns, row),
    ensures
        spec_apply_cells(
            columns,
            spec_nulls(columns.len()),
            spec_cells(pk, spec_ids_of(columns), row),
        ) == Some(row),
{
    let ids = spec_ids_of(columns);
    let present = spec_present_cells(pk, ids, row, columns.len() as int);
    lemma_present_cells_read_back(pk, columns, row, columns.len() as int);
    assert(spec_row_prefix(row, columns.len() as int) =~= row);
    assert(present.push(spec_sentinel(pk)).drop_last() =~= present);
    lemma_cell_key_parts(pk, NULL_ROW_SPECIAL_CELL_ID);
}

/// Reads rows from cells.
#[derive(Debug)]
pub struct CellBasedRowDeserializer {
    column_descs: Vec<ColumnDesc>,
    data: Vec<Datum>,
    pk_bytes: Option<Vec<u8>>,
}

/// The key of a row, if there is one.
pub open spec fn optional_bytes_view(bytes: Option<Vec<u8>>) -> Option<Seq<u8>> {
    match bytes {
        Some(b) => Some(b@),
        None => None,
    }
}

/// A row with its key, if there is one.
pub open spec fn optional_row_view(row: Option<(Vec<u8>, Row)>) -> Option<
    (Seq<u8>, Seq<Option<ScalarView>>),
> {
    match row {
        Some(r) => Some((r.0@, r.1@)),
        None => None,
    }
}

impl CellBasedRowDeserializer {
    /// The columns of the rows.
    pub closed spec fn columns(&self) -> Seq<ColumnDesc> {
        self.column_descs@
    }

    /// The values read so far of the row at hand.
    pub closed spec fn pending(&self) -> Seq<Option<ScalarView>> {
        self.data@.map_values(|d: Datum| datum_view(d))
    }

    /// The key of the row at hand, if a cell of it has been read.
    pub closed spec fn pending_pk(&self) -> Option<Seq<u8>> {
        optional_bytes_view(self.pk_bytes)
    }

    /// There is a place for the value of every column.
    pub open spec fn wf(&self) -> bool {
        self.pending().len() == self.columns().len()
    }

    /// A row of nulls, one for each of `n` columns.
    fn nulls(n: usize) -> (data: Vec<Datum>)
        ensures
            data@.map_values(|d: Datum| datum_view(d)) == spec_nulls(n as nat),
    {
        let mut data: Vec<Datum> = Vec::new();
        let mut i: usize = 0;
        while i < n
            invariant
                i <= n,
                data@.len() == i,
                forall|k: int| 0 <= k < i ==> (#[trigger] data@[k]) is None,
            decreases n - i,
        {
            data.push(None);
            i += 1;
        }
        assert(data@.map_values(|d: Datum| datum_view(d)) =~= spec_nulls(n as nat));
        data
    }

    /// A deserializer for rows with the given columns, with no row at hand.
    pub fn new(column_descs: Vec<ColumnDesc>) -> (d: Self)
        ensures
            d.wf(),
            d.columns() == column_descs@,
            d.pending() == spec_nulls(column_descs@.len()),
            d.pending_pk() is None,
    {
        let data = Self::nulls(column_descs.len());
        CellBasedRowDeserializer { column_descs, data, pk_bytes: None }
    }

    /// The position of the first column with the given id, or the number
    /// of columns if there is none.
    fn column_index(&self, id: i32) -> (index: usize)
        ensures
            index == spec_column_index(self.columns(), id),
            index <= self.columns().len(),
    {
        let mut i: usize = 0;
        assert(self.column_descs@.skip(0) =~= self.column_descs@);
        while i < self.column_descs.len()
            invariant
                i <= self.column_descs@.len(),
                spec_column_index(self.column_descs@, id) == i + spec_column_index(
                    self.column_descs@.skip(i as int),
                    id,
                ),
            decreases self.column_descs@.len() - i,
        {
            assert(self.column_descs@.skip(i as int)[0] == self.column_descs@[i as int]);
            if self.column_descs[i].column_id.id == id {
                return i;
            }
            assert(self.column_descs@.skip(i as int).skip(1) =~= self.column_descs@.skip(i + 1));
            i += 1;
        }
        i
    }

    /// Reads a cell. If the cell belongs to another row than the one at
    /// hand, the row at hand is returned with its key and a new row is
    /// begun. A key that is too short, and a value that is no value of the
    /// type of its column, are refused and change nothing.
    pub fn deserialize(&mut self, pk_with_cell_id: &[u8], cell: &[u8]) -> (r: Result<
        Option<(Vec<u8>, Row)>,
        RowError,
    >)
        requires
            old(self).wf(),
        ensures
            final(self).wf(),
            final(self).columns() == old(self).columns(),
            pk_with_cell_id@.len() < 4 ==> r == Err::<Option<(Vec<u8>, Row)>, _>(
                RowError::InvalidKey,
            ),
            r is Err ==> final(self).pending() == old(self).pending() && final(self).pending_pk()
                == old(self).pending_pk(),
            pk_with_cell_id@.len() >= 4 ==> {
                let pk = spec_key_pk(pk_with_cell_id@);
                let other_row = old(self).pending_pk() is Some && old(self).pending_pk()->0 != pk;
                let base = if other_row {
                    spec_nulls(old(self).columns().len())
                } else {
                    old(self).pending()
                };
                match spec_apply_cell(old(self).columns(), base, (pk_with_cell_id@, cell@)) {
                    None => r == Err::<Option<(Vec<u8>, Row)>, _>(RowError::InvalidValue),
                    Some(data) => {
                        &&& r is Ok
                        &&& final(self).pending() == data
                        &&& final(self).pending_pk() == Some(pk)
                        &&& optional_row_view(r->Ok_0) == if other_row {
                            Some((old(self).pending_pk()->0, old(self).pending()))
                        } else {
                            None
                        }
                    },
                }
            },
    {
        if pk_with_cell_id.len() < 4 {
            return Err(RowError::InvalidKey);
        }
        assert(self.data@.len() == self.pending().len());
        let pk = vstd::slice::slice_subrange(pk_with_cell_id, 0, pk_with_cell_id.len() - 4);
        let id = deserialize_column_id(pk_with_cell_id);
        let index = self.column_index(id);
        let value = if id == NULL_ROW_SPECIAL_CELL_ID || index >= self.column_descs.len() {
            None
        } else {
            match deserialize_datum(self.column_descs[index].data_type, cell) {
                Some(v) => Some(v),
                None => {
                    return Err(RowError::InvalidValue);
                },
            }
        };
        let other_row = match &self.pk_bytes {
            Some(current) => !bytes_equal(current.as_slice(), pk),
            None => false,
        };
        let mut finished: Option<(Vec<u8>, Row)> = None;
        if other_row {
            let mut data = Self::nulls(self.column_descs.len());
            core::mem::swap(&mut self.data, &mut data);
            let old_pk = self.pk_bytes.take().unwrap();
            finished = Some((old_pk, Row(data)));
        }
        if self.pk_bytes.is_none() {
            self.pk_bytes = Some(copy_bytes(pk));
        }
        if let Some(v) = value {
            let ghost before = self.data@.map_values(|d: Datum| datum_view(d));
            assert(self.data@.len() == before.len());
            self.data.set(index, Some(v));
            assert(self.data@.map_values(|d: Datum| datum_view(d)) =~= before.update(
                index as int,
                Some(v@),
            ));
        }
        Ok(finished)
    }

    /// Hands out the row at hand with its key, if there is one, and begins
    /// anew.
    pub fn take(&mut self) -> (r: Option<(Vec<u8>, Row)>)
        requires
            old(self).wf(),
        ensures
            final(self).wf(),
            final(self).columns() == old(self).columns(),
            final(self).pending() == spec_nulls(old(self).columns().len()),
            final(self).pending_pk() is None,
            optional_row_view(r) == match old(self).pending_pk() {
                Some(pk) => Some((pk, old(self).pending())),
                None => None,
            },
    {
        let mut data = Self::nulls(self.column_descs.len());
        core::mem::swap(&mut self.data, &mut data);
        match self.pk_bytes.take() {
            Some(pk) => Some((pk, Row(data))),
            None => None,
        }
    }
}

/// Whether two byte strings are equal.
pub fn bytes_equal(a: &[u8], b: &[u8]) -> (eq: bool)
    ensures
        eq == (a@ == b@),
{
    if a.len() != b.len() {
        return false;
    }
    let mut i: usize = 0;
    while i < a.len()
        invariant
            i <= a@.len(),
            a@.len() == b@.len(),
            forall|k: int| 0 <= k < i ==> a@[k] == b@[k],
        decreases a@.len() - i,
    {
        if a[i] != b[i] {
            return false;
        }
        i += 1;
    }
    assert(a@ =~= b@);
    true
}

/// A deserializer for rows with the given columns.
pub fn make_cell_based_row_deserializer(column_descs: Vec<ColumnDesc>) -> (d:
    CellBasedRowDeserializer)
    ensures
        d.wf(),
        d.columns() == column_descs@,
        d.pending() == spec_nulls(column_descs@.len()),
        d.pending_pk() is None,
{
    CellBasedRowDeserializer::new(column_descs)
}

} // verus!

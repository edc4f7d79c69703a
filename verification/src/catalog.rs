//! Columns and their types.

use vstd::prelude::*;

verus! {

/// The id of a column.
#[derive(Clone, Copy, Debug, PartialEq, Eq, Structural)]
pub struct ColumnId {
    pub id: i32,
}

impl ColumnId {
    /// The column id with the given number.
    pub fn new(id: i32) -> (c: ColumnId)
        ensures
            c.id == id,
    {
        ColumnId { id }
    }

    /// The number of the column id.
    pub fn get_id(&self) -> (id: i32)
        ensures
            id == self.id,
    {
        self.id
    }
}

/// The type of the values of a column.
#[derive(Clone, Copy, Debug, PartialEq, Eq, Structural)]
pub enum DataType {
    Boolean,
    Int16,
    Int32,
    Int64,
    Float32,
    Float64,
    Decimal,
    Date,
    Varchar,
    Time,
    Timestamp,
    Timestampz,
    Interval,
}

/// Whether the bytes of a value of the type in a memory-comparable key are
/// the bytes of the value in a cell: this holds of booleans and integers.
pub open spec fn spec_memcomparable_eq_value_enc(data_type: DataType) -> bool {
    data_type == DataType::Boolean || data_type == DataType::Int16 || data_type == DataType::Int32
        || data_type == DataType::Int64
}

impl DataType {
    /// Whether the bytes of a value of the type in a memory-comparable key
    /// are the bytes of the value in a cell.
    pub fn memcomparable_eq_value_enc(&self) -> (same: bool)
        ensures
            same == spec_memcomparable_eq_value_enc(*self),
    {
        match self {
            DataType::Boolean | DataType::Int16 | DataType::Int32 | DataType::Int64 => true,
            _ => false,
        }
    }
}

/// A column of a table.
#[derive(Clone, Copy, Debug, PartialEq, Eq, Structural)]
pub struct ColumnDesc {
    pub data_type: DataType,
    pub column_id: ColumnId,
}

impl ColumnDesc {
    /// A column without a name.
    pub fn unnamed(column_id: ColumnId, data_type: DataType) -> (c: ColumnDesc)
        ensures
            c == (ColumnDesc { data_type, column_id }),
    {
        ColumnDesc { data_type, column_id }
    }
}

/// The direction in which a column orders rows.
#[derive(Clone, Copy, Debug, PartialEq, Eq, Structural)]
pub enum OrderType {
    Ascending,
    Descending,
}

} // verus!

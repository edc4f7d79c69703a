//! Rows of values, and how a value is written into a cell.

use crate::catalog::DataType;
use crate::value::copy_bytes;
use vstd::bytes::{
    lemma_auto_spec_u16_to_from_le_bytes, lemma_auto_spec_u32_to_from_le_bytes,
    lemma_auto_spec_u64_to_from_le_bytes, spec_u16_from_le_bytes, spec_u16_to_le_bytes,
    spec_u32_from_le_bytes, spec_u32_to_le_bytes, spec_u64_from_le_bytes, spec_u64_to_le_bytes,
    u16_from_le_bytes, u16_to_le_bytes, u32_from_le_bytes, u32_to_le_bytes, u64_from_le_bytes,
    u64_to_le_bytes,
};
use vstd::prelude::*;

verus! {

/// A value of a column. Floating-point numbers are held by their bits.
#[derive(Debug, PartialEq, Eq)]
pub enum ScalarImpl {
    Bool(bool),
    Int16(i16),
    Int32(i32),
    Int64(i64),
    Float32(u32),
    Float64(u64),
    Utf8(Vec<u8>),
}

/// What a value holds.
pub enum ScalarView {
    Bool(bool),
    Int16(i16),
    Int32(i32),
    Int64(i64),
    Float32(u32),
    Float64(u64),
    Utf8(Seq<u8>),
}

impl View for ScalarImpl {
    type V = ScalarView;

    open spec fn view(&self) -> ScalarView {
        match self {
            ScalarImpl::Bool(b) => ScalarView::Bool(*b),
            ScalarImpl::Int16(x) => ScalarView::Int16(*x),
            ScalarImpl::Int32(x) => ScalarView::Int32(*x),
            ScalarImpl::Int64(x) => ScalarView::Int64(*x),
            ScalarImpl::Float32(x) => ScalarView::Float32(*x),
            ScalarImpl::Float64(x) => ScalarView::Float64(*x),
            ScalarImpl::Utf8(s) => ScalarView::Utf8(s@),
        }
    }
}

impl Clone for ScalarImpl {
    fn clone(&self) -> (s: ScalarImpl)
        ensures
            s@ == self@,
    {
        match self {
            ScalarImpl::Bool(b) => ScalarImpl::Bool(*b),
            ScalarImpl::Int16(x) => ScalarImpl::Int16(*x),
            ScalarImpl::Int32(x) => ScalarImpl::Int32(*x),
            ScalarImpl::Int64(x) => ScalarImpl::Int64(*x),
            ScalarImpl::Float32(x) => ScalarImpl::Float32(*x),
            ScalarImpl::Float64(x) => ScalarImpl::Float64(*x),
            ScalarImpl::Utf8(s) => ScalarImpl::Utf8(copy_bytes(s.as_slice())),
        }
    }
}

/// A value, or null.
pub type Datum = Option<ScalarImpl>;

/// What a datum holds.
pub open spec fn datum_view(d: Datum) -> Option<ScalarView> {
    match d {
        Some(s) => Some(s@),
        None => None,
    }
}

/// Copies a datum.
pub fn clone_datum(d: &Datum) -> (c: Datum)
    ensures
        datum_view(c) == datum_view(*d),
{
    match d {
        Some(s) => Some(s.clone()),
        None => None,
    }
}

/// A row: one datum for each column.
#[derive(Debug, PartialEq, Eq)]
pub struct Row(pub Vec<Datum>);

impl View for Row {
    type V = Seq<Option<ScalarView>>;

    open spec fn view(&self) -> Seq<Option<ScalarView>> {
        self.0@.map_values(|d: Datum| datum_view(d))
    }
}

/// The type of a value.
pub open spec fn spec_type_of(s: ScalarView) -> DataType {
    match s {
        ScalarView::Bool(_) => DataType::Boolean,
        ScalarView::Int16(_) => DataType::Int16,
        ScalarView::Int32(_) => DataType::Int32,
        ScalarView::Int64(_) => DataType::Int64,
        ScalarView::Float32(_) => DataType::Float32,
        ScalarView::Float64(_) => DataType::Float64,
        ScalarView::Utf8(_) => DataType::Varchar,
    }
}

/// The bytes of a value in a cell: a boolean is one byte, zero or one; an
/// integer is moved up by the smallest integer of its type and written
/// little-endian; a floating-point number is its bits, little-endian; a
/// string is its bytes.
pub open spec fn spec_encode(s: ScalarView) -> Seq<u8> {
    match s {
        ScalarView::Bool(b) => seq![if b {
            1u8
        } else {
            0u8
        }],
        ScalarView::Int16(x) => spec_u16_to_le_bytes((x + 0x8000) as u16),
        ScalarView::Int32(x) => spec_u32_to_le_bytes((x + 0x8000_0000) as u32),
        ScalarView::Int64(x) => spec_u64_to_le_bytes((x + 0x8000_0000_0000_0000) as u64),
        ScalarView::Float32(x) => spec_u32_to_le_bytes(x),
        ScalarView::Float64(x) => spec_u64_to_le_bytes(x),
        ScalarView::Utf8(bytes) => bytes,
    }
}

/// The value of the given type that the bytes of a cell spell, if they
/// spell one.
pub open spec fn spec_decode(data_type: DataType, bytes: Seq<u8>) -> Option<ScalarView> {
    match data_type {
        DataType::Boolean => if bytes.len() == 1 && bytes[0] <= 1 {
            Some(ScalarView::Bool(bytes[0] == 1))
        } else {
            None
        },
        DataType::Int16 => if bytes.len() == 2 {
            Some(ScalarView::Int16((spec_u16_from_le_bytes(bytes) - 0x8000) as i16))
        } else {
            None
        },
        DataType::Int32 => if bytes.len() == 4 {
            Some(ScalarView::Int32((spec_u32_from_le_bytes(bytes) - 0x8000_0000) as i32))
        } else {
            None
        },
        DataType::Int64 => if bytes.len() == 8 {
            Some(ScalarView::Int64((spec_u64_from_le_bytes(bytes) - 0x8000_0000_0000_0000) as i64))
        } else {
            None
        },
        DataType::Float32 => if bytes.len() == 4 {
            Some(ScalarView::Float32(spec_u32_from_le_bytes(bytes)))
        } else {
            None
        },
        DataType::Float64 => if bytes.len() == 8 {
            Some(ScalarView::Float64(spec_u64_from_le_bytes(bytes)))
        } else {
            None
        },
        DataType::Varchar => Some(ScalarView::Utf8(bytes)),
        _ => None,
    }
}

/// Reading the bytes of a value as its type gives the value back.
pub proof fn lemma_decode_encode(s: ScalarView)
    ensures
        spec_decode(spec_type_of(s), spec_encode(s)) == Some(s),
{
    lemma_auto_spec_u16_to_from_le_bytes();
    lemma_auto_spec_u32_to_from_le_bytes();
    lemma_auto_spec_u64_to_from_le_bytes();
    match s {
        ScalarView::Int16(x) => {
            assert(spec_u16_to_le_bytes((x + 0x8000) as u16).len() == 2);
        },
        ScalarView::Int32(x) => {
            assert(spec_u32_to_le_bytes((x + 0x8000_0000) as u32).len() == 4);
        },
        ScalarView::Int64(x) => {
            assert(spec_u64_to_le_bytes((x + 0x8000_0000_0000_0000) as u64).len() == 8);
        },
        ScalarView::Float32(x) => {
            assert(spec_u32_to_le_bytes(x).len() == 4);
        },
        ScalarView::Float64(x) => {
            assert(spec_u64_to_le_bytes(x).len() == 8);
        },
        _ => {},
    }
}

/// The bytes of a value in a cell.
pub fn serialize_datum(s: &ScalarImpl) -> (bytes: Vec<u8>)
    ensures
        bytes@ == spec_encode(s@),
{
    match s {
        ScalarImpl::Bool(b) => {
            let mut v: Vec<u8> = Vec::new();
            v.push(if *b {
                1u8
            } else {
                0u8
            });
            assert(v@ =~= spec_encode(s@));
            v
        },
        ScalarImpl::Int16(x) => u16_to_le_bytes((*x as i32 + 0x8000) as u16),
        ScalarImpl::Int32(x) => u32_to_le_bytes((*x as i64 + 0x8000_0000) as u32),
        ScalarImpl::Int64(x) => u64_to_le_bytes((*x as i128 + 0x8000_0000_0000_0000) as u64),
        ScalarImpl::Float32(x) => u32_to_le_bytes(*x),
        ScalarImpl::Float64(x) => u64_to_le_bytes(*x),
        ScalarImpl::Utf8(bytes) => copy_bytes(bytes.as_slice()),
    }
}

/// The value of the given type that the bytes of a cell spell, if they
/// spell one.
pub fn deserialize_datum(data_type: DataType, bytes: &[u8]) -> (s: Option<ScalarImpl>)
    ensures
        datum_view(s) == spec_decode(data_type, bytes@),
{
    match data_type {
        DataType::Boolean => {
            if bytes.len() == 1 && bytes[0] <= 1 {
                Some(ScalarImpl::Bool(bytes[0] == 1))
            } else {
                None
            }
        },
        DataType::Int16 => {
            if bytes.len() == 2 {
                Some(ScalarImpl::Int16((u16_from_le_bytes(bytes) as i32 - 0x8000) as i16))
            } else {
                None
            }
        },
        DataType::Int32 => {
            if bytes.len() == 4 {
                Some(ScalarImpl::Int32((u32_from_le_bytes(bytes) as i64 - 0x8000_0000) as i32))
            } else {
                None
            }
        },
        DataType::Int64 => {
            if bytes.len() == 8 {
                Some(
                    ScalarImpl::Int64(
                        (u64_from_le_bytes(bytes) as i128 - 0x8000_0000_0000_0000) as i64,
                    ),
                )
            } else {
                None
            }
        },
        DataType::Float32 => {
            if bytes.len() == 4 {
                Some(ScalarImpl::Float32(u32_from_le_bytes(bytes)))
            } else {
                None
            }
        },
        DataType::Float64 => {
            if bytes.len() == 8 {
                Some(ScalarImpl::Float64(u64_from_le_bytes(bytes)))
            } else {
                None
            }
        },
        DataType::Varchar => Some(ScalarImpl::Utf8(copy_bytes(bytes))),
        _ => None,
    }
}

} // verus!

use hummock::catalog::{ColumnDesc, ColumnId, DataType};
use hummock::cell_based_row::{
    make_cell_based_row_deserializer, CellBasedRowSerializer, RowError,
    NULL_ROW_SPECIAL_CELL_ID,
};
use hummock::dedup_pk_cell_based_row_serializer::DedupPkCellBasedRowSerializer;
use hummock::row::{deserialize_datum, serialize_datum, Row, ScalarImpl};
use itertools::Itertools;
use std::collections::HashSet;

#[test]
fn test_dedup_pk_serialization() {
    let pk_indices = vec![1, 3];
    let column_descs = vec![
        ColumnDesc::unnamed(ColumnId::new(0), DataType::Int32),
        ColumnDesc::unnamed(ColumnId::new(1), DataType::Int32),
        ColumnDesc::unnamed(ColumnId::new(2), DataType::Int32),
        ColumnDesc::unnamed(ColumnId::new(3), DataType::Float64), // test memcmp != value enc.
    ];
    let column_ids = column_descs.iter().map(|c| c.column_id).collect_vec();
    let mut serializer =
        DedupPkCellBasedRowSerializer::new(&pk_indices, &column_descs, &column_ids);
    let pk = vec![];
    let input = Row(vec![
        Some(ScalarImpl::Int32(1)),
        Some(ScalarImpl::Int32(11)),
        Some(ScalarImpl::Int32(111)),
        Some(ScalarImpl::Float64(1111_f64.to_bits())),
    ]);
    let actual = serializer.serialize(&pk, input).unwrap();
    // datums not in pk (2)
    // + datums whose memcmp not equal to value enc (1)
    // + delimiter cell (1)
    assert!(actual.len() == 4);

    // follows exact layout of serialized cells
    let compact_descs = vec![
        ColumnDesc::unnamed(ColumnId::new(0), DataType::Int32),
        // dedupped pk datum: ColumnDesc::unnamed(ColumnId::new(1), DataType::Int32),
        ColumnDesc::unnamed(ColumnId::new(2), DataType::Int32),
        ColumnDesc::unnamed(ColumnId::new(3), DataType::Float64), // test memcmp != value enc.
    ];
    let mut compact_deserializer = make_cell_based_row_deserializer(compact_descs);
    for (pk_with_cell_id, cell) in &actual {
        compact_deserializer.deserialize(pk_with_cell_id, cell).unwrap();
    }
    let (_k, row) = compact_deserializer.take().unwrap();
    let compact_expected = Row(vec![
        Some(ScalarImpl::Int32(1)),
        Some(ScalarImpl::Int32(111)),
        Some(ScalarImpl::Float64(1111_f64.to_bits())),
    ]);
    assert_eq!(row, compact_expected);

    let mut normal_deserializer = make_cell_based_row_deserializer(column_descs);
    for (pk_with_cell_id, cell) in actual {
        normal_deserializer.deserialize(&pk_with_cell_id, &cell).unwrap();
    }
    let (_k, row) = normal_deserializer.take().unwrap();
    let normal_expected = Row(vec![
        Some(ScalarImpl::Int32(1)),
        None,
        Some(ScalarImpl::Int32(111)),
        Some(ScalarImpl::Float64(1111_f64.to_bits())),
    ]);
    assert_eq!(row, normal_expected);
}

#[test]
fn only_key_columns_with_the_same_bytes_are_left_out() {
    let descs = vec![
        ColumnDesc::unnamed(ColumnId::new(10), DataType::Int64),
        ColumnDesc::unnamed(ColumnId::new(11), DataType::Varchar),
        ColumnDesc::unnamed(ColumnId::new(12), DataType::Boolean),
        ColumnDesc::unnamed(ColumnId::new(13), DataType::Int16),
        ColumnDesc::unnamed(ColumnId::new(14), DataType::Timestamp),
    ];
    let ids = descs.iter().map(|c| c.column_id).collect_vec();
    let serializer = DedupPkCellBasedRowSerializer::new(&[0, 1, 2, 4], &descs, &ids);
    assert_eq!(
        serializer.column_ids().iter().map(|c| c.get_id()).collect_vec(),
        vec![11, 13, 14]
    );
    assert!(DataType::Boolean.memcomparable_eq_value_enc());
    assert!(DataType::Int16.memcomparable_eq_value_enc());
    assert!(DataType::Int32.memcomparable_eq_value_enc());
    assert!(DataType::Int64.memcomparable_eq_value_enc());
    for t in [
        DataType::Float32,
        DataType::Float64,
        DataType::Decimal,
        DataType::Date,
        DataType::Varchar,
        DataType::Time,
        DataType::Timestamp,
        DataType::Timestampz,
        DataType::Interval,
    ] {
        assert!(!t.memcomparable_eq_value_enc());
    }
}

#[test]
fn filtering_by_index_keeps_the_order() {
    let indices: HashSet<usize> = HashSet::from([0, 2, 3, 9]);
    let kept = DedupPkCellBasedRowSerializer::filter_by_dedup_datum_indices(
        &indices,
        vec!["a", "b", "c", "d", "e"],
    );
    assert_eq!(kept, vec!["a", "c", "d"]);
    let none = DedupPkCellBasedRowSerializer::filter_by_dedup_datum_indices(
        &HashSet::new(),
        vec![1, 2, 3],
    );
    assert!(none.is_empty());
    let ids = [ColumnId::new(5), ColumnId::new(6), ColumnId::new(7)];
    let kept = DedupPkCellBasedRowSerializer::remove_dup_pk_column_ids(&indices, &ids);
    assert_eq!(kept, vec![ColumnId::new(5), ColumnId::new(7)]);
}

#[test]
fn cells_have_the_row_key_the_column_id_and_the_value() {
    let mut serializer =
        CellBasedRowSerializer::new(vec![ColumnId::new(0), ColumnId::new(1), ColumnId::new(-5)]);
    let row = || Row(vec![Some(ScalarImpl::Int32(-2)), None, Some(ScalarImpl::Utf8(b"hi".to_vec()))]);
    let cells = serializer.serialize(b"pk", row()).unwrap();
    assert_eq!(
        cells,
        vec![
            (vec![b'p', b'k', 0x80, 0, 0, 0], vec![0xfe, 0xff, 0xff, 0x7f]),
            (vec![b'p', b'k', 0x7f, 0xff, 0xff, 0xfb], b"hi".to_vec()),
            (vec![b'p', b'k', 0x7f, 0xff, 0xff, 0xff], vec![]),
        ]
    );
    assert_eq!(NULL_ROW_SPECIAL_CELL_ID, -1);
    let all = serializer.serialize_without_filter(b"pk", row()).unwrap();
    assert_eq!(all.len(), 4);
    assert_eq!(all[0].as_ref(), Some(&cells[0]));
    assert!(all[1].is_none());
    assert_eq!(all[2].as_ref(), Some(&cells[1]));
    assert_eq!(all[3].as_ref(), Some(&cells[2]));
    let keys = serializer.serialize_cell_key(b"pk", &row()).unwrap();
    assert_eq!(keys.len(), 4);
    assert_eq!(keys[1], vec![b'p', b'k', 0x80, 0, 0, 1]);
    assert_eq!(keys[3], cells[2].0);
    assert_eq!(
        serializer.serialize(b"pk", Row(vec![None])),
        Err(RowError::ColumnCountMismatch)
    );
}

#[test]
fn values_read_back_as_they_were_written() {
    let values = vec![
        (DataType::Boolean, ScalarImpl::Bool(true), vec![1u8]),
        (DataType::Boolean, ScalarImpl::Bool(false), vec![0u8]),
        (DataType::Int16, ScalarImpl::Int16(i16::MIN), vec![0, 0]),
        (DataType::Int16, ScalarImpl::Int16(-1), vec![0xff, 0x7f]),
        (DataType::Int32, ScalarImpl::Int32(0), vec![0, 0, 0, 0x80]),
        (DataType::Int32, ScalarImpl::Int32(i32::MAX), vec![0xff; 4]),
        (DataType::Int64, ScalarImpl::Int64(1), vec![1, 0, 0, 0, 0, 0, 0, 0x80]),
        (DataType::Float32, ScalarImpl::Float32(1.5f32.to_bits()), 1.5f32.to_le_bytes().to_vec()),
        (DataType::Float64, ScalarImpl::Float64((-2.25f64).to_bits()), (-2.25f64).to_le_bytes().to_vec()),
        (DataType::Varchar, ScalarImpl::Utf8(b"text".to_vec()), b"text".to_vec()),
    ];
    for (data_type, value, bytes) in values {
        assert_eq!(serialize_datum(&value), bytes);
        assert_eq!(deserialize_datum(data_type, &bytes), Some(value));
    }
    assert_eq!(deserialize_datum(DataType::Boolean, &[2]), None);
    assert_eq!(deserialize_datum(DataType::Int32, &[1, 2, 3]), None);
    assert_eq!(deserialize_datum(DataType::Interval, &[1, 2, 3]), None);
}

#[test]
fn a_deserializer_hands_out_a_row_when_the_next_one_begins() {
    let descs = vec![
        ColumnDesc::unnamed(ColumnId::new(1), DataType::Int32),
        ColumnDesc::unnamed(ColumnId::new(2), DataType::Boolean),
    ];
    let mut serializer = CellBasedRowSerializer::new(vec![ColumnId::new(1), ColumnId::new(2)]);
    let first = serializer
        .serialize(b"a", Row(vec![Some(ScalarImpl::Int32(7)), Some(ScalarImpl::Bool(true))]))
        .unwrap();
    let second = serializer.serialize(b"b", Row(vec![None, Some(ScalarImpl::Bool(false))])).unwrap();
    let mut deserializer = make_cell_based_row_deserializer(descs);
    assert_eq!(deserializer.take(), None);
    for (k, v) in &first {
        assert_eq!(deserializer.deserialize(k, v), Ok(None));
    }
    let mut finished = vec![];
    for (k, v) in &second {
        if let Some(row) = deserializer.deserialize(k, v).unwrap() {
            finished.push(row);
        }
    }
    assert_eq!(
        finished,
        vec![(b"a".to_vec(), Row(vec![Some(ScalarImpl::Int32(7)), Some(ScalarImpl::Bool(true))]))]
    );
    assert_eq!(deserializer.deserialize(b"abc", b""), Err(RowError::InvalidKey));
    assert_eq!(
        deserializer.deserialize(&second[0].0, b"not a boolean"),
        Err(RowError::InvalidValue)
    );
    assert_eq!(
        deserializer.take(),
        Some((b"b".to_vec(), Row(vec![None, Some(ScalarImpl::Bool(false))])))
    );
    assert_eq!(deserializer.take(), None);
}

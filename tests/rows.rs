use automerge::col_decoders::{ColDecoder, SimpleColDecoder};
use automerge::column::{Column, CopyRange, GroupedColumn, SimpleColType};
use automerge::column_spec::{ColumnId, ColumnSpec, ColumnType};
use automerge::decoding::DecodeError;
use automerge::rowblock::RowBlock;
use automerge::value::{CellValue, PrimVal};

fn spec(id: u32, t: ColumnType) -> ColumnSpec {
    ColumnSpec::new(ColumnId(id), t, false)
}

/// Lays the columns' bytes one after the other.
fn block(cols: &[(ColumnSpec, Vec<u8>)]) -> RowBlock {
    let mut data = Vec::new();
    let mut entries = Vec::new();
    for (s, bytes) in cols {
        let start = data.len();
        data.extend_from_slice(bytes);
        entries.push((*s, CopyRange { start, end: data.len() }));
    }
    RowBlock::new(&entries, data).unwrap()
}

fn all_rows(block: &RowBlock) -> Result<Vec<Vec<(ColumnId, Option<CellValue>)>>, DecodeError> {
    let mut it = block.iter()?;
    let mut rows = Vec::new();
    while let Some(row) = it.next()? {
        rows.push(row);
    }
    Ok(rows)
}

fn cells(block: &RowBlock) -> Vec<Option<CellValue>> {
    all_rows(block).unwrap().into_iter().map(|mut row| row.remove(0).1).collect()
}

#[test]
fn group_column_rows() {
    let b = block(&[
        (spec(1, ColumnType::Group), vec![0x7d, 2, 0, 1]),
        (spec(1, ColumnType::Integer), vec![0x7d, 5, 6, 7]),
    ]);
    assert_eq!(
        cells(&b),
        vec![
            Some(CellValue::List(vec![vec![CellValue::Uint(5)], vec![CellValue::Uint(6)]])),
            Some(CellValue::List(vec![])),
            Some(CellValue::List(vec![vec![CellValue::Uint(7)]])),
        ]
    );
}

#[test]
fn group_value_column_ended_gives_empty_lists() {
    let b = block(&[
        (spec(2, ColumnType::Group), vec![1, 2]),
        (spec(2, ColumnType::ValueMetadata), vec![1, 19]),
        (spec(2, ColumnType::Value), vec![5]),
        (spec(3, ColumnType::Integer), vec![2, 4]),
    ]);
    assert_eq!(
        all_rows(&b).unwrap(),
        vec![
            vec![
                (
                    ColumnId(2),
                    Some(CellValue::List(vec![
                        vec![CellValue::Value(PrimVal::Uint(5))],
                        vec![CellValue::List(vec![])],
                    ])),
                ),
                (ColumnId(3), Some(CellValue::Uint(4))),
            ],
            vec![(ColumnId(2), None), (ColumnId(3), Some(CellValue::Uint(4)))],
        ]
    );
}

#[test]
fn group_with_too_few_grouped_values_fails() {
    let b = block(&[
        (spec(1, ColumnType::Group), vec![1, 2]),
        (spec(1, ColumnType::Integer), vec![1, 5]),
    ]);
    assert_eq!(all_rows(&b).err(), Some(DecodeError::InvalidColumnData));
}

#[test]
fn value_column_scalars() {
    let float = 1.5f64.to_le_bytes();
    let mut raw = vec![0x05];
    raw.extend_from_slice(b"ok");
    raw.extend_from_slice(&float);
    raw.extend_from_slice(&[0x7f, 0x42, 1, 2, 7, 8]);
    let metas = vec![0x76, 19, 38, 0, 2, 0x85, 0x01, 20, 28, 39, 24, 25];
    let b = block(&[(spec(2, ColumnType::ValueMetadata), metas), (spec(2, ColumnType::Value), raw)]);
    assert_eq!(
        cells(&b),
        vec![
            Some(CellValue::Value(PrimVal::Uint(5))),
            Some(CellValue::Value(PrimVal::String("ok".to_string()))),
            Some(CellValue::Value(PrimVal::Null)),
            Some(CellValue::Value(PrimVal::Bool(true))),
            Some(CellValue::Value(PrimVal::Float(1.5f64.to_bits()))),
            Some(CellValue::Value(PrimVal::Int(-1))),
            Some(CellValue::Value(PrimVal::Unknown { type_code: 12, data: vec![0x42] })),
            Some(CellValue::Value(PrimVal::Bytes(vec![1, 2]))),
            Some(CellValue::Value(PrimVal::Counter(7))),
            Some(CellValue::Value(PrimVal::Timestamp(8))),
        ]
    );
    match cells(&b)[4] {
        Some(CellValue::Value(PrimVal::Float(bits))) => assert_eq!(f64::from_bits(bits), 1.5),
        _ => panic!("expected a float"),
    }
}

#[test]
fn value_column_null_meta_and_false() {
    let b = block(&[(spec(2, ColumnType::ValueMetadata), vec![0, 1, 1, 1]), (spec(2, ColumnType::Value), vec![])]);
    assert_eq!(
        cells(&b),
        vec![Some(CellValue::List(vec![])), Some(CellValue::Value(PrimVal::Bool(false)))]
    );
}

#[test]
fn value_column_short_raw_bytes_fail() {
    let b = block(&[(spec(2, ColumnType::ValueMetadata), vec![1, 86]), (spec(2, ColumnType::Value), b"ab".to_vec())]);
    assert_eq!(all_rows(&b).err(), Some(DecodeError::InvalidColumnData));
    let float_len = block(&[(spec(2, ColumnType::ValueMetadata), vec![1, 0x75]), (spec(2, ColumnType::Value), vec![0; 7])]);
    assert_eq!(all_rows(&float_len).err(), Some(DecodeError::InvalidColumnData));
}

#[test]
fn delta_boolean_and_string_columns() {
    let b = block(&[
        (spec(3, ColumnType::DeltaInteger), vec![0x7d, 0x05, 0x7e, 0x0a]),
        (spec(4, ColumnType::Boolean), vec![2, 1, 3]),
        (spec(5, ColumnType::String), vec![2, 2, b'a', b'b', 0, 1]),
    ]);
    let rows = all_rows(&b).unwrap();
    assert_eq!(rows[0][0].0, ColumnId(3));
    assert_eq!(rows[0][2].0, ColumnId(5));
    let mut cols: Vec<Vec<Option<CellValue>>> = vec![Vec::new(), Vec::new(), Vec::new()];
    for row in rows {
        for (k, (_, cell)) in row.into_iter().enumerate() {
            cols[k].push(cell);
        }
    }
    assert_eq!(
        cols[0],
        vec![Some(CellValue::Uint(5)), Some(CellValue::Uint(3)), Some(CellValue::Uint(13)), None, None, None]
    );
    assert_eq!(
        cols[1],
        vec![false, false, true, false, false, false].into_iter().map(|v| Some(CellValue::Bool(v))).collect::<Vec<_>>()
    );
    assert_eq!(
        cols[2],
        vec![
            Some(CellValue::String("ab".to_string())),
            Some(CellValue::String("ab".to_string())),
            None,
            None,
            None,
            None
        ]
    );
}

#[test]
fn delta_below_zero_fails() {
    let b = block(&[(spec(3, ColumnType::DeltaInteger), vec![0x7e, 0x01, 0x7d])]);
    assert_eq!(all_rows(&b).err(), Some(DecodeError::InvalidColumnData));
}

#[test]
fn ragged_columns_give_none() {
    let b = block(&[(spec(1, ColumnType::Actor), vec![3, 4]), (spec(2, ColumnType::Integer), vec![1, 9])]);
    assert_eq!(
        all_rows(&b).unwrap(),
        vec![
            vec![(ColumnId(1), Some(CellValue::Uint(4))), (ColumnId(2), Some(CellValue::Uint(9)))],
            vec![(ColumnId(1), Some(CellValue::Uint(4))), (ColumnId(2), None)],
            vec![(ColumnId(1), Some(CellValue::Uint(4))), (ColumnId(2), None)],
        ]
    );
}

#[test]
fn empty_runs_end_a_column() {
    let b = block(&[(spec(1, ColumnType::Integer), vec![0, 0, 0, 0])]);
    assert!(all_rows(&b).unwrap().is_empty());
}

#[test]
fn malformed_run_header_fails() {
    let b = block(&[(spec(1, ColumnType::Integer), vec![1, 5, 0x80])]);
    let mut it = b.iter().unwrap();
    assert_eq!(it.next().unwrap(), Some(vec![(ColumnId(1), Some(CellValue::Uint(5)))]));
    assert_eq!(it.next().err(), Some(DecodeError::InvalidColumnData));
}

#[test]
fn copy_range_converts_to_and_from_range() {
    let r = CopyRange::from(3..7);
    assert_eq!(r, CopyRange { start: 3, end: 7 });
    assert_eq!(std::ops::Range::from(r), 3..7);
    assert_eq!(CopyRange::empty(), CopyRange { start: 0, end: 0 });
}

#[test]
fn range_outside_data_fails() {
    let entries = [(spec(1, ColumnType::Integer), CopyRange { start: 0, end: 10 })];
    let b = RowBlock::new(&entries, vec![1, 2, 3]).unwrap();
    assert_eq!(b.iter().err(), Some(DecodeError::InvalidColumnData));
}

#[test]
fn value_decoder_gives_empty_lists_once_ended() {
    let meta = [1u8, 19];
    let raw = [5u8];
    let mut d = SimpleColDecoder::value(&meta, &raw);
    assert_eq!(d.next(), Ok(Some(Some(CellValue::Value(PrimVal::Uint(5))))));
    assert!(d.done());
    assert_eq!(d.next(), Ok(Some(Some(CellValue::List(vec![])))));
    assert_eq!(d.next(), Ok(Some(Some(CellValue::List(vec![])))));
    let mut ints = SimpleColDecoder::from_type(SimpleColType::Integer, &[]);
    assert_eq!(ints.next(), Ok(None));
}

#[test]
fn group_decoder_gives_empty_list_once_ended() {
    let data = [1u8, 1, 1, 7];
    let col = Column::Group {
        id: ColumnId(1),
        num: CopyRange { start: 0, end: 2 },
        values: vec![GroupedColumn::Single(ColumnId(1), SimpleColType::Integer, CopyRange { start: 2, end: 4 })],
    };
    let mut d = ColDecoder::from_col(&col, &data).unwrap();
    assert_eq!(d.next(), Ok(Some(Some(CellValue::List(vec![vec![CellValue::Uint(7)]])))));
    assert!(d.done());
    assert_eq!(d.next(), Ok(Some(Some(CellValue::List(vec![])))));
}

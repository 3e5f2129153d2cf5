use automerge::column::{Column, CopyRange, GroupedColumn, SimpleColType};
use automerge::column_layout::{BadColumnLayout, ColumnLayout};
use automerge::column_metadata::ColumnMetadata;
use automerge::column_spec::{ColumnId, ColumnSpec, ColumnType};
use automerge::parse::{ErrorKind, ParseError};

fn spec(id: u32, t: ColumnType) -> ColumnSpec {
    ColumnSpec::new(ColumnId(id), t, false)
}

fn range(start: usize, end: usize) -> CopyRange {
    CopyRange { start, end }
}

fn metadata_bytes(cols: &[(u32, u64)]) -> Vec<u8> {
    let mut out = vec![cols.len() as u8];
    for (raw, len) in cols {
        out.extend_from_slice(&raw.to_be_bytes());
        out.push(*len as u8);
    }
    out
}

#[test]
fn metadata_ranges_tile_the_data_block() {
    let mut bytes = metadata_bytes(&[(17, 3), (18, 0), (35, 5)]);
    bytes.push(0xee);
    let (rest, meta) = ColumnMetadata::parse(&bytes).unwrap();
    assert_eq!(rest, &[0xee]);
    assert_eq!(meta.total_column_len(), 8);
    let entries = meta.iter();
    assert_eq!(entries.len(), 3);
    assert_eq!(entries[0], (ColumnSpec(17), range(0, 3)));
    assert_eq!(entries[1], (ColumnSpec(18), range(3, 3)));
    assert_eq!(entries[2], (ColumnSpec(35), range(3, 8)));
}

#[test]
fn metadata_out_of_order_is_rejected() {
    let bytes = metadata_bytes(&[(35, 1), (17, 1)]);
    assert_eq!(
        ColumnMetadata::parse(&bytes).err(),
        Some(ParseError::Error(ErrorKind::InvalidColumnMetadataSort))
    );
    // The deflate bit does not count for the order.
    let bytes = metadata_bytes(&[(17 | 8, 1), (17, 1)]);
    assert!(ColumnMetadata::parse(&bytes).is_ok());
}

#[test]
fn metadata_empty_and_truncated() {
    let (_, meta) = ColumnMetadata::parse(&[0]).unwrap();
    assert_eq!(meta.total_column_len(), 0);
    assert!(meta.iter().is_empty());
    let bytes = metadata_bytes(&[(17, 1)]);
    assert!(matches!(ColumnMetadata::parse(&bytes[..3]), Err(ParseError::Incomplete(_))));
}

#[test]
fn metadata_lengths_beyond_memory_are_rejected() {
    let mut bytes = vec![2];
    bytes.extend_from_slice(&17u32.to_be_bytes());
    bytes.extend_from_slice(&[0xff, 0xff, 0xff, 0xff, 0xff, 0xff, 0xff, 0xff, 0xff, 0x01]);
    bytes.extend_from_slice(&18u32.to_be_bytes());
    bytes.push(1);
    assert_eq!(
        ColumnMetadata::parse(&bytes).err(),
        Some(ParseError::Error(ErrorKind::ColumnLengthOverflow))
    );
}

fn classify(entries: &[(ColumnSpec, CopyRange)]) -> Result<Vec<Column>, BadColumnLayout> {
    let layout = ColumnLayout::parse(entries)?;
    let cols: Vec<Column> = layout
        .iter()
        .iter()
        .map(|c| match c {
            Column::Single(s, t, r) => Column::Single(*s, *t, *r),
            Column::Value { id, meta, value } => Column::Value { id: *id, meta: *meta, value: *value },
            Column::Group { id, num, values } => Column::Group { id: *id, num: *num, values: values.clone() },
        })
        .collect();
    Ok(cols)
}

#[test]
fn layout_builds_semantic_columns() {
    let entries = [
        (spec(1, ColumnType::Actor), range(0, 1)),
        (spec(2, ColumnType::ValueMetadata), range(1, 2)),
        (spec(2, ColumnType::Value), range(2, 3)),
        (spec(3, ColumnType::Group), range(3, 4)),
        (spec(3, ColumnType::Integer), range(4, 5)),
        (spec(3, ColumnType::ValueMetadata), range(5, 6)),
        (spec(3, ColumnType::Value), range(6, 7)),
    ];
    let cols = classify(&entries).unwrap();
    assert_eq!(cols.len(), 3);
    assert!(matches!(cols[0], Column::Single(s, SimpleColType::Actor, r) if s == spec(1, ColumnType::Actor) && r == range(0, 1)));
    assert!(matches!(cols[1], Column::Value { id: ColumnId(2), meta, value } if meta == range(1, 2) && value == range(2, 3)));
    match &cols[2] {
        Column::Group { id, num, values } => {
            assert_eq!(*id, ColumnId(3));
            assert_eq!(*num, range(3, 4));
            assert_eq!(
                values,
                &vec![
                    GroupedColumn::Single(ColumnId(3), SimpleColType::Integer, range(4, 5)),
                    GroupedColumn::Value { meta: range(5, 6), value: range(6, 7) },
                ]
            );
        }
        _ => panic!("expected a group column"),
    }
    assert_eq!(cols[2].id(), ColumnId(3));
    assert_eq!(cols[0].id(), ColumnId(1));
}

#[test]
fn layout_dangling_value_metadata_gets_empty_value() {
    let entries = [
        (spec(2, ColumnType::ValueMetadata), range(0, 2)),
        (spec(4, ColumnType::Integer), range(2, 3)),
        (spec(5, ColumnType::ValueMetadata), range(3, 4)),
    ];
    let cols = classify(&entries).unwrap();
    assert_eq!(cols.len(), 3);
    assert!(matches!(cols[0], Column::Value { id: ColumnId(2), meta, value } if meta == range(0, 2) && value == range(0, 0)));
    assert!(matches!(cols[1], Column::Single(_, SimpleColType::Integer, _)));
    assert!(matches!(cols[2], Column::Value { id: ColumnId(5), meta, value } if meta == range(3, 4) && value == range(0, 0)));
}

#[test]
fn layout_group_closed_by_other_id_or_end() {
    let entries = [
        (spec(3, ColumnType::Group), range(0, 1)),
        (spec(3, ColumnType::ValueMetadata), range(1, 2)),
        (spec(4, ColumnType::String), range(2, 3)),
        (spec(6, ColumnType::Group), range(3, 4)),
        (spec(6, ColumnType::Boolean), range(4, 5)),
    ];
    let cols = classify(&entries).unwrap();
    assert_eq!(cols.len(), 3);
    match &cols[0] {
        Column::Group { values, .. } => {
            assert_eq!(values, &vec![GroupedColumn::Value { meta: range(1, 2), value: range(0, 0) }])
        }
        _ => panic!("expected a group column"),
    }
    assert!(matches!(cols[1], Column::Single(_, SimpleColType::String, _)));
    assert!(matches!(cols[2], Column::Group { id: ColumnId(6), .. }));
}

#[test]
fn layout_mismatching_value_metadata_id() {
    let entries = [
        (spec(2, ColumnType::ValueMetadata), range(0, 1)),
        (spec(3, ColumnType::Value), range(1, 2)),
    ];
    assert_eq!(classify(&entries).err(), Some(BadColumnLayout::MismatchingValueMetadataId));
}

#[test]
fn layout_empty_group() {
    let at_end = [(spec(2, ColumnType::Group), range(0, 1))];
    assert_eq!(classify(&at_end).err(), Some(BadColumnLayout::EmptyGroup));
    let before_other = [
        (spec(2, ColumnType::Group), range(0, 1)),
        (spec(3, ColumnType::Integer), range(1, 2)),
    ];
    assert_eq!(classify(&before_other).err(), Some(BadColumnLayout::EmptyGroup));
}

#[test]
fn layout_duplicate_specs() {
    let entries = [
        (spec(2, ColumnType::Integer), range(0, 1)),
        (spec(2, ColumnType::Integer), range(1, 2)),
    ];
    assert_eq!(classify(&entries).err(), Some(BadColumnLayout::DuplicateColumnSpecs(34)));
    let apart = [
        (spec(2, ColumnType::Integer), range(0, 1)),
        (ColumnSpec::new(ColumnId(2), ColumnType::Integer, true), range(1, 2)),
        (spec(2, ColumnType::Integer), range(2, 3)),
    ];
    assert_eq!(classify(&apart).err(), Some(BadColumnLayout::DuplicateColumnSpecs(34)));
}

#[test]
fn layout_out_of_order() {
    let entries = [
        (spec(3, ColumnType::Integer), range(0, 1)),
        (spec(2, ColumnType::Integer), range(1, 2)),
    ];
    assert_eq!(classify(&entries).err(), Some(BadColumnLayout::OutOfOrder));
}

#[test]
fn layout_nested_group_and_lone_value() {
    let nested = [
        (spec(2, ColumnType::Group), range(0, 1)),
        (ColumnSpec::new(ColumnId(2), ColumnType::Group, true), range(1, 2)),
    ];
    assert_eq!(classify(&nested).err(), Some(BadColumnLayout::NestedGroup));
    let lone = [(spec(2, ColumnType::Value), range(0, 1))];
    assert_eq!(classify(&lone).err(), Some(BadColumnLayout::LoneRawValueColumn));
    let lone_in_group = [
        (spec(2, ColumnType::Group), range(0, 1)),
        (spec(2, ColumnType::Value), range(1, 2)),
    ];
    assert_eq!(classify(&lone_in_group).err(), Some(BadColumnLayout::LoneRawValueColumn));
}

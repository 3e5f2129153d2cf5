use automerge::change::Change;
use automerge::chunk::{Chunk, ChunkType};
use automerge::contents::{read_chunk, ChunkContents, ReadError};
use automerge::column_layout::BadColumnLayout;
use automerge::column_spec::ColumnId;
use automerge::document::Document;
use automerge::parse::{utf_8, ErrorKind, Needed, ParseError};
use automerge::query::Len;
use automerge::rowblock::RowBlock;
use automerge::value::CellValue;

const MAGIC: [u8; 4] = [0x85, 0x6f, 0x4a, 0x83];

fn chunk(typ: u8, payload: &[u8]) -> Vec<u8> {
    let mut out = MAGIC.to_vec();
    out.extend_from_slice(&[1, 2, 3, 4]);
    out.push(typ);
    out.push(payload.len() as u8);
    out.extend_from_slice(payload);
    out
}

/// A change with one integer column (id 1) holding runs for 1, 1, 2.
fn change_payload(message: &[u8]) -> Vec<u8> {
    let mut out = vec![0, 1, 0xab, 1, 1, 0xe8, 0x07, message.len() as u8];
    out.extend_from_slice(message);
    out.push(0);
    out.extend_from_slice(&[1, 0, 0, 0, 18, 4]);
    out.extend_from_slice(&[2, 1, 1, 2]);
    out
}

fn int_rows(block: &RowBlock) -> Vec<Vec<(ColumnId, Option<CellValue>)>> {
    let mut it = block.iter().unwrap();
    let mut rows = Vec::new();
    while let Some(row) = it.next().unwrap() {
        rows.push(row);
    }
    rows
}

#[test]
fn change_with_message_and_integer_ops() {
    let mut payload = change_payload(b"hi");
    payload.extend_from_slice(&[9, 9]);
    let (rest, change) = Change::parse(&payload).unwrap();
    assert!(rest.is_empty());
    assert_eq!(change.message, Some("hi".to_string()));
    assert_eq!(change.seq, 1);
    assert_eq!(change.start_op, 1);
    assert_eq!(change.timestamp, 1000);
    assert!(change.dependencies.is_empty());
    assert!(change.other_actors.is_empty());
    assert_eq!(change.actor.0, vec![0xab]);
    assert_eq!(change.extra_bytes, &[9, 9]);
    let block = RowBlock::new(&change.ops_meta.iter(), change.ops_data.to_vec()).unwrap();
    let rows = int_rows(&block);
    assert_eq!(
        rows,
        vec![
            vec![(ColumnId(1), Some(CellValue::Uint(1)))],
            vec![(ColumnId(1), Some(CellValue::Uint(1)))],
            vec![(ColumnId(1), Some(CellValue::Uint(2)))],
        ]
    );
    // A second traversal sees the same rows.
    assert_eq!(int_rows(&block), rows);
}

#[test]
fn change_with_empty_message_has_none() {
    let payload = change_payload(b"");
    let (_, change) = Change::parse(&payload).unwrap();
    assert_eq!(change.message, None);
}

#[test]
fn change_with_invalid_utf8_message_is_rejected() {
    let payload = change_payload(&[0xc3, 0x28]);
    assert_eq!(Change::parse(&payload).err(), Some(ParseError::Error(ErrorKind::InvalidUtf8)));
    assert_eq!(utf_8(2, "é!".as_bytes()), Ok((&[0x21u8][..], "é".to_string())));
    assert_eq!(utf_8(3, b"ab"), Err(ParseError::Incomplete(Needed::Size(1))));
}

#[test]
fn change_truncated_is_incomplete() {
    let payload = change_payload(b"hi");
    let cut = &payload[..payload.len() - 2];
    assert_eq!(Change::parse(cut).err(), Some(ParseError::Incomplete(Needed::Size(2))));
}

#[test]
fn chunk_framing() {
    let bytes = chunk(1, &[7, 8, 9]);
    let mut with_tail = bytes.clone();
    with_tail.push(0x55);
    let (rest, c) = Chunk::parse(&with_tail).unwrap();
    assert_eq!(rest, &[0x55]);
    assert_eq!(c.typ(), ChunkType::Change);
    assert_eq!(c.checksum().0, [1, 2, 3, 4]);
    assert_eq!(c.data(), &[7, 8, 9]);
}

#[test]
fn chunk_rejects_wrong_magic_whatever_follows() {
    for first in [[0u8, 0, 0, 0], [0x85, 0x6f, 0x4a, 0x84], [0x84, 0x6f, 0x4a, 0x83]] {
        let mut bytes = chunk(0, &[1, 2]);
        bytes[..4].copy_from_slice(&first);
        assert_eq!(Chunk::parse(&bytes).err(), Some(ParseError::Error(ErrorKind::InvalidMagicBytes)));
        assert_eq!(Chunk::parse(&first).err(), Some(ParseError::Error(ErrorKind::InvalidMagicBytes)));
    }
}

#[test]
fn chunk_unknown_type_and_short_payload() {
    let bytes = chunk(5, &[1]);
    assert_eq!(Chunk::parse(&bytes).err(), Some(ParseError::Error(ErrorKind::UnknownChunkType(5))));
    let bytes = chunk(0, &[1, 2, 3]);
    assert_eq!(
        Chunk::parse(&bytes[..bytes.len() - 2]).err(),
        Some(ParseError::Incomplete(Needed::Size(2)))
    );
    assert_eq!(Chunk::parse(&MAGIC[..2]).err(), Some(ParseError::Incomplete(Needed::Size(2))));
}

/// A document with one actor, no heads, no change columns and one integer
/// operation column.
fn document_payload() -> Vec<u8> {
    let mut out = vec![1, 1, 0xaa, 0, 0];
    out.extend_from_slice(&[1, 0, 0, 0, 18, 4]);
    out.extend_from_slice(&[2, 1, 1, 2]);
    out
}

#[test]
fn document_parse() {
    let payload = document_payload();
    let (rest, doc) = Document::parse(&payload).unwrap();
    assert!(rest.is_empty());
    assert_eq!(doc.actors.len(), 1);
    assert_eq!(doc.actors[0].0, vec![0xaa]);
    assert!(doc.heads.is_empty());
    assert_eq!(doc.change_metadata.total_column_len(), 0);
    assert_eq!(doc.op_metadata.total_column_len(), 4);
    assert_eq!(doc.op_bytes, &[2, 1, 1, 2]);
    assert!(doc.change_bytes.is_empty());
}

#[test]
fn document_with_heads() {
    let mut payload = vec![0, 1];
    payload.extend_from_slice(&[7u8; 32]);
    payload.extend_from_slice(&[0, 0]);
    let (_, doc) = Document::parse(&payload).unwrap();
    assert_eq!(doc.heads.len(), 1);
    assert_eq!(doc.heads[0].0, [7u8; 32]);
    let short = &payload[..20];
    assert_eq!(Document::parse(short).err(), Some(ParseError::Incomplete(Needed::Size(14))));
}

#[test]
fn read_chunk_document_change_and_other() {
    let doc = chunk(0, &document_payload());
    match read_chunk(&doc) {
        Ok(ChunkContents::Document { document, change_rows, op_rows }) => {
            assert_eq!(document.actors.len(), 1);
            assert!(int_rows(&change_rows).is_empty());
            let rows = int_rows(&op_rows);
            assert_eq!(rows.len(), 3);
            assert_eq!(rows[2], vec![(ColumnId(1), Some(CellValue::Uint(2)))]);
        }
        _ => panic!("expected a document"),
    }
    let change = chunk(1, &change_payload(b"hi"));
    match read_chunk(&change) {
        Ok(ChunkContents::Change(c)) => assert_eq!(c.message, Some("hi".to_string())),
        _ => panic!("expected a change"),
    }
    let other = chunk(2, &[1, 2]);
    assert!(matches!(read_chunk(&other), Ok(ChunkContents::Other(ChunkType::Compressed))));
    let bad = chunk(7, &[]);
    assert!(matches!(
        read_chunk(&bad),
        Err(ReadError::Chunk(ParseError::Error(ErrorKind::UnknownChunkType(7))))
    ));
}

#[test]
fn read_chunk_reports_bad_layout() {
    // One operation column: a lone value column (id 1).
    let payload = vec![0, 0, 0, 1, 0, 0, 0, 23, 0];
    let doc = chunk(0, &payload);
    assert!(matches!(read_chunk(&doc), Err(ReadError::Layout(BadColumnLayout::LoneRawValueColumn))));
}

#[test]
fn len_query_starts_at_zero() {
    assert_eq!(Len::new().len, 0);
}

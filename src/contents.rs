//! Reading a whole chunk: its framing, then the document or change it
//! carries, with row blocks over a document's two column blocks.
use vstd::prelude::*;

use crate::change::{spec_change, Change, ChangeView};
use crate::chunk::{spec_chunk, Chunk, ChunkType};
use crate::column_layout::{spec_layout, BadColumnLayout};
use crate::document::{spec_document, Document, DocumentView};
use crate::parse::ParseError;
use crate::rowblock::RowBlock;

verus! {

/// What a chunk carries.
pub enum ChunkContents<'a> {
    /// A document, with a row block over its change columns and one over
    /// its operation columns.
    Document { document: Document<'a>, change_rows: RowBlock, op_rows: RowBlock },
    Change(Change<'a>),
    /// A chunk of another type, whose payload is not read here.
    Other(ChunkType),
}

/// Where reading a chunk failed.
#[derive(Debug, Clone, Copy, PartialEq, Eq, Structural)]
pub enum ReadError {
    Chunk(ParseError),
    Document(ParseError),
    Change(ParseError),
    Layout(BadColumnLayout),
}

/// What reading the document payload `d` gives.
pub open spec fn document_outcome<'a>(d: DocumentView, r: Result<ChunkContents<'a>, ReadError>) -> bool {
    match spec_layout(d.change_metadata) {
        Err(e) => r == Err::<ChunkContents<'a>, ReadError>(ReadError::Layout(e)),
        Ok(change_columns) => match spec_layout(d.op_metadata) {
            Err(e) => r == Err::<ChunkContents<'a>, ReadError>(ReadError::Layout(e)),
            Ok(op_columns) => r matches Ok(ChunkContents::Document { document, change_rows, op_rows }) && document@
                == d && change_rows@ == (change_columns, d.change_bytes) && op_rows@ == (op_columns, d.op_bytes),
        },
    }
}

/// What reading the change payload `c` gives.
pub open spec fn change_outcome<'a>(c: ChangeView, r: Result<ChunkContents<'a>, ReadError>) -> bool {
    r matches Ok(ChunkContents::Change(change)) && change@ == c
}

/// Reads the chunk at the front of `data` and the document or change it
/// carries.
pub fn read_chunk<'a>(data: &'a [u8]) -> (r: Result<ChunkContents<'a>, ReadError>)
    ensures
        match spec_chunk(data@) {
            Err(e) => r == Err::<ChunkContents<'a>, ReadError>(ReadError::Chunk(e)),
            Ok((_, chunk)) => match chunk.typ {
                ChunkType::Document => match spec_document(chunk.data) {
                    Err(e) => r == Err::<ChunkContents<'a>, ReadError>(ReadError::Document(e)),
                    Ok((_, d)) => document_outcome(d, r),
                },
                ChunkType::Change => match spec_change(chunk.data) {
                    Err(e) => r == Err::<ChunkContents<'a>, ReadError>(ReadError::Change(e)),
                    Ok((_, c)) => change_outcome(c, r),
                },
                ChunkType::Compressed => r matches Ok(ChunkContents::Other(t)) && t == ChunkType::Compressed,
            },
        },
{
    let (_, chunk) = match Chunk::parse(data) {
        Ok(x) => x,
        Err(e) => return Err(ReadError::Chunk(e)),
    };
    match chunk.typ() {
        ChunkType::Document => {
            let (_, document) = match Document::parse(chunk.data()) {
                Ok(x) => x,
                Err(e) => return Err(ReadError::Document(e)),
            };
            let change_columns = document.change_metadata.iter();
            let change_rows = match RowBlock::new(
                change_columns.as_slice(),
                vstd::slice::slice_to_vec(document.change_bytes),
            ) {
                Ok(b) => b,
                Err(e) => return Err(ReadError::Layout(e)),
            };
            let op_columns = document.op_metadata.iter();
            let op_rows = match RowBlock::new(op_columns.as_slice(), vstd::slice::slice_to_vec(document.op_bytes)) {
                Ok(b) => b,
                Err(e) => return Err(ReadError::Layout(e)),
            };
            Ok(ChunkContents::Document { document, change_rows, op_rows })
        },
        ChunkType::Change => match Change::parse(chunk.data()) {
            Ok((_, change)) => Ok(ChunkContents::Change(change)),
            Err(e) => Err(ReadError::Change(e)),
        },
        other => Ok(ChunkContents::Other(other)),
    }
}

} // verus!

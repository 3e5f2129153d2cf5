//! A document chunk's payload: actors, heads and two column blocks, one for
//! change metadata and one for operations.
use vstd::prelude::*;

use crate::column::CopyRange;
use crate::column_metadata::{spec_column_metadata, sum_lens, ColumnMetadata};
use crate::column_spec::ColumnSpec;
use crate::parse::{
    actor_bytes, actor_ids, change_hashes, hash_bytes, spec_actor_item, spec_hash_item,
    spec_length_prefixed, spec_take, take_n, ParseError, ParseResult,
};
use crate::types::{ActorId, ChangeHash};

verus! {

/// What a document holds.
pub struct DocumentView {
    pub actors: Seq<Seq<u8>>,
    pub heads: Seq<Seq<u8>>,
    pub change_metadata: Seq<(ColumnSpec, CopyRange)>,
    pub change_bytes: Seq<u8>,
    pub op_metadata: Seq<(ColumnSpec, CopyRange)>,
    pub op_bytes: Seq<u8>,
}

/// Reading a document from the front of `s`.
pub open spec fn spec_document(s: Seq<u8>) -> Result<(Seq<u8>, DocumentView), ParseError> {
    match spec_length_prefixed(s, spec_actor_item()) {
        Err(e) => Err(e),
        Ok((s1, actors)) => match spec_length_prefixed(s1, spec_hash_item()) {
            Err(e) => Err(e),
            Ok((s2, heads)) => match spec_column_metadata(s2) {
                Err(e) => Err(e),
                Ok((s3, change_metadata)) => match spec_column_metadata(s3) {
                    Err(e) => Err(e),
                    Ok((s4, op_metadata)) => match spec_take(sum_lens(change_metadata) as nat, s4) {
                        Err(e) => Err(e),
                        Ok((s5, change_bytes)) => match spec_take(sum_lens(op_metadata) as nat, s5) {
                            Err(e) => Err(e),
                            Ok((s6, op_bytes)) => Ok(
                                (
                                    s6,
                                    DocumentView {
                                        actors,
                                        heads,
                                        change_metadata,
                                        change_bytes,
                                        op_metadata,
                                        op_bytes,
                                    },
                                ),
                            ),
                        },
                    },
                },
            },
        },
    }
}

#[derive(Debug)]
pub struct Document<'a> {
    pub actors: Vec<ActorId>,
    pub heads: Vec<ChangeHash>,
    pub op_metadata: ColumnMetadata,
    pub op_bytes: &'a [u8],
    pub change_metadata: ColumnMetadata,
    pub change_bytes: &'a [u8],
}

impl<'a> View for Document<'a> {
    type V = DocumentView;

    open spec fn view(&self) -> DocumentView {
        DocumentView {
            actors: actor_bytes(self.actors@),
            heads: hash_bytes(self.heads@),
            change_metadata: self.change_metadata@,
            change_bytes: self.change_bytes@,
            op_metadata: self.op_metadata@,
            op_bytes: self.op_bytes@,
        }
    }
}

/// A document parse result with the document given by its contents.
pub open spec fn parsed_document<'a>(r: ParseResult<'a, Document<'a>>) -> Result<(Seq<u8>, DocumentView), ParseError> {
    match r {
        Ok((rest, d)) => Ok((rest@, d@)),
        Err(e) => Err(e),
    }
}

impl<'a> Document<'a> {
    pub fn parse(input: &'a [u8]) -> (r: ParseResult<'a, Document<'a>>)
        ensures
            parsed_document(r) == spec_document(input@),
    {
        let (i, actors) = actor_ids(input)?;
        let (i, heads) = change_hashes(i)?;
        let (i, change_meta) = ColumnMetadata::parse(i)?;
        let (i, ops_meta) = ColumnMetadata::parse(i)?;
        let (i, change_data) = take_n(change_meta.total_column_len(), i)?;
        let (i, ops_data) = take_n(ops_meta.total_column_len(), i)?;
        Ok(
            (
                i,
                Document {
                    actors,
                    heads,
                    op_metadata: ops_meta,
                    op_bytes: ops_data,
                    change_metadata: change_meta,
                    change_bytes: change_data,
                },
            ),
        )
    }
}

} // verus!

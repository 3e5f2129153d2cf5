//! A change chunk's payload: dependencies, the author, counters, a message,
//! other actors, one column block of operations and trailing bytes kept as
//! they are.
use vstd::prelude::*;

use crate::column::CopyRange;
use crate::column_metadata::{spec_column_metadata, sum_lens, ColumnMetadata};
use crate::column_spec::ColumnSpec;
use crate::leb128::{leb128_u64, spec_leb128_u64};
use crate::parse::{
    actor_bytes, actor_id, actor_ids, change_hashes, hash_bytes, spec_actor_id, spec_actor_item,
    spec_hash_item, spec_length_prefixed, spec_take, spec_utf_8, take_n, utf_8, ParseError,
    ParseResult,
};
use crate::types::{ActorId, ChangeHash};

verus! {

/// What a change holds.
pub struct ChangeView {
    pub dependencies: Seq<Seq<u8>>,
    pub actor: Seq<u8>,
    pub other_actors: Seq<Seq<u8>>,
    pub seq: u64,
    pub start_op: u64,
    pub timestamp: u64,
    pub message: Option<Seq<char>>,
    pub ops_meta: Seq<(ColumnSpec, CopyRange)>,
    pub ops_data: Seq<u8>,
    pub extra_bytes: Seq<u8>,
}

/// The message of a change: an empty text is no message.
pub open spec fn message_of(text: Seq<char>) -> Option<Seq<char>> {
    if text.len() == 0 {
        None
    } else {
        Some(text)
    }
}

/// Reading the counters and the message of a change from the front of `s`.
pub open spec fn spec_change_counters(s: Seq<u8>) -> Result<(Seq<u8>, (u64, u64, u64, Seq<char>)), ParseError> {
    match spec_leb128_u64(s) {
        Err(e) => Err(e),
        Ok((s1, seq)) => match spec_leb128_u64(s1) {
            Err(e) => Err(e),
            Ok((s2, start_op)) => match spec_leb128_u64(s2) {
                Err(e) => Err(e),
                Ok((s3, timestamp)) => match spec_leb128_u64(s3) {
                    Err(e) => Err(e),
                    Ok((s4, message_len)) => match spec_utf_8(message_len, s4) {
                        Err(e) => Err(e),
                        Ok((s5, text)) => Ok((s5, (seq, start_op, timestamp, text))),
                    },
                },
            },
        },
    }
}

/// Reading a change from `s`, which it takes whole.
pub open spec fn spec_change(s: Seq<u8>) -> Result<(Seq<u8>, ChangeView), ParseError> {
    match spec_length_prefixed(s, spec_hash_item()) {
        Err(e) => Err(e),
        Ok((s1, dependencies)) => match spec_actor_id(s1) {
            Err(e) => Err(e),
            Ok((s2, actor)) => match spec_change_counters(s2) {
                Err(e) => Err(e),
                Ok((s3, (seq, start_op, timestamp, text))) => match spec_length_prefixed(s3, spec_actor_item()) {
                    Err(e) => Err(e),
                    Ok((s4, other_actors)) => match spec_column_metadata(s4) {
                        Err(e) => Err(e),
                        Ok((s5, ops_meta)) => match spec_take(sum_lens(ops_meta) as nat, s5) {
                            Err(e) => Err(e),
                            Ok((s6, ops_data)) => Ok(
                                (
                                    Seq::empty(),
                                    ChangeView {
                                        dependencies,
                                        actor,
                                        other_actors,
                                        seq,
                                        start_op,
                                        timestamp,
                                        message: message_of(text),
                                        ops_meta,
                                        ops_data,
                                        extra_bytes: s6,
                                    },
                                ),
                            ),
                        },
                    },
                },
            },
        },
    }
}

#[derive(Debug)]
pub struct Change<'a> {
    pub dependencies: Vec<ChangeHash>,
    pub actor: ActorId,
    pub other_actors: Vec<ActorId>,
    pub seq: u64,
    pub start_op: u64,
    pub timestamp: u64,
    pub message: Option<String>,
    pub ops_meta: ColumnMetadata,
    pub ops_data: &'a [u8],
    /// Bytes after the operation data, kept for fields this decoder does not
    /// know.
    pub extra_bytes: &'a [u8],
}

/// The characters of an optional message.
pub open spec fn message_chars(m: Option<String>) -> Option<Seq<char>> {
    match m {
        Some(s) => Some(s@),
        None => None,
    }
}

impl<'a> View for Change<'a> {
    type V = ChangeView;

    open spec fn view(&self) -> ChangeView {
        ChangeView {
            dependencies: hash_bytes(self.dependencies@),
            actor: self.actor.0@,
            other_actors: actor_bytes(self.other_actors@),
            seq: self.seq,
            start_op: self.start_op,
            timestamp: self.timestamp,
            message: message_chars(self.message),
            ops_meta: self.ops_meta@,
            ops_data: self.ops_data@,
            extra_bytes: self.extra_bytes@,
        }
    }
}

/// A change parse result with the change given by its contents.
pub open spec fn parsed_change<'a>(r: ParseResult<'a, Change<'a>>) -> Result<(Seq<u8>, ChangeView), ParseError> {
    match r {
        Ok((rest, c)) => Ok((rest@, c@)),
        Err(e) => Err(e),
    }
}

impl<'a> Change<'a> {
    pub fn parse(input: &'a [u8]) -> (r: ParseResult<'a, Change<'a>>)
        ensures
            parsed_change(r) == spec_change(input@),
    {
        let (i, deps) = change_hashes(input)?;
        let (i, actor) = actor_id(i)?;
        let ghost counters_start = i@;
        let (i, seq) = leb128_u64(i)?;
        let (i, start_op) = leb128_u64(i)?;
        let (i, timestamp) = leb128_u64(i)?;
        let (i, message_len) = leb128_u64(i)?;
        let (i, message) = utf_8(message_len, i)?;
        assert(spec_change_counters(counters_start) matches Ok((rest, _)) && rest == i@);
        let (i, other_actors) = actor_ids(i)?;
        let (i, ops_meta) = ColumnMetadata::parse(i)?;
        let (i, ops_data) = take_n(ops_meta.total_column_len(), i)?;
        let (extra_bytes, rest) = i.split_at(i.len());
        proof {
            assert(extra_bytes@ =~= i@);
            assert(rest@ =~= Seq::<u8>::empty());
        }
        let message = if message.as_str().is_empty() {
            None
        } else {
            Some(message)
        };
        Ok(
            (
                rest,
                Change {
                    dependencies: deps,
                    actor,
                    other_actors,
                    seq,
                    start_op,
                    timestamp,
                    message,
                    ops_meta,
                    ops_data,
                    extra_bytes,
                },
            ),
        )
    }
}

} // verus!

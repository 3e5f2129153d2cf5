//! Chunk framing: magic bytes, a checksum, a type tag and a length-prefixed
//! payload.
use vstd::prelude::*;

use crate::leb128::{leb128_u64, spec_leb128_u64};
use crate::parse::{
    spec_take1, spec_take4, spec_take_u64, take1, take4, take_u64, ErrorKind, ParseError,
    ParseResult,
};

verus! {

/// The signature that starts every chunk.
pub open spec fn is_magic(b: [u8; 4]) -> bool {
    b[0] == 0x85 && b[1] == 0x6f && b[2] == 0x4a && b[3] == 0x83
}

#[derive(Debug, Clone, Copy, PartialEq, Eq, Structural)]
pub enum ChunkType {
    Document,
    Change,
    Compressed,
}

/// The chunk type of a tag byte, or the byte itself when it names none.
pub open spec fn chunk_type_of(v: u8) -> Result<ChunkType, u8> {
    if v == 0 {
        Ok(ChunkType::Document)
    } else if v == 1 {
        Ok(ChunkType::Change)
    } else if v == 2 {
        Ok(ChunkType::Compressed)
    } else {
        Err(v)
    }
}

impl TryFrom<u8> for ChunkType {
    type Error = u8;

    fn try_from(value: u8) -> (r: Result<ChunkType, u8>) {
        match value {
            0 => Ok(ChunkType::Document),
            1 => Ok(ChunkType::Change),
            2 => Ok(ChunkType::Compressed),
            other => Err(other),
        }
    }
}

impl vstd::std_specs::convert::TryFromSpecImpl<u8> for ChunkType {
    open spec fn obeys_try_from_spec() -> bool {
        true
    }

    open spec fn try_from_spec(v: u8) -> Result<ChunkType, u8> {
        chunk_type_of(v)
    }
}

/// The four checksum bytes of a chunk; they are carried, not verified.
#[derive(Debug, Clone, Copy)]
pub struct CheckSum(pub [u8; 4]);

impl From<[u8; 4]> for CheckSum {
    fn from(raw: [u8; 4]) -> (r: CheckSum) {
        CheckSum(raw)
    }
}

impl vstd::std_specs::convert::FromSpecImpl<[u8; 4]> for CheckSum {
    open spec fn obeys_from_spec() -> bool {
        true
    }

    open spec fn from_spec(raw: [u8; 4]) -> CheckSum {
        CheckSum(raw)
    }
}

/// What a chunk holds: its type, its checksum and its payload.
pub struct ChunkView {
    pub typ: ChunkType,
    pub checksum: CheckSum,
    pub data: Seq<u8>,
}

/// Reading a chunk from the front of `s`.
pub open spec fn spec_chunk(s: Seq<u8>) -> Result<(Seq<u8>, ChunkView), ParseError> {
    match spec_take4(s) {
        Err(e) => Err(e),
        Ok((s1, magic)) => if !is_magic(magic) {
            Err(ParseError::Error(ErrorKind::InvalidMagicBytes))
        } else {
            match spec_take4(s1) {
                Err(e) => Err(e),
                Ok((s2, checksum)) => match spec_take1(s2) {
                    Err(e) => Err(e),
                    Ok((s3, tag)) => match chunk_type_of(tag) {
                        Err(t) => Err(ParseError::Error(ErrorKind::UnknownChunkType(t))),
                        Ok(typ) => match spec_leb128_u64(s3) {
                            Err(e) => Err(e),
                            Ok((s4, len)) => match spec_take_u64(len, s4) {
                                Err(e) => Err(e),
                                Ok((s5, data)) => Ok((s5, ChunkView { typ, checksum: CheckSum(checksum), data })),
                            },
                        },
                    },
                },
            }
        },
    }
}

/// A view of a chunk inside the buffer it was read from.
#[derive(Debug)]
pub struct Chunk<'a> {
    typ: ChunkType,
    checksum: CheckSum,
    data: &'a [u8],
}

impl<'a> View for Chunk<'a> {
    type V = ChunkView;

    closed spec fn view(&self) -> ChunkView {
        ChunkView { typ: self.typ, checksum: self.checksum, data: self.data@ }
    }
}

/// A chunk parse result with the chunk given by its contents.
pub open spec fn parsed_chunk<'a>(r: ParseResult<'a, Chunk<'a>>) -> Result<(Seq<u8>, ChunkView), ParseError> {
    match r {
        Ok((rest, c)) => Ok((rest@, c@)),
        Err(e) => Err(e),
    }
}

impl<'a> Chunk<'a> {
    pub fn parse(input: &'a [u8]) -> (r: ParseResult<'a, Chunk<'a>>)
        ensures
            parsed_chunk(r) == spec_chunk(input@),
    {
        let (i, magic) = take4(input)?;
        if !(magic[0] == 0x85 && magic[1] == 0x6f && magic[2] == 0x4a && magic[3] == 0x83) {
            return Err(ParseError::Error(ErrorKind::InvalidMagicBytes));
        }
        let (i, checksum_bytes) = take4(i)?;
        let (i, raw_chunk_type) = take1(i)?;
        let chunk_type = match ChunkType::try_from(raw_chunk_type) {
            Ok(t) => t,
            Err(e) => return Err(ParseError::Error(ErrorKind::UnknownChunkType(e))),
        };
        let (i, chunk_len) = leb128_u64(i)?;
        let (i, data) = take_u64(chunk_len, i)?;
        Ok((i, Chunk { typ: chunk_type, checksum: CheckSum::from(checksum_bytes), data }))
    }

    pub fn typ(&self) -> (r: ChunkType)
        ensures
            r == self@.typ,
    {
        self.typ
    }

    pub fn checksum(&self) -> (r: CheckSum)
        ensures
            r == self@.checksum,
    {
        self.checksum
    }

    pub fn data(&self) -> (r: &'a [u8])
        ensures
            r@ == self@.data,
    {
        self.data
    }
}

/// Input of at least four bytes that does not start with the magic bytes is
/// rejected, whatever follows them.
pub proof fn lemma_chunk_needs_magic(s: Seq<u8>)
    requires
        s.len() >= 4,
        !(s[0] == 0x85 && s[1] == 0x6f && s[2] == 0x4a && s[3] == 0x83),
    ensures
        spec_chunk(s) == Err::<(Seq<u8>, ChunkView), ParseError>(
            ParseError::Error(ErrorKind::InvalidMagicBytes),
        ),
{
}

} // verus!

//! Cursor-style parsers over byte slices.
//!
//! Every parser takes the remaining input and returns either the input left
//! after what it consumed together with the value it read, or a
//! [`ParseError`].
use vstd::prelude::*;
use vstd::utf8::{decode_utf8, valid_utf8};

use crate::leb128::{leb128_u64, spec_leb128_u64};
use crate::types::{ActorId, ChangeHash, HASH_LEN};

verus! {

/// How many more bytes a parser needs before it can go on.
#[derive(Debug, Clone, Copy, PartialEq, Eq, Structural)]
pub enum Needed {
    Unknown,
    /// An exact, nonzero number of missing bytes.
    Size(usize),
}

/// Why an input can never be parsed, whatever follows it.
#[derive(Debug, Clone, Copy, PartialEq, Eq, Structural)]
pub enum ErrorKind {
    Leb128TooLarge,
    InvalidMagicBytes,
    UnknownChunkType(u8),
    InvalidColumnMetadataSort,
    InvalidUtf8,
    /// The declared column lengths add up to more than a buffer can hold.
    ColumnLengthOverflow,
}

#[derive(Debug, Clone, Copy, PartialEq, Eq, Structural)]
pub enum ParseError {
    /// The input is invalid.
    Error(ErrorKind),
    /// The input ends too early.
    Incomplete(Needed),
}

/// The input left after a parser ran, with the value it read.
pub type ParseResult<'a, O> = Result<(&'a [u8], O), ParseError>;

/// A parse result with the remaining input given by its contents.
pub open spec fn parsed<'a, O>(r: ParseResult<'a, O>) -> Result<(Seq<u8>, O), ParseError> {
    match r {
        Ok((rest, o)) => Ok((rest@, o)),
        Err(e) => Err(e),
    }
}

/// The error for an input of `have` bytes where `want` are needed.
pub open spec fn short_of(want: int, have: int) -> ParseError {
    ParseError::Incomplete(Needed::Size((want - have) as usize))
}

/// Reading `n` bytes from the front of `s`.
pub open spec fn spec_take(n: nat, s: Seq<u8>) -> Result<(Seq<u8>, Seq<u8>), ParseError> {
    if s.len() < n {
        Err(short_of(n as int, s.len() as int))
    } else {
        Ok((s.skip(n as int), s.take(n as int)))
    }
}

/// Takes the first `n` bytes of the input.
pub fn take_n<'a>(n: usize, input: &'a [u8]) -> (r: ParseResult<'a, &'a [u8]>)
    ensures
        match r {
            Ok((rest, taken)) => spec_take(n as nat, input@) == Ok::<(Seq<u8>, Seq<u8>), ParseError>((rest@, taken@)),
            Err(e) => spec_take(n as nat, input@) == Err::<(Seq<u8>, Seq<u8>), ParseError>(e),
        },
{
    if input.len() < n {
        Err(ParseError::Incomplete(Needed::Size(n - input.len())))
    } else {
        let (taken, rest) = input.split_at(n);
        proof {
            assert(taken@ =~= input@.take(n as int));
            assert(rest@ =~= input@.skip(n as int));
        }
        Ok((rest, taken))
    }
}

/// Reading `n` bytes, a count read from the input, from the front of `s`.
pub open spec fn spec_take_u64(n: u64, s: Seq<u8>) -> Result<(Seq<u8>, Seq<u8>), ParseError> {
    if s.len() >= n {
        Ok((s.skip(n as int), s.take(n as int)))
    } else if n - s.len() <= usize::MAX {
        Err(short_of(n as int, s.len() as int))
    } else {
        Err(ParseError::Incomplete(Needed::Unknown))
    }
}

/// Takes a number of bytes given as a `u64`, as read from the input.
pub fn take_u64<'a>(n: u64, input: &'a [u8]) -> (r: ParseResult<'a, &'a [u8]>)
    ensures
        match r {
            Ok((rest, taken)) => spec_take_u64(n, input@) == Ok::<(Seq<u8>, Seq<u8>), ParseError>((rest@, taken@)),
            Err(e) => spec_take_u64(n, input@) == Err::<(Seq<u8>, Seq<u8>), ParseError>(e),
        },
{
    if (input.len() as u64) < n {
        let missing: u64 = n - input.len() as u64;
        if missing <= usize::MAX as u64 {
            Err(ParseError::Incomplete(Needed::Size(missing as usize)))
        } else {
            Err(ParseError::Incomplete(Needed::Unknown))
        }
    } else {
        take_n(n as usize, input)
    }
}

/// Reading one byte from the front of `s`.
pub open spec fn spec_take1(s: Seq<u8>) -> Result<(Seq<u8>, u8), ParseError> {
    if s.len() >= 1 {
        Ok((s.skip(1), s[0]))
    } else {
        Err(short_of(1, s.len() as int))
    }
}

/// Takes a single byte.
pub fn take1<'a>(input: &'a [u8]) -> (r: ParseResult<'a, u8>)
    ensures
        parsed(r) == spec_take1(input@),
{
    if input.len() < 1 {
        Err(ParseError::Incomplete(Needed::Size(1 - input.len())))
    } else {
        let (_, rest) = input.split_at(1);
        proof {
            assert(rest@ =~= input@.skip(1));
        }
        Ok((rest, input[0]))
    }
}

/// The four bytes at the front of `s`, as an array.
pub open spec fn first4(s: Seq<u8>) -> [u8; 4] {
    [s[0], s[1], s[2], s[3]]
}

/// Reading four bytes from the front of `s`.
pub open spec fn spec_take4(s: Seq<u8>) -> Result<(Seq<u8>, [u8; 4]), ParseError> {
    if s.len() >= 4 {
        Ok((s.skip(4), first4(s)))
    } else {
        Err(short_of(4, s.len() as int))
    }
}

/// Takes four bytes.
pub fn take4<'a>(input: &'a [u8]) -> (r: ParseResult<'a, [u8; 4]>)
    ensures
        parsed(r) == spec_take4(input@),
{
    if input.len() < 4 {
        Err(ParseError::Incomplete(Needed::Size(4 - input.len())))
    } else {
        let (_, rest) = input.split_at(4);
        proof {
            assert(rest@ =~= input@.skip(4));
        }
        Ok((rest, [input[0], input[1], input[2], input[3]]))
    }
}

/// The big-endian reading of four bytes.
pub open spec fn be_u32(b: [u8; 4]) -> u32 {
    (b[0] as int * 0x1000000 + b[1] as int * 0x10000 + b[2] as int * 0x100 + b[3] as int) as u32
}

/// Reading a big-endian `u32` from the front of `s`.
pub open spec fn spec_read_u32(s: Seq<u8>) -> Result<(Seq<u8>, u32), ParseError> {
    if s.len() >= 4 {
        Ok((s.skip(4), be_u32(first4(s))))
    } else {
        Err(short_of(4, s.len() as int))
    }
}

/// Reads a big-endian `u32`.
pub fn read_u32<'a>(input: &'a [u8]) -> (r: ParseResult<'a, u32>)
    ensures
        parsed(r) == spec_read_u32(input@),
{
    let (rest, b) = take4(input)?;
    let v: u32 = (b[0] as u32) * 0x1000000 + (b[1] as u32) * 0x10000 + (b[2] as u32) * 0x100 + (b[3] as u32);
    Ok((rest, v))
}

/// Relies on std::str::from_utf8: it accepts exactly the well-formed UTF-8
/// byte strings, and the string it returns holds the characters they encode.
#[verifier::external_body]
pub(crate) fn str_from_utf8(b: &[u8]) -> (r: Option<&str>)
    ensures
        r is Some <==> valid_utf8(b@),
        r matches Some(s) ==> s@ == decode_utf8(b@),
{
    std::str::from_utf8(b).ok()
}

/// Reading a UTF-8 string of `len` bytes from the front of `s`.
pub open spec fn spec_utf_8(len: u64, s: Seq<u8>) -> Result<(Seq<u8>, Seq<char>), ParseError> {
    match spec_take_u64(len, s) {
        Err(e) => Err(e),
        Ok((rest, bytes)) => if valid_utf8(bytes) {
            Ok((rest, decode_utf8(bytes)))
        } else {
            Err(ParseError::Error(ErrorKind::InvalidUtf8))
        },
    }
}

/// Reads a UTF-8 string of `len` bytes.
pub fn utf_8<'a>(len: u64, input: &'a [u8]) -> (r: ParseResult<'a, String>)
    ensures
        match r {
            Ok((rest, text)) => spec_utf_8(len, input@) == Ok::<(Seq<u8>, Seq<char>), ParseError>((rest@, text@)),
            Err(e) => spec_utf_8(len, input@) == Err::<(Seq<u8>, Seq<char>), ParseError>(e),
        },
{
    let (i, bytes) = take_u64(len, input)?;
    match str_from_utf8(bytes) {
        Some(text) => Ok((i, text.to_owned())),
        None => Err(ParseError::Error(ErrorKind::InvalidUtf8)),
    }
}

/// Reading an actor id, a length and that many bytes, from the front of `s`.
pub open spec fn spec_actor_id(s: Seq<u8>) -> Result<(Seq<u8>, Seq<u8>), ParseError> {
    match spec_leb128_u64(s) {
        Err(e) => Err(e),
        Ok((s1, len)) => spec_take_u64(len, s1),
    }
}

/// Reads an actor id.
pub fn actor_id<'a>(input: &'a [u8]) -> (r: ParseResult<'a, ActorId>)
    ensures
        match r {
            Ok((rest, a)) => spec_actor_id(input@) == Ok::<(Seq<u8>, Seq<u8>), ParseError>((rest@, a.0@)),
            Err(e) => spec_actor_id(input@) == Err::<(Seq<u8>, Seq<u8>), ParseError>(e),
        },
{
    let (i, len) = leb128_u64(input)?;
    let (i, bytes) = take_u64(len, i)?;
    Ok((i, ActorId(vstd::slice::slice_to_vec(bytes))))
}

/// Reading a change hash, thirty-two bytes, from the front of `s`.
pub open spec fn spec_change_hash(s: Seq<u8>) -> Result<(Seq<u8>, Seq<u8>), ParseError> {
    spec_take(HASH_LEN as nat, s)
}

/// Reads a change hash.
pub fn change_hash<'a>(input: &'a [u8]) -> (r: ParseResult<'a, ChangeHash>)
    ensures
        match r {
            Ok((rest, h)) => spec_change_hash(input@) == Ok::<(Seq<u8>, Seq<u8>), ParseError>((rest@, h.0@)),
            Err(e) => spec_change_hash(input@) == Err::<(Seq<u8>, Seq<u8>), ParseError>(e),
        },
{
    let (i, bytes) = take_n(HASH_LEN, input)?;
    let mut hash = [0u8; 32];
    let mut k: usize = 0;
    while k < HASH_LEN
        invariant
            bytes@.len() == HASH_LEN,
            k <= HASH_LEN,
            forall|j: int| 0 <= j < k ==> hash@[j] == bytes@[j],
        decreases HASH_LEN - k,
    {
        hash[k] = bytes[k];
        k = k + 1;
    }
    assert(hash@ =~= bytes@);
    Ok((i, ChangeHash(hash)))
}

/// Reading `n` items with `item` from the front of `s`.
pub open spec fn spec_repeat(
    s: Seq<u8>,
    n: nat,
    item: spec_fn(Seq<u8>) -> Result<(Seq<u8>, Seq<u8>), ParseError>,
) -> Result<(Seq<u8>, Seq<Seq<u8>>), ParseError>
    decreases n,
{
    if n == 0 {
        Ok((s, seq![]))
    } else {
        match item(s) {
            Err(e) => Err(e),
            Ok((s1, x)) => match spec_repeat(s1, (n - 1) as nat, item) {
                Err(e) => Err(e),
                Ok((s2, xs)) => Ok((s2, seq![x] + xs)),
            },
        }
    }
}

/// Reading a count and then that many items with `item` from the front of
/// `s`.
pub open spec fn spec_length_prefixed(
    s: Seq<u8>,
    item: spec_fn(Seq<u8>) -> Result<(Seq<u8>, Seq<u8>), ParseError>,
) -> Result<(Seq<u8>, Seq<Seq<u8>>), ParseError> {
    match spec_leb128_u64(s) {
        Err(e) => Err(e),
        Ok((s1, n)) => spec_repeat(s1, n as nat, item),
    }
}

/// Reading one actor id, as an item of a list.
pub open spec fn spec_actor_item() -> spec_fn(Seq<u8>) -> Result<(Seq<u8>, Seq<u8>), ParseError> {
    |s: Seq<u8>| spec_actor_id(s)
}

/// Reading one change hash, as an item of a list.
pub open spec fn spec_hash_item() -> spec_fn(Seq<u8>) -> Result<(Seq<u8>, Seq<u8>), ParseError> {
    |s: Seq<u8>| spec_change_hash(s)
}

/// The bytes of each actor id.
pub open spec fn actor_bytes(v: Seq<ActorId>) -> Seq<Seq<u8>> {
    v.map_values(|a: ActorId| a.0@)
}

/// The bytes of each change hash.
pub open spec fn hash_bytes(v: Seq<ChangeHash>) -> Seq<Seq<u8>> {
    v.map_values(|h: ChangeHash| h.0@)
}

/// Reads a count and then that many actor ids.
pub fn actor_ids<'a>(input: &'a [u8]) -> (r: ParseResult<'a, Vec<ActorId>>)
    ensures
        match r {
            Ok((rest, v)) => spec_length_prefixed(input@, spec_actor_item()) == Ok::<
                (Seq<u8>, Seq<Seq<u8>>),
                ParseError,
            >((rest@, actor_bytes(v@))),
            Err(e) => spec_length_prefixed(input@, spec_actor_item()) == Err::<
                (Seq<u8>, Seq<Seq<u8>>),
                ParseError,
            >(e),
        },
{
    let (i, n) = leb128_u64(input)?;
    let ghost start = i@;
    let mut i = i;
    let mut out: Vec<ActorId> = Vec::new();
    let mut k: u64 = 0;
    while k < n
        invariant
            k <= n,
            out@.len() == k,
            spec_leb128_u64(input@) == Ok::<(Seq<u8>, u64), ParseError>((start, n)),
            spec_repeat(start, n as nat, spec_actor_item()) == match spec_repeat(
                i@,
                (n - k) as nat,
                spec_actor_item(),
            ) {
                Err(e) => Err(e),
                Ok((s2, xs)) => Ok((s2, actor_bytes(out@) + xs)),
            },
        decreases n - k,
    {
        let (i1, a) = match actor_id(i) {
            Ok(x) => x,
            Err(e) => {
                assert(spec_repeat(i@, (n - k) as nat, spec_actor_item()) == Err::<(Seq<u8>, Seq<Seq<u8>>), ParseError>(e));
                return Err(e);
            },
        };
        proof {
            if let Ok((s2, xs)) = spec_repeat(i1@, (n - k - 1) as nat, spec_actor_item()) {
                assert(actor_bytes(out@) + (seq![a.0@] + xs) =~= actor_bytes(out@.push(a)) + xs);
            }
        }
        out.push(a);
        i = i1;
        k = k + 1;
    }
    assert(actor_bytes(out@) + seq![] =~= actor_bytes(out@));
    Ok((i, out))
}

/// Reads a count and then that many change hashes.
pub fn change_hashes<'a>(input: &'a [u8]) -> (r: ParseResult<'a, Vec<ChangeHash>>)
    ensures
        match r {
            Ok((rest, v)) => spec_length_prefixed(input@, spec_hash_item()) == Ok::<
                (Seq<u8>, Seq<Seq<u8>>),
                ParseError,
            >((rest@, hash_bytes(v@))),
            Err(e) => spec_length_prefixed(input@, spec_hash_item()) == Err::<
                (Seq<u8>, Seq<Seq<u8>>),
                ParseError,
            >(e),
        },
{
    let (i, n) = leb128_u64(input)?;
    let ghost start = i@;
    let mut i = i;
    let mut out: Vec<ChangeHash> = Vec::new();
    let mut k: u64 = 0;
    while k < n
        invariant
            k <= n,
            out@.len() == k,
            spec_leb128_u64(input@) == Ok::<(Seq<u8>, u64), ParseError>((start, n)),
            spec_repeat(start, n as nat, spec_hash_item()) == match spec_repeat(
                i@,
                (n - k) as nat,
                spec_hash_item(),
            ) {
                Err(e) => Err(e),
                Ok((s2, xs)) => Ok((s2, hash_bytes(out@) + xs)),
            },
        decreases n - k,
    {
        let (i1, h) = match change_hash(i) {
            Ok(x) => x,
            Err(e) => {
                assert(spec_repeat(i@, (n - k) as nat, spec_hash_item()) == Err::<(Seq<u8>, Seq<Seq<u8>>), ParseError>(e));
                return Err(e);
            },
        };
        proof {
            if let Ok((s2, xs)) = spec_repeat(i1@, (n - k - 1) as nat, spec_hash_item()) {
                assert(hash_bytes(out@) + (seq![h.0@] + xs) =~= hash_bytes(out@.push(h)) + xs);
            }
        }
        out.push(h);
        i = i1;
        k = k + 1;
    }
    assert(hash_bytes(out@) + seq![] =~= hash_bytes(out@));
    Ok((i, out))
}

} // verus!

//! Unsigned LEB128 integers: seven bits per byte, least significant group
//! first, the high bit of each byte set while more bytes follow.
use vstd::arithmetic::div_mod::{lemma_add_mod_noop_right, lemma_small_mod};
use vstd::arithmetic::power2::{lemma2_to64, lemma2_to64_rest, lemma_pow2_adds, lemma_pow2_strictly_increases, pow2};
use vstd::prelude::*;

use crate::parse::{parsed, ErrorKind, Needed, ParseError, ParseResult};

verus! {

/// The number of bytes in the encoding that starts `s`, scanning from `pos`:
/// the first byte below `0x80` ends it; `max_len` bytes that all continue
/// make it too large; input that ends first makes it incomplete.
pub open spec fn leb128_end(s: Seq<u8>, pos: nat, max_len: nat) -> Result<nat, ParseError>
    decreases s.len() - pos,
{
    if pos >= s.len() {
        Err(ParseError::Incomplete(Needed::Size(1)))
    } else if s[pos as int] < 0x80 {
        Ok(pos + 1)
    } else if pos + 1 >= max_len {
        Err(ParseError::Error(ErrorKind::Leb128TooLarge))
    } else {
        leb128_end(s, pos + 1, max_len)
    }
}

/// The number whose base-128 digits, least significant first, are the low
/// seven bits of the first `n` bytes of `s`.
pub open spec fn leb128_digits(s: Seq<u8>, n: nat) -> nat
    decreases n,
{
    if n == 0 || s.len() == 0 {
        0
    } else {
        (s[0] % 128) as nat + 128 * leb128_digits(s.drop_first(), (n - 1) as nat)
    }
}

/// Reading an unsigned integer of `bits` bits, encoded in at most `max_len`
/// bytes, from the front of `s`: the digits are taken modulo `2^bits`.
pub open spec fn spec_leb128(s: Seq<u8>, max_len: nat, bits: nat) -> Result<(Seq<u8>, nat), ParseError> {
    match leb128_end(s, 0, max_len) {
        Ok(n) => Ok((s.skip(n as int), leb128_digits(s, n) % pow2(bits))),
        Err(e) => Err(e),
    }
}

pub open spec fn spec_leb128_u64(s: Seq<u8>) -> Result<(Seq<u8>, u64), ParseError> {
    match spec_leb128(s, 10, 64) {
        Ok((rest, v)) => Ok((rest, v as u64)),
        Err(e) => Err(e),
    }
}

pub open spec fn spec_leb128_u32(s: Seq<u8>) -> Result<(Seq<u8>, u32), ParseError> {
    match spec_leb128(s, 5, 32) {
        Ok((rest, v)) => Ok((rest, v as u32)),
        Err(e) => Err(e),
    }
}

/// The canonical encoding of `v`.
pub open spec fn leb128_encode(v: nat) -> Seq<u8>
    decreases v,
{
    if v < 128 {
        seq![v as u8]
    } else {
        seq![(v % 128 + 128) as u8] + leb128_encode(v / 128)
    }
}

/// Maximum number of bytes in the encoding of an integer of `bits` bits.
pub fn leb128_size(bits: u32) -> (r: usize)
    requires
        bits <= 128,
    ensures
        r == (bits + 6) / 7,
{
    ((bits + 6) / 7) as usize
}

proof fn lemma_digits_extend(s: Seq<u8>, n: nat)
    requires
        n < s.len(),
    ensures
        leb128_digits(s, n + 1) == leb128_digits(s, n) + (s[n as int] % 128) as nat * pow2(7 * n),
    decreases n,
{
    lemma2_to64();
    if n == 0 {
        assert(leb128_digits(s.drop_first(), 0) == 0);
        assert(leb128_digits(s, 1) == (s[0] % 128) as nat);
    } else {
        let t = s.drop_first();
        lemma_digits_extend(t, (n - 1) as nat);
        assert(t[n - 1] == s[n as int]);
        lemma_pow2_adds(7 * (n - 1) as nat, 7);
        assert(7 * n == 7 * (n - 1) as nat + 7);
        let a = leb128_digits(t, (n - 1) as nat);
        let b = (s[n as int] % 128) as nat;
        let c = pow2(7 * (n - 1) as nat);
        assert(128 * (a + b * c) == 128 * a + b * (c * 128)) by (nonlinear_arith);
        assert(leb128_digits(s, n + 1) == (s[0] % 128) as nat + 128 * leb128_digits(t, n));
        assert(leb128_digits(s, n) == (s[0] % 128) as nat + 128 * a);
        assert(pow2(7 * n) == c * 128);
    }
}

/// Scans the encoding at the front of `input` for at most `max_len` bytes,
/// returning its length and its digits modulo `2^64`.
fn leb128_scan(input: &[u8], max_len: usize) -> (r: Result<(usize, u64), ParseError>)
    requires
        1 <= max_len <= 10,
    ensures
        match r {
            Ok((n, v)) => 1 <= n <= input@.len() && n <= max_len
                && leb128_end(input@, 0, max_len as nat) == Ok::<nat, ParseError>(n as nat)
                && v == leb128_digits(input@, n as nat) % pow2(64),
            Err(e) => leb128_end(input@, 0, max_len as nat) == Err::<nat, ParseError>(e),
        },
{
    let mut res: u64 = 0;
    let mut scale: u64 = 1;
    let mut pos: usize = 0;
    proof {
        lemma2_to64();
        lemma2_to64_rest();
    }
    while pos < input.len()
        invariant
            1 <= max_len <= 10,
            pos < max_len,
            pos <= input@.len(),
            scale as nat == pow2(7 * pos as nat),
            res as nat == leb128_digits(input@, pos as nat),
            res < scale,
            leb128_end(input@, 0, max_len as nat) == leb128_end(input@, pos as nat, max_len as nat),
        decreases input.len() - pos,
    {
        let byte = input[pos];
        proof {
            lemma2_to64();
            lemma_digits_extend(input@, pos as nat);
            lemma_pow2_adds(7 * pos as nat, 7);
            if pos < 9 {
                lemma_pow2_strictly_increases(7 * pos as nat, 63);
            }
        }
        if byte < 0x80 {
            let low = byte as u64;
            let v = res.wrapping_add(low.wrapping_mul(scale));
            proof {
                let m = pow2(64) as int;
                assert(pow2(64) == 0x1_0000_0000_0000_0000);
                lemma_add_mod_noop_right(res as int, low * scale, m);
                lemma_small_mod(res as nat, m as nat);
                assert(byte % 128 == byte);
            }
            return Ok((pos + 1, v));
        } else if pos == max_len - 1 {
            return Err(ParseError::Error(ErrorKind::Leb128TooLarge));
        }
        let low = (byte - 0x80) as u64;
        assert(byte % 128 == low);
        assert(low * scale + res < 128 * scale) by (nonlinear_arith)
            requires
                low < 128,
                res < scale,
        ;
        assert(7 * (pos as nat + 1) == 7 * pos as nat + 7);
        proof {
            lemma_pow2_strictly_increases(7 * pos as nat + 7, 64);
        }
        res = res + low * scale;
        scale = scale * 128;
        pos = pos + 1;
    }
    Err(ParseError::Incomplete(Needed::Size(1)))
}

/// Reads an unsigned LEB128 integer that fits in a `u64`.
pub fn leb128_u64<'a>(input: &'a [u8]) -> (r: ParseResult<'a, u64>)
    ensures
        parsed(r) == spec_leb128_u64(input@),
{
    let (n, v) = leb128_scan(input, leb128_size(u64::BITS))?;
    let (_, rest) = input.split_at(n);
    proof {
        assert(rest@ =~= input@.skip(n as int));
    }
    Ok((rest, v))
}

/// Reads an unsigned LEB128 integer that fits in a `u32`.
pub fn leb128_u32<'a>(input: &'a [u8]) -> (r: ParseResult<'a, u32>)
    ensures
        parsed(r) == spec_leb128_u32(input@),
{
    let (n, v) = leb128_scan(input, leb128_size(u32::BITS))?;
    let (_, rest) = input.split_at(n);
    proof {
        assert(rest@ =~= input@.skip(n as int));
        lemma2_to64();
        lemma2_to64_rest();
        assert(pow2(32) == 0x1_0000_0000);
        assert(pow2(64) == 0x1_0000_0000_0000_0000);
        lemma_leb128_end_bound(input@, 0, 5);
        lemma_digits_bound(input@, n as nat);
        lemma_pow2_strictly_increases(35, 64);
        lemma_small_mod(leb128_digits(input@, n as nat), pow2(64));
    }
    Ok((rest, (v % 0x1_0000_0000) as u32))
}

proof fn lemma_leb128_end_bound(s: Seq<u8>, pos: nat, max_len: nat)
    requires
        pos < max_len,
    ensures
        leb128_end(s, pos, max_len) matches Ok(n) ==> n <= max_len && n <= s.len(),
    decreases s.len() - pos,
{
    if pos < s.len() && s[pos as int] >= 0x80 && pos + 1 < max_len {
        lemma_leb128_end_bound(s, pos + 1, max_len);
    }
}

proof fn lemma_digits_bound(s: Seq<u8>, n: nat)
    ensures
        leb128_digits(s, n) < pow2(7 * n),
    decreases n,
{
    lemma2_to64();
    if n == 0 || s.len() == 0 {
        vstd::arithmetic::power2::lemma_pow2_pos(7 * n);
    } else {
        lemma_digits_bound(s.drop_first(), (n - 1) as nat);
        lemma_pow2_adds(7 * (n - 1) as nat, 7);
        assert(7 * n == 7 * (n - 1) as nat + 7);
        let a = leb128_digits(s.drop_first(), (n - 1) as nat);
        let c = pow2(7 * (n - 1) as nat);
        let d = (s[0] % 128) as nat;
        assert(d + 128 * a < c * 128) by (nonlinear_arith)
            requires
                a < c,
                d < 128,
        ;
    }
}

proof fn lemma_end_at(s: Seq<u8>, n: nat, pos: nat, max_len: nat)
    requires
        pos < n <= s.len(),
        n <= max_len,
        forall|j: int| pos <= j < n - 1 ==> s[j] >= 0x80,
        s[n - 1] < 0x80,
    ensures
        leb128_end(s, pos, max_len) == Ok::<nat, ParseError>(n),
    decreases n - pos,
{
    if pos + 1 < n {
        lemma_end_at(s, n, pos + 1, max_len);
    }
}

proof fn lemma_encode_shape(v: nat, rest: Seq<u8>)
    ensures
        leb128_encode(v).len() >= 1,
        forall|j: int| 0 <= j < leb128_encode(v).len() - 1 ==> leb128_encode(v)[j] >= 0x80,
        leb128_encode(v)[leb128_encode(v).len() - 1] < 0x80,
        leb128_digits(leb128_encode(v) + rest, leb128_encode(v).len()) == v,
    decreases v,
{
    let e = leb128_encode(v);
    if v < 128 {
        assert((e + rest).drop_first() =~= rest);
        assert(leb128_digits(rest, 0) == 0);
        assert((e + rest)[0] % 128 == v);
    } else {
        let e2 = leb128_encode(v / 128);
        lemma_encode_shape(v / 128, rest);
        assert((e + rest).drop_first() =~= e2 + rest);
        assert((e + rest)[0] % 128 == v % 128);
        assert(e.len() - 1 == e2.len());
        assert(leb128_digits(e + rest, e.len()) == v % 128 + 128 * leb128_digits(e2 + rest, e2.len()));
        assert(forall|j: int| 1 <= j < e.len() ==> e[j] == e2[j - 1]);
    }
}

proof fn lemma_encode_len(v: nat, k: nat)
    requires
        1 <= k,
        v < pow2(7 * k),
    ensures
        leb128_encode(v).len() <= k,
    decreases v,
{
    lemma2_to64();
    if v >= 128 {
        if k == 1 {
            assert(false);
        }
        lemma_pow2_adds(7 * (k - 1) as nat, 7);
        assert(7 * k == 7 * (k - 1) as nat + 7);
        assert(v / 128 < pow2(7 * (k - 1) as nat)) by {
            vstd::arithmetic::div_mod::lemma_multiply_divide_lt(v as int, 128, pow2(7 * (k - 1) as nat) as int);
        }
        lemma_encode_len(v / 128, (k - 1) as nat);
    }
}

/// Reads back the encoding of a `bits`-bit value of at most `max_len` bytes.
proof fn lemma_round_trip(v: nat, rest: Seq<u8>, max_len: nat, bits: nat)
    requires
        1 <= max_len,
        v < pow2(bits),
        bits <= 7 * max_len,
    ensures
        spec_leb128(leb128_encode(v) + rest, max_len, bits) == Ok::<(Seq<u8>, nat), ParseError>((rest, v)),
{
    let e = leb128_encode(v);
    let s = e + rest;
    lemma_encode_shape(v, rest);
    if bits < 7 * max_len {
        lemma_pow2_strictly_increases(bits, 7 * max_len);
    }
    lemma_encode_len(v, max_len);
    assert forall|j: int| 0 <= j < e.len() implies s[j] == e[j] by {}
    lemma_end_at(s, e.len(), 0, max_len);
    assert(s.skip(e.len() as int) =~= rest);
    lemma_small_mod(v, pow2(bits));
}

/// Every `u64` reads back from its encoding, whatever follows it.
pub proof fn lemma_leb128_u64_round_trip(v: u64, rest: Seq<u8>)
    ensures
        spec_leb128_u64(leb128_encode(v as nat) + rest) == Ok::<(Seq<u8>, u64), ParseError>((rest, v)),
{
    lemma2_to64();
    lemma_round_trip(v as nat, rest, 10, 64);
}

/// Every `u32` reads back from its encoding, whatever follows it.
pub proof fn lemma_leb128_u32_round_trip(v: u32, rest: Seq<u8>)
    ensures
        spec_leb128_u32(leb128_encode(v as nat) + rest) == Ok::<(Seq<u8>, u32), ParseError>((rest, v)),
{
    lemma2_to64();
    lemma_round_trip(v as nat, rest, 5, 32);
}

proof fn lemma_all_continue(s: Seq<u8>, pos: nat, max_len: nat)
    requires
        pos < max_len,
        forall|j: int| pos <= j < max_len && j < s.len() ==> s[j] >= 0x80,
    ensures
        leb128_end(s, pos, max_len) == if s.len() >= max_len {
            Err::<nat, ParseError>(ParseError::Error(ErrorKind::Leb128TooLarge))
        } else {
            Err::<nat, ParseError>(ParseError::Incomplete(Needed::Size(1)))
        },
    decreases s.len() - pos,
{
    if pos < s.len() && pos + 1 < max_len {
        lemma_all_continue(s, pos + 1, max_len);
    }
}

/// Input whose first `ceil(64 / 7)` bytes all have the continuation bit set
/// is too large for a `u64`; shorter input of such bytes is incomplete by one
/// byte.
pub proof fn lemma_leb128_u64_unterminated(s: Seq<u8>)
    requires
        forall|j: int| 0 <= j < 10 && j < s.len() ==> s[j] >= 0x80,
    ensures
        s.len() >= 10 ==> spec_leb128_u64(s) == Err::<(Seq<u8>, u64), ParseError>(
            ParseError::Error(ErrorKind::Leb128TooLarge),
        ),
        s.len() < 10 ==> spec_leb128_u64(s) == Err::<(Seq<u8>, u64), ParseError>(
            ParseError::Incomplete(Needed::Size(1)),
        ),
{
    lemma_all_continue(s, 0, 10);
}

/// Input whose first `ceil(32 / 7)` bytes all have the continuation bit set
/// is too large for a `u32`; shorter input of such bytes is incomplete by one
/// byte.
pub proof fn lemma_leb128_u32_unterminated(s: Seq<u8>)
    requires
        forall|j: int| 0 <= j < 5 && j < s.len() ==> s[j] >= 0x80,
    ensures
        s.len() >= 5 ==> spec_leb128_u32(s) == Err::<(Seq<u8>, u32), ParseError>(
            ParseError::Error(ErrorKind::Leb128TooLarge),
        ),
        s.len() < 5 ==> spec_leb128_u32(s) == Err::<(Seq<u8>, u32), ParseError>(
            ParseError::Incomplete(Needed::Size(1)),
        ),
{
    lemma_all_continue(s, 0, 5);
}

} // verus!

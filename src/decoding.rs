//! Run-length, delta and boolean decoders over the bytes of one column.
//!
//! Each decoder is seen as the sequence of items it has yet to give, with a
//! flag that is false when malformed bytes come after the last of them.
use vstd::prelude::*;
use vstd::utf8::{decode_utf8, valid_utf8};

use crate::leb128::leb128_digits;
use crate::parse::{str_from_utf8, take_u64};

verus! {

/// The bytes of a column do not decode.
#[derive(Debug, Clone, Copy, PartialEq, Eq, Structural)]
pub enum DecodeError {
    InvalidColumnData,
}

/// Where the unsigned reading of `s` by the `leb128` crate ends, scanning
/// from `pos`: at most ten bytes, the tenth being 0 or 1.
pub open spec fn uleb_end(s: Seq<u8>, pos: nat) -> Option<nat>
    decreases 10 - pos,
{
    if pos >= s.len() || pos >= 10 {
        None
    } else if pos == 9 && s[pos as int] > 1 {
        None
    } else if s[pos as int] < 0x80 {
        Some(pos + 1)
    } else {
        uleb_end(s, pos + 1)
    }
}

/// Where the signed reading of `s` by the `leb128` crate ends, scanning
/// from `pos`: at most ten bytes, the tenth being `0x00` or `0x7f`.
pub open spec fn sleb_end(s: Seq<u8>, pos: nat) -> Option<nat>
    decreases 10 - pos,
{
    if pos >= s.len() || pos >= 10 {
        None
    } else if pos == 9 && s[pos as int] != 0 && s[pos as int] != 0x7f {
        None
    } else if s[pos as int] < 0x80 {
        Some(pos + 1)
    } else {
        sleb_end(s, pos + 1)
    }
}

/// The signed value of the first `n` bytes of `s`: the digits, sign
/// extended from bit 6 of the last byte.
pub open spec fn sleb_value(s: Seq<u8>, n: nat) -> int {
    if n == 10 {
        if s[9] == 0 {
            leb128_digits(s, 9) as int
        } else {
            leb128_digits(s, 9) - 0x8000_0000_0000_0000
        }
    } else if s[n - 1] >= 0x40 {
        leb128_digits(s, n) - vstd::arithmetic::power2::pow2(7 * n)
    } else {
        leb128_digits(s, n) as int
    }
}

/// An unsigned LEB128 number at the front of `s`, with the number of bytes
/// it takes.
pub open spec fn spec_read_unsigned(s: Seq<u8>) -> Option<(u64, nat)> {
    match uleb_end(s, 0) {
        Some(n) => Some((leb128_digits(s, n) as u64, n)),
        None => None,
    }
}

/// A signed LEB128 number at the front of `s`, with the number of bytes it
/// takes.
pub open spec fn spec_read_signed(s: Seq<u8>) -> Option<(i64, nat)> {
    match sleb_end(s, 0) {
        Some(n) => Some((sleb_value(s, n) as i64, n)),
        None => None,
    }
}

/// Relies on leb128::read::unsigned, reading from a byte slice that it
/// advances past what it read: it takes bytes up to the first one below
/// `0x80`, fails at the end of the slice, fails when the tenth byte is
/// neither 0 nor 1, and returns the sum of the low seven bits of byte `k`
/// times `2^(7k)`.
#[verifier::external_body]
pub(crate) fn read_unsigned<'a>(b: &'a [u8]) -> (r: Option<(u64, &'a [u8])>)
    ensures
        match uleb_end(b@, 0) {
            Some(n) => (r matches Some((v, rest)) && v as nat == leb128_digits(b@, n) && rest@ == b@.skip(
                n as int,
            )),
            None => r is None,
        },
{
    let mut rest = b;
    match leb128::read::unsigned(&mut rest) {
        Ok(v) => Some((v, rest)),
        Err(_) => None,
    }
}

/// Relies on leb128::read::signed, reading from a byte slice that it
/// advances past what it read: it takes bytes up to the first one below
/// `0x80`, fails at the end of the slice, fails when the tenth byte is
/// neither `0x00` nor `0x7f`, sums the low seven bits of byte `k` times
/// `2^(7k)` in an `i64`, and sign extends from bit 6 of the last byte when
/// fewer than ten bytes were read.
#[verifier::external_body]
pub(crate) fn read_signed<'a>(b: &'a [u8]) -> (r: Option<(i64, &'a [u8])>)
    ensures
        match sleb_end(b@, 0) {
            Some(n) => (r matches Some((v, rest)) && v as int == sleb_value(b@, n) && rest@ == b@.skip(
                n as int,
            )),
            None => r is None,
        },
{
    let mut rest = b;
    match leb128::read::signed(&mut rest) {
        Ok(v) => Some((v, rest)),
        Err(_) => None,
    }
}

/// An unsigned reading takes at least one byte and no more than there are.
pub proof fn lemma_uleb_end_bound(s: Seq<u8>, pos: nat)
    ensures
        uleb_end(s, pos) matches Some(n) ==> pos < n <= s.len(),
    decreases 10 - pos,
{
    if pos < s.len() && pos < 10 && !(pos == 9 && s[pos as int] > 1) && s[pos as int] >= 0x80 {
        lemma_uleb_end_bound(s, pos + 1);
    }
}

/// A signed reading takes at least one byte and no more than there are.
pub proof fn lemma_sleb_end_bound(s: Seq<u8>, pos: nat)
    ensures
        sleb_end(s, pos) matches Some(n) ==> pos < n <= s.len(),
    decreases 10 - pos,
{
    if pos < s.len() && pos < 10 && !(pos == 9 && s[pos as int] != 0 && s[pos as int] != 0x7f)
        && s[pos as int] >= 0x80 {
        lemma_sleb_end_bound(s, pos + 1);
    }
}

/// An item of a run-length encoded column, as a mathematical value.
pub enum RleValueView {
    Uint(u64),
    Int(i64),
    Str(Seq<char>),
}

/// What a run-length encoded column holds.
pub trait RleItem: Sized {
    spec fn model(&self) -> RleValueView;

    /// An item at the front of `s`, with the number of bytes it takes.
    spec fn spec_read(s: Seq<u8>) -> Option<(RleValueView, nat)>;

    proof fn lemma_read_consumes(s: Seq<u8>)
        ensures
            Self::spec_read(s) matches Some((_, n)) ==> 1 <= n <= s.len(),
    ;

    fn read<'a>(s: &'a [u8]) -> (r: Option<(Self, &'a [u8])>)
        ensures
            match Self::spec_read(s@) {
                Some((v, n)) => (r matches Some((x, rest)) && x.model() == v && rest@ == s@.skip(n as int)),
                None => r is None,
            },
    ;

    fn duplicate(&self) -> (r: Self)
        ensures
            r.model() == self.model(),
    ;
}

impl RleItem for u64 {
    open spec fn model(&self) -> RleValueView {
        RleValueView::Uint(*self)
    }

    open spec fn spec_read(s: Seq<u8>) -> Option<(RleValueView, nat)> {
        match spec_read_unsigned(s) {
            Some((v, n)) => Some((RleValueView::Uint(v), n)),
            None => None,
        }
    }

    proof fn lemma_read_consumes(s: Seq<u8>) {
        lemma_uleb_end_bound(s, 0);
    }

    fn read<'a>(s: &'a [u8]) -> (r: Option<(u64, &'a [u8])>) {
        read_unsigned(s)
    }

    fn duplicate(&self) -> (r: u64) {
        *self
    }
}

impl RleItem for i64 {
    open spec fn model(&self) -> RleValueView {
        RleValueView::Int(*self)
    }

    open spec fn spec_read(s: Seq<u8>) -> Option<(RleValueView, nat)> {
        match spec_read_signed(s) {
            Some((v, n)) => Some((RleValueView::Int(v), n)),
            None => None,
        }
    }

    proof fn lemma_read_consumes(s: Seq<u8>) {
        lemma_sleb_end_bound(s, 0);
    }

    fn read<'a>(s: &'a [u8]) -> (r: Option<(i64, &'a [u8])>) {
        read_signed(s)
    }

    fn duplicate(&self) -> (r: i64) {
        *self
    }
}

impl RleItem for String {
    open spec fn model(&self) -> RleValueView {
        RleValueView::Str(self@)
    }

    /// A length, then that many bytes of UTF-8.
    open spec fn spec_read(s: Seq<u8>) -> Option<(RleValueView, nat)> {
        match spec_read_unsigned(s) {
            Some((len, n)) => if n + len <= s.len() && valid_utf8(s.subrange(n as int, n + len)) {
                Some((RleValueView::Str(decode_utf8(s.subrange(n as int, n + len))), (n + len) as nat))
            } else {
                None
            },
            None => None,
        }
    }

    proof fn lemma_read_consumes(s: Seq<u8>) {
        lemma_uleb_end_bound(s, 0);
    }

    fn read<'a>(s: &'a [u8]) -> (r: Option<(String, &'a [u8])>) {
        let (len, rest) = read_unsigned(s)?;
        proof {
            lemma_uleb_end_bound(s@, 0);
        }
        let (rest2, bytes) = match take_u64(len, rest) {
            Ok(x) => x,
            Err(_) => return None,
        };
        proof {
            let n = uleb_end(s@, 0)->0;
            assert(bytes@ =~= s@.subrange(n as int, n + len));
            assert(rest2@ =~= s@.skip(n + len));
        }
        let text = str_from_utf8(bytes)?;
        Some((text.to_owned(), rest2))
    }

    fn duplicate(&self) -> (r: String) {
        self.clone()
    }
}

/// The model of an optional item.
pub open spec fn opt_model<T: RleItem>(v: Option<T>) -> Option<RleValueView> {
    match v {
        Some(x) => Some(x.model()),
        None => None,
    }
}

/// Items `prefix` followed by what `rest` holds.
pub open spec fn then<A>(prefix: Seq<A>, rest: (Seq<A>, bool)) -> (Seq<A>, bool) {
    (prefix + rest.0, rest.1)
}

/// The items of a run-length encoding: runs, each a signed count `c` then,
/// for `c > 0`, one value repeated `c` times; for `c < 0`, `-c` values; for
/// `c == 0`, an unsigned count of nulls.
pub open spec fn spec_rle<T: RleItem>(s: Seq<u8>) -> (Seq<Option<RleValueView>>, bool)
    decreases s.len(), 0nat,
{
    if s.len() == 0 {
        (Seq::empty(), true)
    } else {
        match spec_read_signed(s) {
            None => (Seq::empty(), false),
            Some((c, n)) => {
                proof {
                    lemma_sleb_end_bound(s, 0);
                }
                let s1 = s.skip(n as int);
                if c > 0 {
                    match T::spec_read(s1) {
                        None => (Seq::empty(), false),
                        Some((v, m)) => {
                            proof {
                                T::lemma_read_consumes(s1);
                            }
                            then(Seq::new(c as nat, |i: int| Some(v)), spec_rle::<T>(s1.skip(m as int)))
                        },
                    }
                } else if c < 0 {
                    spec_rle_literal::<T>(s1, (-c) as nat)
                } else {
                    match spec_read_unsigned(s1) {
                        None => (Seq::empty(), false),
                        Some((k, m)) => {
                            proof {
                                lemma_uleb_end_bound(s1, 0);
                            }
                            then(Seq::new(k as nat, |i: int| None), spec_rle::<T>(s1.skip(m as int)))
                        },
                    }
                }
            },
        }
    }
}

/// The items of `k` literal values at the front of `s`, then of the runs
/// that follow them.
pub open spec fn spec_rle_literal<T: RleItem>(s: Seq<u8>, k: nat) -> (Seq<Option<RleValueView>>, bool)
    decreases s.len(), k + 1,
{
    if k == 0 {
        spec_rle::<T>(s)
    } else {
        match T::spec_read(s) {
            None => (Seq::empty(), false),
            Some((v, m)) => {
                proof {
                    T::lemma_read_consumes(s);
                }
                then(seq![Some(v)], spec_rle_literal::<T>(s.skip(m as int), (k - 1) as nat))
            },
        }
    }
}

/// The run being read.
pub enum Run<T> {
    /// One value, or a null, repeated.
    Repeat(Option<T>),
    /// Values that each stand in the data.
    Literal,
}

pub struct RleDecoder<'a, T> {
    data: &'a [u8],
    count: u64,
    run: Run<T>,
}

impl<'a, T: RleItem> View for RleDecoder<'a, T> {
    type V = (Seq<Option<RleValueView>>, bool);

    closed spec fn view(&self) -> (Seq<Option<RleValueView>>, bool) {
        match self.run {
            Run::Repeat(v) => then(Seq::new(self.count as nat, |i: int| opt_model(v)), spec_rle::<T>(self.data@)),
            Run::Literal => spec_rle_literal::<T>(self.data@, self.count as nat),
        }
    }
}

fn duplicate_opt<T: RleItem>(v: &Option<T>) -> (r: Option<T>)
    ensures
        opt_model(r) == opt_model(*v),
{
    match v {
        Some(x) => Some(x.duplicate()),
        None => None,
    }
}

impl<'a, T: RleItem> RleDecoder<'a, T> {
    pub fn new(data: &'a [u8]) -> (r: RleDecoder<'a, T>)
        ensures
            r@ == spec_rle::<T>(data@),
    {
        let r = RleDecoder { data, count: 0, run: Run::Repeat(None) };
        assert(Seq::new(0, |i: int| opt_model::<T>(None)) + spec_rle::<T>(data@).0 =~= spec_rle::<T>(data@).0);
        r
    }

    /// Whether no item is left and no malformed byte follows.
    pub fn done(&self) -> (r: bool)
        ensures
            r == (self@.0.len() == 0 && self@.1),
    {
        if self.count > 0 {
            match self.run {
                Run::Repeat(_) => {},
                Run::Literal => {
                    proof {
                        T::lemma_read_consumes(self.data@);
                    }
                },
            }
            return false;
        }
        proof {
            self.lemma_view_at_run_end();
        }
        rle_done::<T>(self.data)
    }

    proof fn lemma_view_at_run_end(&self)
        requires
            self.count == 0,
        ensures
            self@ == spec_rle::<T>(self.data@),
    {
        match self.run {
            Run::Repeat(v) => {
                assert(Seq::new(0, |i: int| opt_model(v)) + spec_rle::<T>(self.data@).0 =~= spec_rle::<T>(
                    self.data@,
                ).0);
            },
            Run::Literal => {},
        }
    }

    /// Gives the next item: `Ok(None)` once no item is left.
    pub fn next_item(&mut self) -> (r: Result<Option<Option<T>>, DecodeError>)
        ensures
            old(self)@.0.len() > 0 ==> (r matches Ok(Some(x)) && opt_model(x) == old(self)@.0[0]
                && final(self)@ == (old(self)@.0.drop_first(), old(self)@.1)),
            old(self)@.0.len() == 0 && old(self)@.1 ==> (r matches Ok(None)) && final(self)@ == old(self)@,
            old(self)@.0.len() == 0 && !old(self)@.1 ==> r is Err,
    {
        while self.count == 0
            invariant
                self@ == old(self)@,
            decreases self.data@.len(),
        {
            proof {
                self.lemma_view_at_run_end();
            }
            if self.data.len() == 0 {
                return Ok(None);
            }
            let (c, rest) = match read_signed(self.data) {
                Some(x) => x,
                None => return Err(DecodeError::InvalidColumnData),
            };
            proof {
                lemma_sleb_end_bound(self.data@, 0);
            }
            if c > 0 {
                let (v, rest2) = match T::read(rest) {
                    Some(x) => x,
                    None => return Err(DecodeError::InvalidColumnData),
                };
                proof {
                    T::lemma_read_consumes(rest@);
                }
                self.data = rest2;
                self.count = c as u64;
                self.run = Run::Repeat(Some(v));
            } else if c < 0 {
                self.data = rest;
                self.count = (-(c as i128)) as u64;
                self.run = Run::Literal;
            } else {
                let (k, rest2) = match read_unsigned(rest) {
                    Some(x) => x,
                    None => return Err(DecodeError::InvalidColumnData),
                };
                proof {
                    lemma_uleb_end_bound(rest@, 0);
                }
                self.data = rest2;
                self.count = k;
                self.run = Run::Repeat(None);
            }
        }
        let ghost before = self@;
        self.count = self.count - 1;
        match &self.run {
            Run::Repeat(v) => {
                let x = duplicate_opt(v);
                proof {
                    assert(self@.0 =~= before.0.drop_first());
                }
                Ok(Some(x))
            },
            Run::Literal => {
                let (v, rest) = match T::read(self.data) {
                    Some(x) => x,
                    None => return Err(DecodeError::InvalidColumnData),
                };
                self.data = rest;
                proof {
                    assert(self@.0 =~= before.0.drop_first());
                }
                Ok(Some(Some(v)))
            },
        }
    }
}

/// Whether the runs in `data` hold no item and decode without error: only
/// empty runs of nulls.
fn rle_done<T: RleItem>(data: &[u8]) -> (r: bool)
    ensures
        r == (spec_rle::<T>(data@).0.len() == 0 && spec_rle::<T>(data@).1),
{
    let mut rest = data;
    while rest.len() > 0
        invariant
            spec_rle::<T>(data@) == spec_rle::<T>(rest@),
        decreases rest@.len(),
    {
        let (c, rest1) = match read_signed(rest) {
            Some(x) => x,
            None => return false,
        };
        proof {
            lemma_sleb_end_bound(rest@, 0);
        }
        if c > 0 {
            proof {
                if let Some((v, m)) = T::spec_read(rest1@) {
                    assert(Seq::new(c as nat, |i: int| Some(v)).len() > 0);
                }
            }
            return false;
        } else if c < 0 {
            proof {
                let k = (-c) as nat;
                assert(spec_rle::<T>(rest@) == spec_rle_literal::<T>(rest1@, k));
                if let Some((v, m)) = T::spec_read(rest1@) {
                    T::lemma_read_consumes(rest1@);
                    assert(spec_rle_literal::<T>(rest1@, k).0 == seq![Some(v)] + spec_rle_literal::<T>(
                        rest1@.skip(m as int),
                        (k - 1) as nat,
                    ).0);
                }
            }
            return false;
        }
        let (k, rest2) = match read_unsigned(rest1) {
            Some(x) => x,
            None => return false,
        };
        proof {
            lemma_uleb_end_bound(rest1@, 0);
        }
        if k > 0 {
            return false;
        }
        proof {
            assert(Seq::new(0, |i: int| None::<RleValueView>) + spec_rle::<T>(rest2@).0 =~= spec_rle::<T>(
                rest2@,
            ).0);
        }
        rest = rest2;
    }
    true
}

/// The booleans of alternating runs: unsigned counts, the first of values
/// equal to `v`.
pub open spec fn spec_bools(s: Seq<u8>, v: bool) -> (Seq<bool>, bool)
    decreases s.len(),
{
    if s.len() == 0 {
        (Seq::empty(), true)
    } else {
        match spec_read_unsigned(s) {
            None => (Seq::empty(), false),
            Some((n, m)) => {
                proof {
                    lemma_uleb_end_bound(s, 0);
                }
                then(Seq::new(n as nat, |i: int| v), spec_bools(s.skip(m as int), !v))
            },
        }
    }
}

/// Alternating runs of `false` and `true`, starting with `false`.
pub struct BooleanDecoder<'a> {
    data: &'a [u8],
    count: u64,
    value: bool,
}

impl<'a> View for BooleanDecoder<'a> {
    type V = (Seq<bool>, bool);

    closed spec fn view(&self) -> (Seq<bool>, bool) {
        then(Seq::new(self.count as nat, |i: int| self.value), spec_bools(self.data@, !self.value))
    }
}

impl<'a> BooleanDecoder<'a> {
    pub fn new(data: &'a [u8]) -> (r: BooleanDecoder<'a>)
        ensures
            r@ == spec_bools(data@, false),
    {
        let r = BooleanDecoder { data, count: 0, value: true };
        assert(r@.0 =~= spec_bools(data@, false).0);
        r
    }

    /// Whether no item is left and no malformed byte follows.
    pub fn done(&self) -> (r: bool)
        ensures
            r == (self@.0.len() == 0 && self@.1),
    {
        if self.count > 0 {
            return false;
        }
        let mut rest = self.data;
        let mut v = !self.value;
        proof {
            assert(self@.0 =~= spec_bools(rest@, v).0);
        }
        while rest.len() > 0
            invariant
                self@ == spec_bools(rest@, v),
            decreases rest@.len(),
        {
            let (n, rest1) = match read_unsigned(rest) {
                Some(x) => x,
                None => return false,
            };
            proof {
                lemma_uleb_end_bound(rest@, 0);
            }
            if n > 0 {
                return false;
            }
            proof {
                assert(Seq::new(0, |i: int| v) + spec_bools(rest1@, !v).0 =~= spec_bools(rest1@, !v).0);
            }
            rest = rest1;
            v = !v;
        }
        true
    }

    /// Gives the next boolean: `Ok(None)` once none is left.
    pub fn next_item(&mut self) -> (r: Result<Option<bool>, DecodeError>)
        ensures
            old(self)@.0.len() > 0 ==> r == Ok::<Option<bool>, DecodeError>(Some(old(self)@.0[0]))
                && final(self)@ == (old(self)@.0.drop_first(), old(self)@.1),
            old(self)@.0.len() == 0 && old(self)@.1 ==> r == Ok::<Option<bool>, DecodeError>(None)
                && final(self)@ == old(self)@,
            old(self)@.0.len() == 0 && !old(self)@.1 ==> r is Err,
    {
        while self.count == 0
            invariant
                self@ == old(self)@,
            decreases self.data@.len(),
        {
            proof {
                assert(self@.0 =~= spec_bools(self.data@, !self.value).0);
            }
            if self.data.len() == 0 {
                return Ok(None);
            }
            let (n, rest) = match read_unsigned(self.data) {
                Some(x) => x,
                None => return Err(DecodeError::InvalidColumnData),
            };
            proof {
                lemma_uleb_end_bound(self.data@, 0);
            }
            self.data = rest;
            self.count = n;
            self.value = !self.value;
        }
        let ghost before = self@;
        self.count = self.count - 1;
        proof {
            assert(self@.0 =~= before.0.drop_first());
        }
        Ok(Some(self.value))
    }
}

/// Running sums from `abs` of the deltas `ds`: a null stays a null, and a
/// sum outside the range of `u64` is an error.
pub open spec fn spec_deltas(abs: int, ds: Seq<Option<RleValueView>>, ok: bool) -> (Seq<Option<u64>>, bool)
    decreases ds.len(),
{
    if ds.len() == 0 {
        (Seq::empty(), ok)
    } else {
        match ds[0] {
            Some(RleValueView::Int(d)) => if 0 <= abs + d <= u64::MAX {
                then(seq![Some((abs + d) as u64)], spec_deltas(abs + d, ds.drop_first(), ok))
            } else {
                (Seq::empty(), false)
            },
            _ => then(seq![None], spec_deltas(abs, ds.drop_first(), ok)),
        }
    }
}

/// Run-length encoded signed deltas, given back as their running sums.
pub struct DeltaDecoder<'a> {
    rle: RleDecoder<'a, i64>,
    absolute: u64,
}

impl<'a> View for DeltaDecoder<'a> {
    type V = (Seq<Option<u64>>, bool);

    closed spec fn view(&self) -> (Seq<Option<u64>>, bool) {
        spec_deltas(self.absolute as int, self.rle@.0, self.rle@.1)
    }
}

impl<'a> DeltaDecoder<'a> {
    pub fn new(data: &'a [u8]) -> (r: DeltaDecoder<'a>)
        ensures
            r@ == spec_deltas(0, spec_rle::<i64>(data@).0, spec_rle::<i64>(data@).1),
    {
        DeltaDecoder { rle: RleDecoder::new(data), absolute: 0 }
    }

    /// Whether no item is left and no malformed byte follows.
    pub fn done(&self) -> (r: bool)
        ensures
            r == (self@.0.len() == 0 && self@.1),
    {
        self.rle.done()
    }

    /// Gives the next running sum, or a null: `Ok(None)` once none is left.
    pub fn next_item(&mut self) -> (r: Result<Option<Option<u64>>, DecodeError>)
        ensures
            old(self)@.0.len() > 0 ==> r == Ok::<Option<Option<u64>>, DecodeError>(Some(old(self)@.0[0]))
                && final(self)@ == (old(self)@.0.drop_first(), old(self)@.1),
            old(self)@.0.len() == 0 && old(self)@.1 ==> r == Ok::<Option<Option<u64>>, DecodeError>(None)
                && final(self)@ == old(self)@,
            old(self)@.0.len() == 0 && !old(self)@.1 ==> r is Err,
    {
        match self.rle.next_item()? {
            None => Ok(None),
            Some(None) => Ok(Some(None)),
            Some(Some(delta)) => {
                let sum: i128 = self.absolute as i128 + delta as i128;
                if sum < 0 || sum > u64::MAX as i128 {
                    return Err(DecodeError::InvalidColumnData);
                }
                self.absolute = sum as u64;
                Ok(Some(Some(self.absolute)))
            },
        }
    }
}

} // verus!

//! One decoder per classified column, pulled one cell at a time.
use vstd::prelude::*;
use vstd::utf8::{decode_utf8, valid_utf8};

use crate::column::{Column, ColumnView, CopyRange, GroupedColumn, SimpleColType};
use crate::decoding::{
    read_signed, read_unsigned, spec_bools, spec_deltas, spec_read_signed, spec_read_unsigned,
    spec_rle, then, BooleanDecoder, DecodeError, DeltaDecoder, RleDecoder, RleValueView,
};
use crate::parse::str_from_utf8;
use crate::value::{flat_row, flat_view, is_flat, opt_cell, CellValue, CellView, PrimVal, PrimView};

verus! {

#[derive(Debug, Clone, Copy, PartialEq, Eq, Structural)]
pub enum ValueType {
    Null,
    False,
    True,
    Uleb,
    Leb,
    Float,
    String,
    Bytes,
    Counter,
    Timestamp,
    Unknown(u8),
}

/// The type that the low four bits of a value's metadata name.
pub open spec fn value_type_of(m: u64) -> ValueType {
    let code = m % 16;
    if code == 0 {
        ValueType::Null
    } else if code == 1 {
        ValueType::False
    } else if code == 2 {
        ValueType::True
    } else if code == 3 {
        ValueType::Uleb
    } else if code == 4 {
        ValueType::Leb
    } else if code == 5 {
        ValueType::Float
    } else if code == 6 {
        ValueType::String
    } else if code == 7 {
        ValueType::Bytes
    } else if code == 8 {
        ValueType::Counter
    } else if code == 9 {
        ValueType::Timestamp
    } else {
        ValueType::Unknown(code as u8)
    }
}

/// The metadata of one value: its type in the low four bits, the length of
/// its bytes in the others.
#[derive(Debug, Clone, Copy, PartialEq, Eq, Structural)]
pub struct ValueMeta(pub u64);

impl ValueMeta {
    pub fn type_code(&self) -> (r: ValueType)
        ensures
            r == value_type_of(self.0),
    {
        let low = (self.0 % 16) as u8;
        match low {
            0 => ValueType::Null,
            1 => ValueType::False,
            2 => ValueType::True,
            3 => ValueType::Uleb,
            4 => ValueType::Leb,
            5 => ValueType::Float,
            6 => ValueType::String,
            7 => ValueType::Bytes,
            8 => ValueType::Counter,
            9 => ValueType::Timestamp,
            other => ValueType::Unknown(other),
        }
    }

    pub fn length(&self) -> (r: u64)
        ensures
            r == self.0 / 16,
    {
        self.0 / 16
    }
}

impl From<u64> for ValueMeta {
    fn from(raw: u64) -> (r: ValueMeta) {
        ValueMeta(raw)
    }
}

impl vstd::std_specs::convert::FromSpecImpl<u64> for ValueMeta {
    open spec fn obeys_from_spec() -> bool {
        true
    }

    open spec fn from_spec(raw: u64) -> ValueMeta {
        ValueMeta(raw)
    }
}

/// The little-endian reading of eight bytes.
pub open spec fn le_u64(b: Seq<u8>) -> u64 {
    (b[0] + b[1] * 0x100 + b[2] * 0x1_0000 + b[3] * 0x100_0000 + b[4] * 0x1_0000_0000 + b[5]
        * 0x100_0000_0000 + b[6] * 0x1_0000_0000_0000 + b[7] * 0x100_0000_0000_0000) as u64
}

fn read_le_u64(b: &[u8]) -> (r: u64)
    requires
        b@.len() == 8,
    ensures
        r == le_u64(b@),
{
    (b[0] as u64) + (b[1] as u64) * 0x100 + (b[2] as u64) * 0x1_0000 + (b[3] as u64) * 0x100_0000
        + (b[4] as u64) * 0x1_0000_0000 + (b[5] as u64) * 0x100_0000_0000 + (b[6] as u64)
        * 0x1_0000_0000_0000 + (b[7] as u64) * 0x100_0000_0000_0000
}

/// The scalar that metadata `m` describes at the front of the raw bytes
/// `raw`, with the number of raw bytes it takes.
pub open spec fn spec_prim(m: u64, raw: Seq<u8>) -> Option<(PrimView, nat)> {
    let len = m / 16;
    let b = raw.take(len as int);
    match value_type_of(m) {
        ValueType::Null => Some((PrimView::Null, 0)),
        ValueType::False => Some((PrimView::Bool(false), 0)),
        ValueType::True => Some((PrimView::Bool(true), 0)),
        t => if len > raw.len() {
            None
        } else {
            match t {
                ValueType::Uleb => match spec_read_unsigned(b) {
                    Some((v, _)) => Some((PrimView::Uint(v), len as nat)),
                    None => None,
                },
                ValueType::Leb => match spec_read_signed(b) {
                    Some((v, _)) => Some((PrimView::Int(v), len as nat)),
                    None => None,
                },
                ValueType::Float => if len == 8 {
                    Some((PrimView::Float(le_u64(b)), 8))
                } else {
                    None
                },
                ValueType::String => if valid_utf8(b) {
                    Some((PrimView::Str(decode_utf8(b)), len as nat))
                } else {
                    None
                },
                ValueType::Bytes => Some((PrimView::Bytes(b), len as nat)),
                ValueType::Counter => match spec_read_unsigned(b) {
                    Some((v, _)) => Some((PrimView::Counter(v), len as nat)),
                    None => None,
                },
                ValueType::Timestamp => match spec_read_unsigned(b) {
                    Some((v, _)) => Some((PrimView::Timestamp(v), len as nat)),
                    None => None,
                },
                ValueType::Unknown(code) => Some((PrimView::Unknown(code, b), len as nat)),
                _ => None,
            }
        },
    }
}

/// Reads the scalar that metadata `meta` describes from the raw bytes.
fn read_prim<'a>(meta: u64, raw: &'a [u8]) -> (r: Result<(PrimVal, &'a [u8]), DecodeError>)
    ensures
        match spec_prim(meta, raw@) {
            Some((p, n)) => (r matches Ok((v, rest)) && v@ == p && rest@ == raw@.skip(n as int)),
            None => r is Err,
        },
{
    let val_meta = ValueMeta::from(meta);
    let t = val_meta.type_code();
    match t {
        ValueType::Null => {
            assert(raw@.skip(0) =~= raw@);
            return Ok((PrimVal::Null, raw));
        },
        ValueType::False => {
            assert(raw@.skip(0) =~= raw@);
            return Ok((PrimVal::Bool(false), raw));
        },
        ValueType::True => {
            assert(raw@.skip(0) =~= raw@);
            return Ok((PrimVal::Bool(true), raw));
        },
        _ => {},
    }
    let len = val_meta.length();
    if len > raw.len() as u64 {
        return Err(DecodeError::InvalidColumnData);
    }
    let (bytes, rest) = raw.split_at(len as usize);
    proof {
        assert(bytes@ =~= raw@.take(len as int));
        assert(rest@ =~= raw@.skip(len as int));
    }
    let p = match t {
        ValueType::Uleb => match read_unsigned(bytes) {
            Some((v, _)) => PrimVal::Uint(v),
            None => return Err(DecodeError::InvalidColumnData),
        },
        ValueType::Leb => match read_signed(bytes) {
            Some((v, _)) => PrimVal::Int(v),
            None => return Err(DecodeError::InvalidColumnData),
        },
        ValueType::Float => {
            if len != 8 {
                return Err(DecodeError::InvalidColumnData);
            }
            PrimVal::Float(read_le_u64(bytes))
        },
        ValueType::String => match str_from_utf8(bytes) {
            Some(text) => PrimVal::String(text.to_owned()),
            None => return Err(DecodeError::InvalidColumnData),
        },
        ValueType::Bytes => PrimVal::Bytes(vstd::slice::slice_to_vec(bytes)),
        ValueType::Counter => match read_unsigned(bytes) {
            Some((v, _)) => PrimVal::Counter(v),
            None => return Err(DecodeError::InvalidColumnData),
        },
        ValueType::Timestamp => match read_unsigned(bytes) {
            Some((v, _)) => PrimVal::Timestamp(v),
            None => return Err(DecodeError::InvalidColumnData),
        },
        ValueType::Unknown(code) => PrimVal::Unknown { type_code: code, data: vstd::slice::slice_to_vec(bytes) },
        _ => return Err(DecodeError::InvalidColumnData),
    };
    Ok((p, rest))
}

/// The cells of a run-length encoded column of unsigned integers.
pub open spec fn uint_cells(items: Seq<Option<RleValueView>>) -> Seq<Option<CellView>> {
    items.map_values(
        |x: Option<RleValueView>|
            match x {
                Some(RleValueView::Uint(u)) => Some(CellView::Uint(u)),
                _ => None,
            },
    )
}

/// The cells of a run-length encoded column of strings.
pub open spec fn str_cells(items: Seq<Option<RleValueView>>) -> Seq<Option<CellView>> {
    items.map_values(
        |x: Option<RleValueView>|
            match x {
                Some(RleValueView::Str(s)) => Some(CellView::Str(s)),
                _ => None,
            },
    )
}

/// The cells of a delta encoded column.
pub open spec fn delta_cells(items: Seq<Option<u64>>) -> Seq<Option<CellView>> {
    items.map_values(
        |x: Option<u64>|
            match x {
                Some(u) => Some(CellView::Uint(u)),
                None => None,
            },
    )
}

/// The cells of a boolean column.
pub open spec fn bool_cells(items: Seq<bool>) -> Seq<Option<CellView>> {
    items.map_values(|b: bool| Some(CellView::Bool(b)))
}

/// The cells of a value column: each metadata entry takes its scalar from
/// the raw bytes in turn; a null entry gives an empty list.
pub open spec fn spec_value_cells(metas: Seq<Option<RleValueView>>, ok: bool, raw: Seq<u8>) -> (
    Seq<Option<CellView>>,
    bool,
)
    decreases metas.len(),
{
    if metas.len() == 0 {
        (Seq::empty(), ok)
    } else {
        match metas[0] {
            Some(RleValueView::Uint(m)) => match spec_prim(m, raw) {
                None => (Seq::empty(), false),
                Some((p, n)) => then(
                    seq![Some(CellView::Value(p))],
                    spec_value_cells(metas.drop_first(), ok, raw.skip(n as int)),
                ),
            },
            _ => then(
                seq![Some(CellView::List(Seq::empty()))],
                spec_value_cells(metas.drop_first(), ok, raw),
            ),
        }
    }
}

/// The cells of a simple column of type `t` over `data`.
pub open spec fn spec_simple_cells(t: SimpleColType, data: Seq<u8>) -> (Seq<Option<CellView>>, bool) {
    match t {
        SimpleColType::Actor => (uint_cells(spec_rle::<u64>(data).0), spec_rle::<u64>(data).1),
        SimpleColType::Integer => (uint_cells(spec_rle::<u64>(data).0), spec_rle::<u64>(data).1),
        SimpleColType::String => (str_cells(spec_rle::<String>(data).0), spec_rle::<String>(data).1),
        SimpleColType::Boolean => (bool_cells(spec_bools(data, false).0), spec_bools(data, false).1),
        SimpleColType::DeltaInteger => {
            let d = spec_deltas(0, spec_rle::<i64>(data).0, spec_rle::<i64>(data).1);
            (delta_cells(d.0), d.1)
        },
    }
}

/// The cells of a value column with metadata bytes `meta` and raw bytes
/// `raw`.
pub open spec fn spec_value_column(meta: Seq<u8>, raw: Seq<u8>) -> (Seq<Option<CellView>>, bool) {
    spec_value_cells(spec_rle::<u64>(meta).0, spec_rle::<u64>(meta).1, raw)
}

/// The decoder of a column that needs no other column.
pub enum SimpleColDecoder<'a> {
    RleUint(RleDecoder<'a, u64>),
    RleString(RleDecoder<'a, String>),
    Value { meta: RleDecoder<'a, u64>, raw: &'a [u8] },
    Delta(DeltaDecoder<'a>),
    Bool(BooleanDecoder<'a>),
}

impl<'a> View for SimpleColDecoder<'a> {
    type V = (Seq<Option<CellView>>, bool);

    open spec fn view(&self) -> (Seq<Option<CellView>>, bool) {
        match self {
            SimpleColDecoder::RleUint(d) => (uint_cells(d@.0), d@.1),
            SimpleColDecoder::RleString(d) => (str_cells(d@.0), d@.1),
            SimpleColDecoder::Value { meta, raw } => spec_value_cells(meta@.0, meta@.1, raw@),
            SimpleColDecoder::Delta(d) => (delta_cells(d@.0), d@.1),
            SimpleColDecoder::Bool(d) => (bool_cells(d@.0), d@.1),
        }
    }
}

/// The next cell of a decoder that holds the cells `v`: once none is left,
/// an empty list where `fills` (a value column) and `Ok(None)` elsewhere; an
/// error where malformed bytes come first.
pub open spec fn gives_next(
    v: (Seq<Option<CellView>>, bool),
    fills: bool,
    r: Result<Option<Option<CellValue>>, DecodeError>,
) -> bool {
    &&& v.0.len() > 0 ==> (r matches Ok(Some(x)) && opt_cell(x) == v.0[0] && (x matches Some(c) ==> is_flat(c)))
    &&& v.0.len() == 0 && v.1 && !fills ==> (r matches Ok(None))
    &&& v.0.len() == 0 && v.1 && fills ==> (r matches Ok(Some(Some(CellValue::List(rows)))) && rows@.len() == 0)
    &&& v.0.len() == 0 && !v.1 ==> r is Err
}

impl<'a> SimpleColDecoder<'a> {
    pub fn from_type(col_type: SimpleColType, data: &'a [u8]) -> (r: SimpleColDecoder<'a>)
        ensures
            r@ == spec_simple_cells(col_type, data@),
            !(r is Value),
    {
        match col_type {
            SimpleColType::Actor => SimpleColDecoder::RleUint(RleDecoder::new(data)),
            SimpleColType::Integer => SimpleColDecoder::RleUint(RleDecoder::new(data)),
            SimpleColType::String => SimpleColDecoder::RleString(RleDecoder::new(data)),
            SimpleColType::Boolean => SimpleColDecoder::Bool(BooleanDecoder::new(data)),
            SimpleColType::DeltaInteger => SimpleColDecoder::Delta(DeltaDecoder::new(data)),
        }
    }

    /// The decoder of a value column.
    pub fn value(meta: &'a [u8], raw: &'a [u8]) -> (r: SimpleColDecoder<'a>)
        ensures
            r@ == spec_value_column(meta@, raw@),
            r is Value,
    {
        SimpleColDecoder::Value { meta: RleDecoder::new(meta), raw }
    }

    /// Whether no cell is left and no malformed byte follows.
    pub fn done(&self) -> (r: bool)
        ensures
            r == (self@.0.len() == 0 && self@.1),
    {
        match self {
            SimpleColDecoder::RleUint(d) => d.done(),
            SimpleColDecoder::RleString(d) => d.done(),
            SimpleColDecoder::Delta(d) => d.done(),
            SimpleColDecoder::Value { meta, raw } => {
                proof {
                    lemma_value_cells_empty(meta@.0, meta@.1, raw@);
                }
                meta.done()
            },
            SimpleColDecoder::Bool(d) => d.done(),
        }
    }

    /// Gives the next cell, `Some(None)` for a null. Once no cell is left a
    /// value column gives an empty list, as for a null metadata entry, and
    /// the other columns give `None`.
    pub fn next(&mut self) -> (r: Result<Option<Option<CellValue>>, DecodeError>)
        ensures
            gives_next(old(self)@, *old(self) is Value, r),
            old(self)@.0.len() > 0 ==> final(self)@ == (old(self)@.0.drop_first(), old(self)@.1),
            old(self)@.0.len() == 0 && old(self)@.1 ==> final(self)@ == old(self)@,
            *final(self) is Value <==> *old(self) is Value,
    {
        match self {
            SimpleColDecoder::RleUint(d) => {
                let ghost before = d@;
                let r = match d.next_item()? {
                    None => None,
                    Some(None) => Some(None),
                    Some(Some(i)) => Some(Some(CellValue::Uint(i))),
                };
                proof {
                    if before.0.len() > 0 {
                        assert(uint_cells(before.0).drop_first() =~= uint_cells(before.0.drop_first()));
                    }
                }
                Ok(r)
            },
            SimpleColDecoder::RleString(d) => {
                let ghost before = d@;
                let r = match d.next_item()? {
                    None => None,
                    Some(None) => Some(None),
                    Some(Some(s)) => Some(Some(CellValue::String(s))),
                };
                proof {
                    if before.0.len() > 0 {
                        assert(str_cells(before.0).drop_first() =~= str_cells(before.0.drop_first()));
                    }
                }
                Ok(r)
            },
            SimpleColDecoder::Delta(d) => {
                let ghost before = d@;
                let r = match d.next_item()? {
                    None => None,
                    Some(None) => Some(None),
                    Some(Some(i)) => Some(Some(CellValue::Uint(i))),
                };
                proof {
                    if before.0.len() > 0 {
                        assert(delta_cells(before.0).drop_first() =~= delta_cells(before.0.drop_first()));
                    }
                }
                Ok(r)
            },
            SimpleColDecoder::Bool(d) => {
                let ghost before = d@;
                let r = match d.next_item()? {
                    None => None,
                    Some(b) => Some(Some(CellValue::Bool(b))),
                };
                proof {
                    if before.0.len() > 0 {
                        assert(bool_cells(before.0).drop_first() =~= bool_cells(before.0.drop_first()));
                    }
                }
                Ok(r)
            },
            SimpleColDecoder::Value { meta, raw } => {
                let ghost before_meta = meta@;
                let ghost before_raw = raw@;
                proof {
                    lemma_value_cells_empty(meta@.0, meta@.1, raw@);
                }
                match meta.next_item()? {
                    None => {
                        let empty: Vec<Vec<CellValue>> = Vec::new();
                        Ok(Some(Some(CellValue::List(empty))))
                    },
                    Some(Some(m)) => {
                        let (p, rest) = read_prim(m, *raw)?;
                        *raw = rest;
                        Ok(Some(Some(CellValue::Value(p))))
                    },
                    Some(None) => {
                        let empty: Vec<Vec<CellValue>> = Vec::new();
                        let c = CellValue::List(empty);
                        assert(c@ == CellView::List(Seq::empty())) by {
                            assert(empty@.map_values(|r: Vec<CellValue>| flat_row(r@)) =~= Seq::<Seq<CellView>>::empty());
                        }
                        Ok(Some(Some(c)))
                    },
                }
            },
        }
    }
}

proof fn lemma_value_cells_empty(metas: Seq<Option<RleValueView>>, ok: bool, raw: Seq<u8>)
    ensures
        (spec_value_cells(metas, ok, raw).0.len() == 0 && spec_value_cells(metas, ok, raw).1) <==> (
        metas.len() == 0 && ok),
        metas.len() == 0 ==> spec_value_cells(metas, ok, raw) == (Seq::<Option<CellView>>::empty(), ok),
{
}

/// Whether a range lies within a block of `len` bytes.
pub open spec fn range_fits(r: CopyRange, len: nat) -> bool {
    r.start <= r.end <= len
}

/// The bytes of a block that a range covers.
pub open spec fn slice_of(data: Seq<u8>, r: CopyRange) -> Seq<u8> {
    data.subrange(r.start as int, r.end as int)
}

/// The bytes of `data` in range `r`, which must lie within it.
fn slice_range<'a>(data: &'a [u8], r: CopyRange) -> (out: Result<&'a [u8], DecodeError>)
    ensures
        range_fits(r, data@.len()) ==> (out matches Ok(s) && s@ == slice_of(data@, r)),
        !range_fits(r, data@.len()) ==> out is Err,
{
    if r.start <= r.end && r.end <= data.len() {
        Ok(vstd::slice::slice_subrange(data, r.start, r.end))
    } else {
        Err(DecodeError::InvalidColumnData)
    }
}

/// Whether the ranges of a grouped column lie within `len` bytes.
pub open spec fn grouped_fits(g: GroupedColumn, len: nat) -> bool {
    match g {
        GroupedColumn::Single(_, _, r) => range_fits(r, len),
        GroupedColumn::Value { meta, value } => range_fits(meta, len) && range_fits(value, len),
    }
}

/// The cells of a grouped column over the data block.
pub open spec fn grouped_cells(g: GroupedColumn, data: Seq<u8>) -> (Seq<Option<CellView>>, bool) {
    match g {
        GroupedColumn::Single(_, t, r) => spec_simple_cells(t, slice_of(data, r)),
        GroupedColumn::Value { meta, value } => spec_value_column(slice_of(data, meta), slice_of(data, value)),
    }
}

/// A grouped column seen from its group: its cells, the flag that is false
/// when malformed bytes follow them, and whether, once it has ended, it
/// gives empty lists (as a value column does) rather than nothing.
pub type SubState = (Seq<Option<CellView>>, bool, bool);

/// The state of a grouped column over the data block, before the first row.
pub open spec fn grouped_state(g: GroupedColumn, data: Seq<u8>) -> SubState {
    (grouped_cells(g, data).0, grouped_cells(g, data).1, g is Value)
}

/// Whether a grouped column has a cell for the next row: its next cell,
/// which must not be a null, or an empty list once a value column has
/// ended.
pub open spec fn sub_ready(s: SubState) -> bool {
    (s.0.len() > 0 && s.0[0] is Some) || (s.0.len() == 0 && s.1 && s.2)
}

/// The cell that a grouped column gives for the next row.
pub open spec fn sub_cell(s: SubState) -> CellView {
    if s.0.len() > 0 {
        s.0[0]->0
    } else {
        CellView::List(Seq::empty())
    }
}

/// A grouped column after it gave a cell.
pub open spec fn sub_after(s: SubState) -> SubState {
    if s.0.len() > 0 {
        (s.0.drop_first(), s.1, s.2)
    } else {
        s
    }
}

/// Whether the ranges of a column lie within `len` bytes.
pub open spec fn column_fits(c: ColumnView, len: nat) -> bool {
    match c {
        ColumnView::Single(_, _, r) => range_fits(r, len),
        ColumnView::Value { meta, value, .. } => range_fits(meta, len) && range_fits(value, len),
        ColumnView::Group { num, values, .. } => range_fits(num, len) && forall|j: int|
            0 <= j < values.len() ==> grouped_fits(#[trigger] values[j], len),
    }
}

/// Whether every grouped column has a cell for the next row.
pub open spec fn row_ready(subs: Seq<SubState>) -> bool {
    forall|j: int| 0 <= j < subs.len() ==> sub_ready(#[trigger] subs[j])
}

/// One row from the grouped columns: a cell of each, and what is left of
/// them.
pub open spec fn take_row(subs: Seq<SubState>) -> Option<(Seq<CellView>, Seq<SubState>)> {
    if row_ready(subs) {
        Some((Seq::new(subs.len(), |j: int| sub_cell(subs[j])), Seq::new(subs.len(), |j: int| sub_after(subs[j]))))
    } else {
        None
    }
}

/// `n` rows from the grouped columns, and what is left of them.
pub open spec fn take_rows(subs: Seq<SubState>, n: nat) -> Option<
    (Seq<Seq<CellView>>, Seq<SubState>),
>
    decreases n,
{
    if n == 0 {
        Some((Seq::empty(), subs))
    } else {
        match take_row(subs) {
            None => None,
            Some((row, subs1)) => match take_rows(subs1, (n - 1) as nat) {
                None => None,
                Some((rows, subs2)) => Some((seq![row] + rows, subs2)),
            },
        }
    }
}

/// The cells of a group column: each count of the count column takes that
/// many rows from the grouped columns; a null count gives an empty list.
pub open spec fn spec_group_cells(
    nums: Seq<Option<RleValueView>>,
    ok: bool,
    subs: Seq<SubState>,
) -> (Seq<Option<CellView>>, bool)
    decreases nums.len(),
{
    if nums.len() == 0 {
        (Seq::empty(), ok)
    } else {
        match nums[0] {
            Some(RleValueView::Uint(n)) => match take_rows(subs, n as nat) {
                None => (Seq::empty(), false),
                Some((rows, subs2)) => then(
                    seq![Some(CellView::List(rows))],
                    spec_group_cells(nums.drop_first(), ok, subs2),
                ),
            },
            _ => then(seq![Some(CellView::List(Seq::empty()))], spec_group_cells(nums.drop_first(), ok, subs)),
        }
    }
}

/// The cells of a column over the data block.
pub open spec fn spec_column_cells(c: ColumnView, data: Seq<u8>) -> (Seq<Option<CellView>>, bool) {
    match c {
        ColumnView::Single(_, t, r) => spec_simple_cells(t, slice_of(data, r)),
        ColumnView::Value { meta, value, .. } => spec_value_column(slice_of(data, meta), slice_of(data, value)),
        ColumnView::Group { num, values, .. } => spec_group_cells(
            spec_rle::<u64>(slice_of(data, num)).0,
            spec_rle::<u64>(slice_of(data, num)).1,
            values.map_values(|g: GroupedColumn| grouped_state(g, data)),
        ),
    }
}

/// The cells that each decoder holds.
pub open spec fn decoder_views<'a>(v: Seq<SimpleColDecoder<'a>>) -> Seq<SubState> {
    v.map_values(|d: SimpleColDecoder<'a>| (d@.0, d@.1, d is Value))
}

/// The views of the rows of a group's entry.
pub open spec fn rows_view(rows: Seq<Vec<CellValue>>) -> Seq<Seq<CellView>> {
    rows.map_values(|r: Vec<CellValue>| flat_row(r@))
}

/// The state of a grouped column's decoder.
pub open spec fn decoder_state<'a>(d: SimpleColDecoder<'a>) -> SubState {
    (d@.0, d@.1, d is Value)
}

/// Takes one cell from each grouped column.
fn pull_row<'a>(values: &mut Vec<SimpleColDecoder<'a>>) -> (r: Result<Vec<CellValue>, DecodeError>)
    ensures
        match take_row(decoder_views(old(values)@)) {
            Some((row, subs)) => (r matches Ok(v) && flat_row(v@) == row && decoder_views(final(values)@)
                == subs),
            None => r is Err,
        },
{
    let ghost subs = decoder_views(values@);
    let len0 = values.len();
    let mut pulled: Vec<SimpleColDecoder<'a>> = Vec::new();
    let mut row: Vec<CellValue> = Vec::new();
    let mut j: usize = 0;
    while values.len() > 0
        invariant
            j + values@.len() == subs.len(),
            subs == decoder_views(old(values)@),
            subs.len() == len0,
            pulled@.len() == j,
            row@.len() == j,
            decoder_views(values@) == subs.skip(j as int),
            forall|k: int| 0 <= k < j ==> sub_ready(#[trigger] subs[k]),
            forall|k: int| 0 <= k < j ==> decoder_state(#[trigger] pulled@[k]) == sub_after(subs[k]),
            forall|k: int| 0 <= k < j ==> flat_view(#[trigger] row@[k]) == sub_cell(subs[k]),
        decreases values@.len(),
    {
        let ghost vs = values@;
        let mut d = values.remove(0);
        assert(decoder_views(vs)[0] == decoder_state(vs[0]));
        assert(decoder_state(d) == subs[j as int]);
        let c = match d.next() {
            Ok(Some(Some(c))) => c,
            _ => {
                assert(!sub_ready(subs[j as int]));
                assert(!row_ready(subs));
                return Err(DecodeError::InvalidColumnData);
            },
        };
        proof {
            assert forall|k: int| 0 <= k < values@.len() implies decoder_views(values@)[k] == subs.skip(j + 1)[k] by {
                assert(values@[k] == vs[k + 1]);
                assert(decoder_views(vs)[k + 1] == decoder_state(vs[k + 1]));
                assert(subs.skip(j as int)[k + 1] == subs.skip(j + 1)[k]);
            }
            assert(decoder_views(values@) =~= subs.skip(j + 1));
            let ghost gc = c;
            if let CellValue::List(rows) = gc {
                assert(rows@.map_values(|r: Vec<CellValue>| flat_row(r@)) =~= Seq::<Seq<CellView>>::empty());
            }
        }
        pulled.push(d);
        row.push(c);
        j = j + 1;
    }
    *values = pulled;
    proof {
        assert(row_ready(subs));
        let t = take_row(subs)->0;
        assert(flat_row(row@) =~= t.0);
        assert(decoder_views(values@) =~= t.1);
    }
    Ok(row)
}

/// Whether a column gives empty lists once it has ended: a group column
/// and a value column do.
pub open spec fn fills_when_done<'a>(d: ColDecoder<'a>) -> bool {
    match d {
        ColDecoder::Simple(s) => s is Value,
        ColDecoder::Group { .. } => true,
    }
}

/// The decoder of a classified column.
pub enum ColDecoder<'a> {
    Simple(SimpleColDecoder<'a>),
    Group { num: RleDecoder<'a, u64>, values: Vec<SimpleColDecoder<'a>> },
}

impl<'a> View for ColDecoder<'a> {
    type V = (Seq<Option<CellView>>, bool);

    open spec fn view(&self) -> (Seq<Option<CellView>>, bool) {
        match self {
            ColDecoder::Simple(s) => s@,
            ColDecoder::Group { num, values } => spec_group_cells(num@.0, num@.1, decoder_views(values@)),
        }
    }
}

impl<'a> ColDecoder<'a> {
    /// The decoder of `col` over the data block; an error where a range of
    /// the column lies outside the block.
    pub fn from_col(col: &Column, data: &'a [u8]) -> (r: Result<ColDecoder<'a>, DecodeError>)
        ensures
            column_fits(col@, data@.len()) ==> (r matches Ok(d) && d@ == spec_column_cells(col@, data@)),
            !column_fits(col@, data@.len()) ==> r is Err,
    {
        match col {
            Column::Single(_, col_type, range) => {
                let bytes = slice_range(data, *range)?;
                Ok(ColDecoder::Simple(SimpleColDecoder::from_type(*col_type, bytes)))
            },
            Column::Value { meta, value, .. } => {
                let meta_bytes = slice_range(data, *meta)?;
                let value_bytes = slice_range(data, *value)?;
                Ok(ColDecoder::Simple(SimpleColDecoder::value(meta_bytes, value_bytes)))
            },
            Column::Group { num, values, .. } => {
                let num_bytes = slice_range(data, *num)?;
                let num_coder = RleDecoder::new(num_bytes);
                let ghost gs = values@;
                let mut decoders: Vec<SimpleColDecoder<'a>> = Vec::new();
                let mut j: usize = 0;
                while j < values.len()
                    invariant
                        gs == values@,
                        j <= gs.len(),
                        col@ is Group,
                        col@->values == gs,
                        forall|k: int| 0 <= k < j ==> grouped_fits(#[trigger] gs[k], data@.len()),
                        decoders@.len() == j,
                        forall|k: int| 0 <= k < j ==> decoder_state(#[trigger] decoders@[k]) == grouped_state(gs[k], data@),
                    decreases gs.len() - j,
                {
                    let d = match values[j] {
                        GroupedColumn::Single(_, col_type, range) => {
                            let bytes = match slice_range(data, range) {
                                Ok(b) => b,
                                Err(e) => {
                                    proof {
                                        lemma_group_not_fit(col@, j as int, data@.len());
                                    }
                                    return Err(e);
                                },
                            };
                            SimpleColDecoder::from_type(col_type, bytes)
                        },
                        GroupedColumn::Value { meta, value } => {
                            let meta_bytes = match slice_range(data, meta) {
                                Ok(b) => b,
                                Err(e) => {
                                    proof {
                                        lemma_group_not_fit(col@, j as int, data@.len());
                                    }
                                    return Err(e);
                                },
                            };
                            let value_bytes = match slice_range(data, value) {
                                Ok(b) => b,
                                Err(e) => {
                                    proof {
                                        lemma_group_not_fit(col@, j as int, data@.len());
                                    }
                                    return Err(e);
                                },
                            };
                            SimpleColDecoder::value(meta_bytes, value_bytes)
                        },
                    };
                    assert(decoder_state(d) == grouped_state(gs[j as int], data@));
                    decoders.push(d);
                    j = j + 1;
                }
                assert(decoder_views(decoders@) =~= gs.map_values(|g: GroupedColumn| grouped_state(g, data@)));
                Ok(ColDecoder::Group { num: num_coder, values: decoders })
            },
        }
    }

    /// Whether the controlling stream has no entry left and no malformed
    /// byte follows.
    pub fn done(&self) -> (r: bool)
        ensures
            r == (self@.0.len() == 0 && self@.1),
    {
        match self {
            ColDecoder::Simple(s) => s.done(),
            ColDecoder::Group { num, values } => {
                proof {
                    lemma_group_cells_empty(num@.0, num@.1, decoder_views(values@));
                }
                num.done()
            },
        }
    }

    /// Gives the next cell, `Some(None)` for a null. Once no cell is left a
    /// group or value column gives an empty list and the other columns give
    /// `None`.
    pub fn next(&mut self) -> (r: Result<Option<Option<CellValue>>, DecodeError>)
        ensures
            old(self)@.0.len() > 0 ==> (r matches Ok(Some(x)) && opt_cell(x) == old(self)@.0[0]),
            old(self)@.0.len() > 0 ==> final(self)@ == (old(self)@.0.drop_first(), old(self)@.1),
            old(self)@.0.len() == 0 && old(self)@.1 && !fills_when_done(*old(self)) ==> (r matches Ok(None)),
            old(self)@.0.len() == 0 && old(self)@.1 && fills_when_done(*old(self)) ==> (r matches Ok(
                Some(Some(CellValue::List(rows))),
            ) && rows@.len() == 0),
            old(self)@.0.len() == 0 && old(self)@.1 ==> final(self)@ == old(self)@,
            old(self)@.0.len() == 0 && !old(self)@.1 ==> r is Err,
    {
        let ghost old_view = self@;
        match self {
            ColDecoder::Simple(s) => s.next(),
            ColDecoder::Group { num, values } => {
                proof {
                    lemma_group_cells_empty(num@.0, num@.1, decoder_views(values@));
                }
                let ghost nums0 = num@;
                match num.next_item()? {
                    None => {
                        let empty: Vec<Vec<CellValue>> = Vec::new();
                        Ok(Some(Some(CellValue::List(empty))))
                    },
                    Some(None) => {
                        let empty: Vec<Vec<CellValue>> = Vec::new();
                        assert(rows_view(empty@) =~= Seq::<Seq<CellView>>::empty());
                        Ok(Some(Some(CellValue::List(empty))))
                    },
                    Some(Some(n)) => {
                        let ghost subs0 = decoder_views(values@);
                        let mut rows: Vec<Vec<CellValue>> = Vec::new();
                        let mut r: u64 = 0;
                        while r < n
                            invariant
                                r <= n,
                                old_view == old(self)@,
                                nums0.0.len() > 0 && nums0.0[0] == Some(RleValueView::Uint(n)),
                                num@ == (nums0.0.drop_first(), nums0.1),
                                old_view == spec_group_cells(nums0.0, nums0.1, subs0),
                                take_rows(subs0, n as nat) == match take_rows(decoder_views(values@), (n - r) as nat) {
                                    None => None,
                                    Some((rest, subs2)) => Some((rows_view(rows@) + rest, subs2)),
                                },
                            decreases n - r,
                        {
                            let row = match pull_row(values) {
                                Ok(row) => row,
                                Err(e) => {
                                    assert(take_rows(subs0, n as nat) is None);
                                    return Err(e);
                                },
                            };
                            proof {
                                if let Some((rest, subs2)) = take_rows(decoder_views(values@), (n - r - 1) as nat) {
                                    assert(rows_view(rows@) + (seq![flat_row(row@)] + rest) =~= rows_view(rows@.push(row)) + rest);
                                }
                            }
                            rows.push(row);
                            r = r + 1;
                        }
                        proof {
                            assert(rows_view(rows@) + Seq::<Seq<CellView>>::empty() =~= rows_view(rows@));
                        }
                        Ok(Some(Some(CellValue::List(rows))))
                    },
                }
            },
        }
    }
}

proof fn lemma_group_not_fit(col: ColumnView, j: int, len: nat)
    requires
        col is Group,
        0 <= j < col->values.len(),
        !grouped_fits(col->values[j], len),
    ensures
        !column_fits(col, len),
{
}

proof fn lemma_group_cells_empty(
    nums: Seq<Option<RleValueView>>,
    ok: bool,
    subs: Seq<SubState>,
)
    ensures
        (spec_group_cells(nums, ok, subs).0.len() == 0 && spec_group_cells(nums, ok, subs).1) <==> (
        nums.len() == 0 && ok),
        nums.len() == 0 ==> spec_group_cells(nums, ok, subs) == (Seq::<Option<CellView>>::empty(), ok),
{
}

} // verus!

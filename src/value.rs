//! The values that rows hold.
use vstd::prelude::*;

verus! {

/// A scalar of a value column.
#[derive(Debug, PartialEq)]
pub enum PrimVal {
    Null,
    Bool(bool),
    Uint(u64),
    Int(i64),
    /// A 64-bit IEEE 754 number, as its bit pattern.
    Float(u64),
    String(String),
    Bytes(Vec<u8>),
    Counter(u64),
    Timestamp(u64),
    /// A value of a type code this decoder does not know, kept as it is.
    Unknown { type_code: u8, data: Vec<u8> },
}

/// What a scalar is.
pub enum PrimView {
    Null,
    Bool(bool),
    Uint(u64),
    Int(i64),
    Float(u64),
    Str(Seq<char>),
    Bytes(Seq<u8>),
    Counter(u64),
    Timestamp(u64),
    Unknown(u8, Seq<u8>),
}

impl View for PrimVal {
    type V = PrimView;

    open spec fn view(&self) -> PrimView {
        match self {
            PrimVal::Null => PrimView::Null,
            PrimVal::Bool(b) => PrimView::Bool(*b),
            PrimVal::Uint(u) => PrimView::Uint(*u),
            PrimVal::Int(i) => PrimView::Int(*i),
            PrimVal::Float(f) => PrimView::Float(*f),
            PrimVal::String(s) => PrimView::Str(s@),
            PrimVal::Bytes(b) => PrimView::Bytes(b@),
            PrimVal::Counter(c) => PrimView::Counter(*c),
            PrimVal::Timestamp(t) => PrimView::Timestamp(*t),
            PrimVal::Unknown { type_code, data } => PrimView::Unknown(*type_code, data@),
        }
    }
}

/// One cell of a row.
#[derive(Debug, PartialEq)]
pub enum CellValue {
    Uint(u64),
    Bool(bool),
    String(String),
    Value(PrimVal),
    /// The rows of a group column's entry, one cell per grouped column.
    List(Vec<Vec<CellValue>>),
}

/// What a cell is.
pub enum CellView {
    Uint(u64),
    Bool(bool),
    Str(Seq<char>),
    Value(PrimView),
    List(Seq<Seq<CellView>>),
}

/// What a cell that is not a list is; a list shows as an empty one.
pub open spec fn flat_view(c: CellValue) -> CellView {
    match c {
        CellValue::Uint(u) => CellView::Uint(u),
        CellValue::Bool(b) => CellView::Bool(b),
        CellValue::String(s) => CellView::Str(s@),
        CellValue::Value(p) => CellView::Value(p@),
        CellValue::List(_) => CellView::List(Seq::empty()),
    }
}

/// A cell that is no list with rows: what a grouped column gives.
pub open spec fn is_flat(c: CellValue) -> bool {
    c matches CellValue::List(rows) ==> rows@.len() == 0
}

/// The views of the cells of a row of grouped columns.
pub open spec fn flat_row(row: Seq<CellValue>) -> Seq<CellView> {
    row.map_values(|c: CellValue| flat_view(c))
}

impl View for CellValue {
    type V = CellView;

    /// Lists hold rows of grouped columns, whose cells are never lists with
    /// rows themselves.
    open spec fn view(&self) -> CellView {
        match self {
            CellValue::List(rows) => CellView::List(rows@.map_values(|r: Vec<CellValue>| flat_row(r@))),
            _ => flat_view(*self),
        }
    }
}

/// The view of an optional cell.
pub open spec fn opt_cell(c: Option<CellValue>) -> Option<CellView> {
    match c {
        Some(v) => Some(v@),
        None => None,
    }
}

} // verus!

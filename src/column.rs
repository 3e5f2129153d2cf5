//! The semantic columns that the layout classifier builds out of the flat
//! list of column specifications.
use vstd::prelude::*;

use crate::column_spec::{spec_id, ColumnId, ColumnSpec, ColumnType};

verus! {

/// A range of byte offsets into a column data block, `start` included and
/// `end` excluded.
#[derive(Debug, Clone, Copy, PartialEq, Eq, Structural)]
pub struct CopyRange {
    pub start: usize,
    pub end: usize,
}

impl CopyRange {
    /// The empty range at offset zero.
    pub fn empty() -> (r: CopyRange)
        ensures
            r.start == 0 && r.end == 0,
    {
        CopyRange { start: 0, end: 0 }
    }
}

impl From<core::ops::Range<usize>> for CopyRange {
    fn from(r: core::ops::Range<usize>) -> (out: CopyRange) {
        CopyRange { start: r.start, end: r.end }
    }
}

impl vstd::std_specs::convert::FromSpecImpl<core::ops::Range<usize>> for CopyRange {
    open spec fn obeys_from_spec() -> bool {
        true
    }

    open spec fn from_spec(r: core::ops::Range<usize>) -> CopyRange {
        CopyRange { start: r.start, end: r.end }
    }
}

impl From<CopyRange> for core::ops::Range<usize> {
    fn from(r: CopyRange) -> (out: core::ops::Range<usize>) {
        r.start..r.end
    }
}

impl vstd::std_specs::convert::FromSpecImpl<CopyRange> for core::ops::Range<usize> {
    open spec fn obeys_from_spec() -> bool {
        true
    }

    open spec fn from_spec(r: CopyRange) -> core::ops::Range<usize> {
        r.start..r.end
    }
}

/// The column types that need one data range only.
#[derive(Debug, Clone, Copy, PartialEq, Eq, Structural)]
pub enum SimpleColType {
    Actor,
    Integer,
    DeltaInteger,
    Boolean,
    String,
}

/// The simple column type of a column type, if it is one.
pub open spec fn spec_simple_type(t: ColumnType) -> Option<SimpleColType> {
    match t {
        ColumnType::Actor => Some(SimpleColType::Actor),
        ColumnType::Integer => Some(SimpleColType::Integer),
        ColumnType::DeltaInteger => Some(SimpleColType::DeltaInteger),
        ColumnType::Boolean => Some(SimpleColType::Boolean),
        ColumnType::String => Some(SimpleColType::String),
        _ => None,
    }
}

/// The simple column type of a column type, if it is one.
pub fn simple_type(t: ColumnType) -> (r: Option<SimpleColType>)
    ensures
        r == spec_simple_type(t),
{
    match t {
        ColumnType::Actor => Some(SimpleColType::Actor),
        ColumnType::Integer => Some(SimpleColType::Integer),
        ColumnType::DeltaInteger => Some(SimpleColType::DeltaInteger),
        ColumnType::Boolean => Some(SimpleColType::Boolean),
        ColumnType::String => Some(SimpleColType::String),
        _ => None,
    }
}

/// A column inside a group: it shares the group's id.
#[derive(Debug, Clone, Copy, PartialEq, Eq, Structural)]
pub enum GroupedColumn {
    Single(ColumnId, SimpleColType, CopyRange),
    Value { meta: CopyRange, value: CopyRange },
}

#[derive(Debug)]
pub enum Column {
    Single(ColumnSpec, SimpleColType, CopyRange),
    /// Type codes and lengths in `meta`, the values' bytes in `value`.
    Value { id: ColumnId, meta: CopyRange, value: CopyRange },
    /// The number of entries of each row in `num`, then the grouped columns.
    Group { id: ColumnId, num: CopyRange, values: Vec<GroupedColumn> },
}

/// What a column holds.
pub enum ColumnView {
    Single(ColumnSpec, SimpleColType, CopyRange),
    Value { id: ColumnId, meta: CopyRange, value: CopyRange },
    Group { id: ColumnId, num: CopyRange, values: Seq<GroupedColumn> },
}

impl View for Column {
    type V = ColumnView;

    open spec fn view(&self) -> ColumnView {
        match self {
            Column::Single(spec, t, range) => ColumnView::Single(*spec, *t, *range),
            Column::Value { id, meta, value } => ColumnView::Value { id: *id, meta: *meta, value: *value },
            Column::Group { id, num, values } => ColumnView::Group { id: *id, num: *num, values: values@ },
        }
    }
}

/// The id of a column.
pub open spec fn column_id(c: ColumnView) -> ColumnId {
    match c {
        ColumnView::Single(spec, _, _) => ColumnId(spec_id(spec.0)),
        ColumnView::Value { id, .. } => id,
        ColumnView::Group { id, .. } => id,
    }
}

impl Column {
    pub fn id(&self) -> (r: ColumnId)
        ensures
            r == column_id(self@),
    {
        match self {
            Column::Single(s, _, _) => s.id(),
            Column::Value { id, .. } => *id,
            Column::Group { id, .. } => *id,
        }
    }
}

} // verus!

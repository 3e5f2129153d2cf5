//! A block of rows: a column layout bound to its data block, read row by
//! row with every column's decoder pulled in lock-step.
use vstd::prelude::*;

use crate::col_decoders::{column_fits, spec_column_cells, ColDecoder};
use crate::column::{column_id, ColumnView, CopyRange};
use crate::column_layout::{spec_layout, BadColumnLayout, ColumnLayout};
use crate::column_spec::{ColumnId, ColumnSpec};
use crate::decoding::DecodeError;
use crate::value::{opt_cell, CellValue, CellView};

verus! {

/// One cell per column, `None` where the column is null or has ended.
pub type Row = Vec<(ColumnId, Option<CellValue>)>;

/// A column's id and the cells its decoder has yet to give, with the flag
/// that is false when malformed bytes follow them.
pub type ColumnState = (ColumnId, (Seq<Option<CellView>>, bool));

/// Whether a column has given all its cells without error.
pub open spec fn col_done(c: ColumnState) -> bool {
    c.1.0.len() == 0 && c.1.1
}

pub open spec fn all_done(cs: Seq<ColumnState>) -> bool {
    forall|k: int| 0 <= k < cs.len() ==> col_done(#[trigger] cs[k])
}

/// Whether every column that has not ended has a cell to give.
pub open spec fn row_ok(cs: Seq<ColumnState>) -> bool {
    forall|k: int| 0 <= k < cs.len() ==> col_done(#[trigger] cs[k]) || cs[k].1.0.len() > 0
}

/// The next row: each column's next cell, `None` for a column that ended.
pub open spec fn next_row(cs: Seq<ColumnState>) -> Seq<(ColumnId, Option<CellView>)> {
    Seq::new(cs.len(), |k: int| (cs[k].0, if col_done(cs[k]) { None } else { cs[k].1.0[0] }))
}

/// The columns after the next row.
pub open spec fn after_row(cs: Seq<ColumnState>) -> Seq<ColumnState> {
    Seq::new(
        cs.len(),
        |k: int|
            if col_done(cs[k]) {
                cs[k]
            } else {
                (cs[k].0, (cs[k].1.0.drop_first(), cs[k].1.1))
            },
    )
}

/// The columns of a layout over a data block, before the first row.
pub open spec fn initial_states(cols: Seq<ColumnView>, data: Seq<u8>) -> Seq<ColumnState> {
    cols.map_values(|c: ColumnView| (column_id(c), spec_column_cells(c, data)))
}

/// The view of a row.
pub open spec fn row_view(row: Seq<(ColumnId, Option<CellValue>)>) -> Seq<(ColumnId, Option<CellView>)> {
    row.map_values(|p: (ColumnId, Option<CellValue>)| (p.0, opt_cell(p.1)))
}

pub struct RowBlock {
    columns: ColumnLayout,
    data: Vec<u8>,
}

impl View for RowBlock {
    type V = (Seq<ColumnView>, Seq<u8>);

    closed spec fn view(&self) -> (Seq<ColumnView>, Seq<u8>) {
        (self.columns@, self.data@)
    }
}

impl RowBlock {
    pub fn new(cols: &[(ColumnSpec, CopyRange)], data: Vec<u8>) -> (r: Result<RowBlock, BadColumnLayout>)
        ensures
            match r {
                Ok(block) => spec_layout(cols@) == Ok::<Seq<ColumnView>, BadColumnLayout>(block@.0)
                    && block@.1 == data@,
                Err(e) => spec_layout(cols@) == Err::<Seq<ColumnView>, BadColumnLayout>(e),
            },
    {
        let layout = ColumnLayout::parse(cols)?;
        Ok(RowBlock { columns: layout, data })
    }

    /// A fresh traversal of the rows; an error where a column's range lies
    /// outside the data block.
    pub fn iter(&self) -> (r: Result<RowBlockIter<'_>, DecodeError>)
        ensures
            (forall|k: int| 0 <= k < self@.0.len() ==> column_fits(#[trigger] self@.0[k], self@.1.len())) ==> (
            r matches Ok(it) && it@ == initial_states(self@.0, self@.1)),
            !(forall|k: int| 0 <= k < self@.0.len() ==> column_fits(#[trigger] self@.0[k], self@.1.len()))
                ==> r is Err,
    {
        let columns = self.columns.iter();
        let data = self.data.as_slice();
        let mut decoders: Vec<(ColumnId, ColDecoder<'_>)> = Vec::new();
        let mut k: usize = 0;
        while k < columns.len()
            invariant
                crate::column_layout::columns_view(columns@) == self@.0,
                data@ == self@.1,
                k <= columns@.len(),
                decoders@.len() == k,
                forall|j: int| 0 <= j < k ==> column_fits(#[trigger] self@.0[j], self@.1.len()),
                forall|j: int|
                    0 <= j < k ==> (#[trigger] decoders@[j]).0 == column_id(self@.0[j]) && decoders@[j].1@
                        == spec_column_cells(self@.0[j], data@),
            decreases columns@.len() - k,
        {
            let c = &columns[k];
            assert(c@ == self@.0[k as int]);
            let d = ColDecoder::from_col(c, data)?;
            decoders.push((c.id(), d));
            k = k + 1;
        }
        let it = RowBlockIter { decoders };
        assert(it@ =~= initial_states(self@.0, self@.1));
        Ok(it)
    }
}

/// The states of a list of column decoders.
pub open spec fn states_of<'a>(v: Seq<(ColumnId, ColDecoder<'a>)>) -> Seq<ColumnState> {
    v.map_values(|p: (ColumnId, ColDecoder<'a>)| (p.0, p.1@))
}

pub struct RowBlockIter<'a> {
    decoders: Vec<(ColumnId, ColDecoder<'a>)>,
}

impl<'a> View for RowBlockIter<'a> {
    type V = Seq<ColumnState>;

    closed spec fn view(&self) -> Seq<ColumnState> {
        states_of(self.decoders@)
    }
}

impl<'a> RowBlockIter<'a> {
    /// The next row, `None` once every column has ended; an error where a
    /// column's bytes are malformed.
    pub fn next(&mut self) -> (r: Result<Option<Row>, DecodeError>)
        ensures
            all_done(old(self)@) ==> (r matches Ok(None)),
            !all_done(old(self)@) && row_ok(old(self)@) ==> (r matches Ok(Some(row)) && row_view(row@)
                == next_row(old(self)@) && final(self)@ == after_row(old(self)@)),
            !all_done(old(self)@) && !row_ok(old(self)@) ==> r is Err,
    {
        let ghost cs = self@;
        let mut k: usize = 0;
        let mut finished = true;
        while k < self.decoders.len()
            invariant
                cs == self@,
                k <= cs.len(),
                finished == (forall|j: int| 0 <= j < k ==> col_done(#[trigger] cs[j])),
            decreases cs.len() - k,
        {
            assert(self@[k as int].1 == self.decoders@[k as int].1@);
            if !self.decoders[k].1.done() {
                finished = false;
            }
            k = k + 1;
        }
        if finished {
            return Ok(None);
        }
        let len0 = self.decoders.len();
        let mut pulled: Vec<(ColumnId, ColDecoder<'a>)> = Vec::new();
        let mut row: Row = Vec::new();
        let mut j: usize = 0;
        while self.decoders.len() > 0
            invariant
                cs == old(self)@,
                cs.len() == len0,
                j + self.decoders@.len() == len0,
                pulled@.len() == j,
                row@.len() == j,
                states_of(self.decoders@) == cs.skip(j as int),
                forall|i: int| 0 <= i < j ==> col_done(cs[i]) || cs[i].1.0.len() > 0,
                forall|i: int| 0 <= i < j ==> (#[trigger] row@[i]).0 == cs[i].0 && opt_cell(row@[i].1) == next_row(cs)[i].1,
                forall|i: int| 0 <= i < j ==> ((#[trigger] pulled@[i]).0, pulled@[i].1@) == after_row(cs)[i],
            decreases self.decoders@.len(),
        {
            let ghost vs = self.decoders@;
            let (id, mut d) = self.decoders.remove(0);
            assert(states_of(vs)[0] == (vs[0].0, vs[0].1@));
            assert((id, d@) == cs[j as int]);
            let cell = if d.done() {
                None
            } else {
                match d.next()? {
                    Some(c) => c,
                    None => None,
                }
            };
            proof {
                assert forall|i: int| 0 <= i < self.decoders@.len() implies #[trigger] states_of(self.decoders@)[i] == cs.skip(j + 1)[i] by {
                    assert(self.decoders@[i] == vs[i + 1]);
                    assert(states_of(vs)[i + 1] == (vs[i + 1].0, vs[i + 1].1@));
                }
                assert(states_of(self.decoders@) =~= cs.skip(j + 1));
            }
            pulled.push((id, d));
            row.push((id, cell));
            j = j + 1;
        }
        self.decoders = pulled;
        proof {
            assert(row_view(row@) =~= next_row(cs));
            assert(self@ =~= after_row(cs));
        }
        Ok(Some(row))
    }
}

} // verus!

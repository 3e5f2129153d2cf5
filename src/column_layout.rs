//! The column layout classifier: a state machine that turns the sorted flat
//! list of (specification, range) entries into semantic columns.
//!
//! A value column is written as a value-metadata entry followed by a value
//! entry of the same id; a group column as a group entry followed by the
//! grouped entries that share its id.
use vstd::prelude::*;

use crate::column::{
    simple_type, spec_simple_type, Column, ColumnView, CopyRange, GroupedColumn,
};
use crate::column_metadata::normal_sorted;
use crate::column_spec::{
    lemma_normalize_ignores_deflate, spec_id, spec_normalize, type_of_bits, ColumnId, ColumnSpec,
    ColumnType,
};

verus! {

#[derive(Debug, Clone, Copy, PartialEq, Eq, Structural)]
pub enum BadColumnLayout {
    /// Two entries with the same specification, whose raw value is given.
    DuplicateColumnSpecs(u32),
    OutOfOrder,
    NestedGroup,
    LoneRawValueColumn,
    MismatchingValueMetadataId,
    EmptyGroup,
}

/// Where a group being read stands.
#[derive(Debug, Clone, Copy, PartialEq, Eq, Structural)]
pub enum GroupParseState {
    Ready,
    /// A value-metadata entry with this range waits for its value entry.
    InValue(CopyRange),
}

#[derive(Debug)]
pub enum LayoutParserState {
    Ready,
    /// A value-metadata entry waits for its value entry.
    InValue(ColumnId, CopyRange),
    /// A group is open: its id, its count range, the grouped columns so far.
    InGroup(ColumnId, CopyRange, Vec<GroupedColumn>, GroupParseState),
}

pub enum StateView {
    Ready,
    InValue(ColumnId, CopyRange),
    InGroup(ColumnId, CopyRange, Seq<GroupedColumn>, GroupParseState),
}

impl View for LayoutParserState {
    type V = StateView;

    open spec fn view(&self) -> StateView {
        match self {
            LayoutParserState::Ready => StateView::Ready,
            LayoutParserState::InValue(id, r) => StateView::InValue(*id, *r),
            LayoutParserState::InGroup(id, r, g, s) => StateView::InGroup(*id, *r, g@, *s),
        }
    }
}

/// What the classifier has built and where it stands.
pub struct ParserView {
    pub columns: Seq<ColumnView>,
    pub last_spec: Option<ColumnSpec>,
    /// The entry before the last one, when the two are equal once
    /// normalized: with the last one, all the specifications seen so far
    /// with that normalized value.
    pub other_spec: Option<ColumnSpec>,
    pub state: StateView,
}

/// The empty range standing in for a value entry that never came.
pub open spec fn no_range() -> CopyRange {
    CopyRange { start: 0, end: 0 }
}

/// How many constructs are open: each re-dispatch closes one.
pub open spec fn state_rank(st: StateView) -> nat {
    match st {
        StateView::Ready => 0,
        StateView::InValue(_, _) => 1,
        StateView::InGroup(_, _, _, GroupParseState::Ready) => 1,
        StateView::InGroup(_, _, _, GroupParseState::InValue(_)) => 2,
    }
}

/// One entry handed to the machine in state `st`, with `cols` built so far.
pub open spec fn spec_dispatch(
    cols: Seq<ColumnView>,
    st: StateView,
    spec: ColumnSpec,
    range: CopyRange,
) -> Result<(Seq<ColumnView>, StateView), BadColumnLayout>
    decreases state_rank(st),
{
    let id = ColumnId(spec_id(spec.0));
    let t = type_of_bits(spec.0 as int);
    match st {
        StateView::Ready => match t {
            ColumnType::Group => Ok((cols, StateView::InGroup(id, range, Seq::empty(), GroupParseState::Ready))),
            ColumnType::ValueMetadata => Ok((cols, StateView::InValue(id, range))),
            ColumnType::Value => Err(BadColumnLayout::LoneRawValueColumn),
            _ => Ok(
                (cols.push(ColumnView::Single(spec, spec_simple_type(t)->0, range)), StateView::Ready),
            ),
        },
        StateView::InValue(vid, meta) => if t == ColumnType::Value {
            if vid != id {
                Err(BadColumnLayout::MismatchingValueMetadataId)
            } else {
                Ok((cols.push(ColumnView::Value { id: vid, meta, value: range }), StateView::Ready))
            }
        } else {
            spec_dispatch(
                cols.push(ColumnView::Value { id: vid, meta, value: no_range() }),
                StateView::Ready,
                spec,
                range,
            )
        },
        StateView::InGroup(gid, num, grouped, gst) => match gst {
            GroupParseState::InValue(meta) => if id == gid && t == ColumnType::Value {
                Ok(
                    (
                        cols,
                        StateView::InGroup(
                            gid,
                            num,
                            grouped.push(GroupedColumn::Value { meta, value: range }),
                            GroupParseState::Ready,
                        ),
                    ),
                )
            } else {
                spec_dispatch(
                    cols,
                    StateView::InGroup(
                        gid,
                        num,
                        grouped.push(GroupedColumn::Value { meta, value: no_range() }),
                        GroupParseState::Ready,
                    ),
                    spec,
                    range,
                )
            },
            GroupParseState::Ready => if id != gid {
                if grouped.len() == 0 {
                    Err(BadColumnLayout::EmptyGroup)
                } else {
                    spec_dispatch(
                        cols.push(ColumnView::Group { id: gid, num, values: grouped }),
                        StateView::Ready,
                        spec,
                        range,
                    )
                }
            } else {
                match t {
                    ColumnType::Group => Err(BadColumnLayout::NestedGroup),
                    ColumnType::Value => Err(BadColumnLayout::LoneRawValueColumn),
                    ColumnType::ValueMetadata => Ok(
                        (cols, StateView::InGroup(gid, num, grouped, GroupParseState::InValue(range))),
                    ),
                    _ => Ok(
                        (
                            cols,
                            StateView::InGroup(
                                gid,
                                num,
                                grouped.push(GroupedColumn::Single(id, spec_simple_type(t)->0, range)),
                                GroupParseState::Ready,
                            ),
                        ),
                    ),
                }
            },
        },
    }
}

/// One entry added: the order check against the previous entry and the
/// duplicate check against the earlier entries of the same normalized
/// specification, then the dispatch.
pub open spec fn spec_add_column(p: ParserView, spec: ColumnSpec, range: CopyRange) -> Result<
    ParserView,
    BadColumnLayout,
> {
    if p.last_spec matches Some(last) && spec_normalize(last.0) > spec_normalize(spec.0) {
        Err(BadColumnLayout::OutOfOrder)
    } else if p.last_spec == Some(spec) || p.other_spec == Some(spec) {
        Err(BadColumnLayout::DuplicateColumnSpecs(spec.0))
    } else {
        match spec_dispatch(p.columns, p.state, spec, range) {
            Err(e) => Err(e),
            Ok((columns, state)) => Ok(
                ParserView {
                    columns,
                    last_spec: Some(spec),
                    other_spec: if p.last_spec matches Some(last) && spec_normalize(last.0) == spec_normalize(
                        spec.0,
                    ) {
                        p.last_spec
                    } else {
                        None
                    },
                    state,
                },
            ),
        }
    }
}

/// The end of the input: what is open is closed, but a group with no
/// grouped column is an error.
pub open spec fn spec_build(p: ParserView) -> Result<Seq<ColumnView>, BadColumnLayout> {
    match p.state {
        StateView::Ready => Ok(p.columns),
        StateView::InValue(id, meta) => Ok(p.columns.push(ColumnView::Value { id, meta, value: no_range() })),
        StateView::InGroup(id, num, grouped, gst) => {
            let values = match gst {
                GroupParseState::InValue(meta) => grouped.push(GroupedColumn::Value { meta, value: no_range() }),
                GroupParseState::Ready => grouped,
            };
            if values.len() == 0 {
                Err(BadColumnLayout::EmptyGroup)
            } else {
                Ok(p.columns.push(ColumnView::Group { id, num, values }))
            }
        },
    }
}

pub open spec fn initial_parser() -> ParserView {
    ParserView { columns: Seq::empty(), last_spec: None, other_spec: None, state: StateView::Ready }
}

/// The machine after the entries `es`, one after the other.
pub open spec fn spec_run(es: Seq<(ColumnSpec, CopyRange)>) -> Result<ParserView, BadColumnLayout>
    decreases es.len(),
{
    if es.len() == 0 {
        Ok(initial_parser())
    } else {
        match spec_run(es.drop_last()) {
            Err(e) => Err(e),
            Ok(p) => spec_add_column(p, es.last().0, es.last().1),
        }
    }
}

/// The columns that the entries `es` make, or the first error.
pub open spec fn spec_layout(es: Seq<(ColumnSpec, CopyRange)>) -> Result<Seq<ColumnView>, BadColumnLayout> {
    match spec_run(es) {
        Err(e) => Err(e),
        Ok(p) => spec_build(p),
    }
}

/// The views of a list of columns.
pub open spec fn columns_view(v: Seq<Column>) -> Seq<ColumnView> {
    v.map_values(|c: Column| c@)
}

pub struct ColumnLayout(Vec<Column>);

impl View for ColumnLayout {
    type V = Seq<ColumnView>;

    closed spec fn view(&self) -> Seq<ColumnView> {
        columns_view(self.0@)
    }
}

impl ColumnLayout {
    /// The columns in order.
    pub fn iter(&self) -> (r: &[Column])
        ensures
            columns_view(r@) == self@,
    {
        self.0.as_slice()
    }

    pub fn parse(cols: &[(ColumnSpec, CopyRange)]) -> (r: Result<ColumnLayout, BadColumnLayout>)
        ensures
            match r {
                Ok(layout) => spec_layout(cols@) == Ok::<Seq<ColumnView>, BadColumnLayout>(layout@),
                Err(e) => spec_layout(cols@) == Err::<Seq<ColumnView>, BadColumnLayout>(e),
            },
    {
        let mut parser = ColumnLayoutParser::new();
        let mut k: usize = 0;
        while k < cols.len()
            invariant
                k <= cols@.len(),
                spec_run(cols@.take(k as int)) == Ok::<ParserView, BadColumnLayout>(parser@),
            decreases cols@.len() - k,
        {
            let (col, range) = cols[k];
            proof {
                assert(cols@.take(k + 1).drop_last() =~= cols@.take(k as int));
            }
            match parser.add_column(col, range) {
                Ok(()) => {},
                Err(e) => {
                    proof {
                        lemma_run_error_persists(cols@, (k + 1) as nat);
                    }
                    return Err(e);
                },
            }
            k = k + 1;
        }
        proof {
            assert(cols@.take(k as int) =~= cols@);
        }
        parser.build()
    }
}

pub struct ColumnLayoutParser {
    columns: Vec<Column>,
    last_spec: Option<ColumnSpec>,
    other_spec: Option<ColumnSpec>,
    state: LayoutParserState,
}

impl View for ColumnLayoutParser {
    type V = ParserView;

    closed spec fn view(&self) -> ParserView {
        ParserView {
            columns: columns_view(self.columns@),
            last_spec: self.last_spec,
            other_spec: self.other_spec,
            state: self.state@,
        }
    }
}

impl ColumnLayoutParser {
    pub fn new() -> (r: ColumnLayoutParser)
        ensures
            r@ == initial_parser(),
    {
        let r = ColumnLayoutParser {
            columns: Vec::new(),
            last_spec: None,
            other_spec: None,
            state: LayoutParserState::Ready,
        };
        assert(r@.columns =~= Seq::<ColumnView>::empty());
        r
    }

    /// Closes what is open and returns the columns.
    pub fn build(self) -> (r: Result<ColumnLayout, BadColumnLayout>)
        ensures
            match r {
                Ok(layout) => spec_build(self@) == Ok::<Seq<ColumnView>, BadColumnLayout>(layout@),
                Err(e) => spec_build(self@) == Err::<Seq<ColumnView>, BadColumnLayout>(e),
            },
    {
        let ghost before = self@;
        let mut columns = self.columns;
        match self.state {
            LayoutParserState::Ready => Ok(ColumnLayout(columns)),
            LayoutParserState::InValue(id, meta) => {
                let c = Column::Value { id, meta, value: CopyRange::empty() };
                columns.push(c);
                proof {
                    assert(columns_view(columns@) =~= before.columns.push(c@));
                }
                Ok(ColumnLayout(columns))
            },
            LayoutParserState::InGroup(id, num, grouped, groupstate) => {
                let mut grouped = grouped;
                match groupstate {
                    GroupParseState::InValue(meta) => {
                        grouped.push(GroupedColumn::Value { meta, value: CopyRange::empty() });
                    },
                    GroupParseState::Ready => {},
                }
                if grouped.len() == 0 {
                    Err(BadColumnLayout::EmptyGroup)
                } else {
                    let c = Column::Group { id, num, values: grouped };
                    columns.push(c);
                    proof {
                        assert(columns_view(columns@) =~= before.columns.push(c@));
                    }
                    Ok(ColumnLayout(columns))
                }
            },
        }
    }

    /// Adds the next entry: it must not come before the previous one once
    /// normalized, nor repeat an earlier one.
    pub fn add_column(&mut self, column: ColumnSpec, range: CopyRange) -> (r: Result<(), BadColumnLayout>)
        ensures
            match r {
                Ok(()) => spec_add_column(old(self)@, column, range) == Ok::<ParserView, BadColumnLayout>(final(self)@),
                Err(e) => spec_add_column(old(self)@, column, range) == Err::<ParserView, BadColumnLayout>(e),
            },
    {
        let mut same_block = false;
        if let Some(last_spec) = self.last_spec {
            if last_spec.normalize().0 > column.normalize().0 {
                return Err(BadColumnLayout::OutOfOrder);
            }
            same_block = last_spec.normalize().0 == column.normalize().0;
        }
        if self.last_spec == Some(column) || self.other_spec == Some(column) {
            return Err(BadColumnLayout::DuplicateColumnSpecs(column.0));
        }
        self.dispatch(column, range)?;
        self.other_spec = if same_block {
            self.last_spec
        } else {
            None
        };
        self.last_spec = Some(column);
        Ok(())
    }

    fn push_column(&mut self, c: Column)
        ensures
            final(self)@ == (ParserView { columns: old(self)@.columns.push(c@), ..old(self)@ }),
    {
        self.columns.push(c);
        assert(columns_view(self.columns@) =~= old(self)@.columns.push(c@));
    }

    /// Hands an entry to the state machine.
    fn dispatch(&mut self, column: ColumnSpec, range: CopyRange) -> (r: Result<(), BadColumnLayout>)
        ensures
            match r {
                Ok(()) => spec_dispatch(old(self)@.columns, old(self)@.state, column, range) == Ok::<
                    (Seq<ColumnView>, StateView),
                    BadColumnLayout,
                >((final(self)@.columns, final(self)@.state)) && final(self)@.last_spec == old(self)@.last_spec
                    && final(self)@.other_spec == old(self)@.other_spec,
                Err(e) => spec_dispatch(old(self)@.columns, old(self)@.state, column, range) == Err::<
                    (Seq<ColumnView>, StateView),
                    BadColumnLayout,
                >(e),
            },
        decreases state_rank(old(self)@.state),
    {
        let mut state = LayoutParserState::Ready;
        core::mem::swap(&mut self.state, &mut state);
        let id = column.id();
        let col_type = column.col_type();
        match state {
            LayoutParserState::Ready => match col_type {
                ColumnType::Group => {
                    self.state = LayoutParserState::InGroup(id, range, Vec::new(), GroupParseState::Ready);
                    assert(self.state@ == StateView::InGroup(id, range, Seq::empty(), GroupParseState::Ready));
                    Ok(())
                },
                ColumnType::ValueMetadata => {
                    self.state = LayoutParserState::InValue(id, range);
                    Ok(())
                },
                ColumnType::Value => Err(BadColumnLayout::LoneRawValueColumn),
                _ => {
                    let t = simple_type(col_type).unwrap();
                    self.push_column(Column::Single(column, t, range));
                    Ok(())
                },
            },
            LayoutParserState::InValue(vid, meta) => match col_type {
                ColumnType::Value => {
                    if vid != id {
                        return Err(BadColumnLayout::MismatchingValueMetadataId);
                    }
                    self.push_column(Column::Value { id: vid, meta, value: range });
                    Ok(())
                },
                _ => {
                    self.push_column(Column::Value { id: vid, meta, value: CopyRange::empty() });
                    self.dispatch(column, range)
                },
            },
            LayoutParserState::InGroup(gid, num, grouped, group_state) => {
                let mut grouped = grouped;
                match group_state {
                    GroupParseState::InValue(meta) => {
                        if id == gid && col_type == ColumnType::Value {
                            grouped.push(GroupedColumn::Value { meta, value: range });
                            self.state = LayoutParserState::InGroup(gid, num, grouped, GroupParseState::Ready);
                            Ok(())
                        } else {
                            grouped.push(GroupedColumn::Value { meta, value: CopyRange::empty() });
                            self.state = LayoutParserState::InGroup(gid, num, grouped, GroupParseState::Ready);
                            self.dispatch(column, range)
                        }
                    },
                    GroupParseState::Ready => {
                        if id != gid {
                            if grouped.len() == 0 {
                                Err(BadColumnLayout::EmptyGroup)
                            } else {
                                self.push_column(Column::Group { id: gid, num, values: grouped });
                                self.dispatch(column, range)
                            }
                        } else {
                            match col_type {
                                ColumnType::Group => Err(BadColumnLayout::NestedGroup),
                                ColumnType::Value => Err(BadColumnLayout::LoneRawValueColumn),
                                ColumnType::ValueMetadata => {
                                    self.state = LayoutParserState::InGroup(
                                        gid,
                                        num,
                                        grouped,
                                        GroupParseState::InValue(range),
                                    );
                                    Ok(())
                                },
                                _ => {
                                    let t = simple_type(col_type).unwrap();
                                    grouped.push(GroupedColumn::Single(id, t, range));
                                    self.state = LayoutParserState::InGroup(gid, num, grouped, GroupParseState::Ready);
                                    Ok(())
                                },
                            }
                        }
                    },
                }
            },
        }
    }
}

proof fn lemma_run_error_persists(es: Seq<(ColumnSpec, CopyRange)>, i: nat)
    requires
        i <= es.len(),
        spec_run(es.take(i as int)) is Err,
    ensures
        spec_run(es) == spec_run(es.take(i as int)),
    decreases es.len(),
{
    if es.len() > i {
        assert(es.drop_last().take(i as int) =~= es.take(i as int));
        lemma_run_error_persists(es.drop_last(), i);
    } else {
        assert(es.take(i as int) =~= es);
    }
}

proof fn lemma_dispatch_state(cols: Seq<ColumnView>, st: StateView, spec: ColumnSpec, range: CopyRange)
    ensures
        spec_dispatch(cols, st, spec, range) matches Ok((_, st2)) ==> {
            &&& st2 matches StateView::InValue(vid, _) ==> vid == ColumnId(spec_id(spec.0)) && type_of_bits(
                spec.0 as int,
            ) == ColumnType::ValueMetadata
            &&& st2 matches StateView::InGroup(gid, _, _, _) ==> gid == ColumnId(spec_id(spec.0))
        },
    decreases state_rank(st),
{
    match st {
        StateView::Ready => {},
        StateView::InValue(vid, meta) => {
            lemma_dispatch_state(
                cols.push(ColumnView::Value { id: vid, meta, value: no_range() }),
                StateView::Ready,
                spec,
                range,
            );
        },
        StateView::InGroup(gid, num, grouped, gst) => match gst {
            GroupParseState::InValue(meta) => {
                lemma_dispatch_state(
                    cols,
                    StateView::InGroup(
                        gid,
                        num,
                        grouped.push(GroupedColumn::Value { meta, value: no_range() }),
                        GroupParseState::Ready,
                    ),
                    spec,
                    range,
                );
            },
            GroupParseState::Ready => {
                lemma_dispatch_state(
                    cols.push(ColumnView::Group { id: gid, num, values: grouped }),
                    StateView::Ready,
                    spec,
                    range,
                );
            },
        },
    }
}

proof fn lemma_run_facts(es: Seq<(ColumnSpec, CopyRange)>)
    ensures
        spec_run(es) matches Ok(p) ==> {
            &&& es.len() > 0 ==> p.last_spec == Some(es.last().0)
            &&& p.state matches StateView::InValue(vid, _) ==> es.len() > 0 && vid == ColumnId(
                spec_id(es.last().0.0),
            ) && type_of_bits(es.last().0.0 as int) == ColumnType::ValueMetadata
            &&& p.state matches StateView::InGroup(gid, _, _, _) ==> es.len() > 0 && gid == ColumnId(
                spec_id(es.last().0.0),
            )
        },
    decreases es.len(),
{
    if es.len() > 0 {
        lemma_run_facts(es.drop_last());
        if let Ok(p) = spec_run(es.drop_last()) {
            lemma_dispatch_state(p.columns, p.state, es.last().0, es.last().1);
        }
    }
}

/// The layout of `es` fails as soon as the machine fails on entry `i`.
proof fn lemma_layout_fails_at(es: Seq<(ColumnSpec, CopyRange)>, i: int)
    requires
        0 <= i < es.len(),
        spec_run(es.take(i + 1)) is Err,
    ensures
        spec_layout(es) == Err::<Seq<ColumnView>, BadColumnLayout>(spec_run(es.take(i + 1))->Err_0),
{
    lemma_run_error_persists(es, (i + 1) as nat);
}

/// Steps the machine over entry `i` after the entries before it.
proof fn lemma_run_step(es: Seq<(ColumnSpec, CopyRange)>, i: int)
    requires
        0 <= i < es.len(),
    ensures
        spec_run(es.take(i + 1)) == match spec_run(es.take(i)) {
            Err(e) => Err(e),
            Ok(p) => spec_add_column(p, es[i].0, es[i].1),
        },
{
    assert(es.take(i + 1).drop_last() =~= es.take(i));
}

/// An entry whose normalized specification is below that of the entry
/// before it makes the layout fail with `OutOfOrder`, once the entries
/// before it are accepted.
pub proof fn lemma_out_of_order(es: Seq<(ColumnSpec, CopyRange)>, i: int)
    requires
        1 <= i < es.len(),
        spec_run(es.take(i)) is Ok,
        spec_normalize(es[i - 1].0.0) > spec_normalize(es[i].0.0),
    ensures
        spec_layout(es) == Err::<Seq<ColumnView>, BadColumnLayout>(BadColumnLayout::OutOfOrder),
{
    lemma_run_facts(es.take(i));
    lemma_run_step(es, i);
    lemma_layout_fails_at(es, i);
}

proof fn lemma_sorted_le(es: Seq<(ColumnSpec, CopyRange)>, a: int, b: int)
    requires
        normal_sorted(es),
        0 <= a <= b < es.len(),
    ensures
        spec_normalize(es[a].0.0) <= spec_normalize(es[b].0.0),
    decreases b - a,
{
    if a < b {
        lemma_sorted_le(es, a, b - 1);
        assert(spec_normalize(es[b - 1].0.0) <= spec_normalize(es[(b - 1) + 1].0.0));
    }
}

/// No three different specifications are equal once normalized.
proof fn lemma_no_three_alike(x: u32, y: u32, z: u32)
    requires
        spec_normalize(x) == spec_normalize(y),
        spec_normalize(y) == spec_normalize(z),
        x != y,
        y != z,
    ensures
        x == z,
{
    lemma_normalize_ignores_deflate(x, y);
    lemma_normalize_ignores_deflate(z, y);
}

/// What the machine remembers of the entries it accepted: the last one, the
/// one before it when the two are alike once normalized, and that the
/// entries are sorted and pairwise different.
proof fn lemma_run_history(es: Seq<(ColumnSpec, CopyRange)>)
    ensures
        spec_run(es) matches Ok(p) ==> {
            &&& es.len() > 0 ==> p.last_spec == Some(es.last().0)
            &&& es.len() == 0 ==> p.last_spec is None && p.other_spec is None
            &&& p.other_spec matches Some(o) ==> es.len() >= 2 && o == es[es.len() - 2].0
                && spec_normalize(o.0) == spec_normalize(es.last().0.0)
            &&& (es.len() >= 2 && spec_normalize(es[es.len() - 2].0.0) == spec_normalize(es.last().0.0))
                ==> p.other_spec == Some(es[es.len() - 2].0)
            &&& normal_sorted(es)
            &&& forall|a: int, b: int| 0 <= a < b < es.len() ==> #[trigger] es[a].0 != #[trigger] es[b].0
        },
    decreases es.len(),
{
    if es.len() > 0 {
        let q = es.drop_last();
        lemma_run_history(q);
        if let Ok(p) = spec_run(q) {
            if let Ok(p2) = spec_add_column(p, es.last().0, es.last().1) {
                let n = es.len() as int;
                let c = es.last().0;
                assert(forall|k: int| 0 <= k < q.len() ==> q[k] == es[k]);
                assert forall|i: int| 0 <= i < es.len() - 1 implies spec_normalize(es[i].0.0) <= spec_normalize(
                    #[trigger] es[i + 1].0.0,
                ) by {
                    if i < n - 2 {
                        assert(spec_normalize(q[i].0.0) <= spec_normalize(q[i + 1].0.0));
                    }
                }
                assert forall|a: int, b: int| 0 <= a < b < es.len() implies #[trigger] es[a].0 != #[trigger] es[b].0 by {
                    if b == n - 1 && es[a].0 == c {
                        lemma_sorted_le(q, a, n - 2);
                        assert(a != n - 2);
                        if a == n - 3 {
                            assert(spec_normalize(es[n - 3].0.0) == spec_normalize(es[n - 2].0.0));
                        } else {
                            lemma_sorted_le(q, a, n - 3);
                            lemma_sorted_le(q, n - 3, n - 2);
                            assert(q[a].0 != q[n - 3].0);
                            assert(q[n - 3].0 != q[n - 2].0);
                            lemma_no_three_alike(q[a].0.0, q[n - 3].0.0, q[n - 2].0.0);
                        }
                    } else if b < n - 1 {
                        assert(q[a].0 != q[b].0);
                    }
                }
            }
        }
    }
}

/// Two entries with the same specification make the layout fail with
/// `DuplicateColumnSpecs` once the entries before the second are accepted
/// and the second is in order.
pub proof fn lemma_duplicate_specs(es: Seq<(ColumnSpec, CopyRange)>, i: int, j: int)
    requires
        0 <= i < j < es.len(),
        spec_run(es.take(j)) is Ok,
        es[i].0 == es[j].0,
        spec_normalize(es[j - 1].0.0) <= spec_normalize(es[j].0.0),
    ensures
        spec_layout(es) == Err::<Seq<ColumnView>, BadColumnLayout>(
            BadColumnLayout::DuplicateColumnSpecs(es[j].0.0),
        ),
{
    let q = es.take(j);
    lemma_run_history(q);
    assert(forall|k: int| 0 <= k < q.len() ==> q[k] == es[k]);
    if i < j - 1 {
        lemma_sorted_le(q, i, j - 1);
        if i < j - 2 {
            lemma_sorted_le(q, i, j - 2);
            lemma_sorted_le(q, j - 2, j - 1);
            assert(q[i].0 != q[j - 2].0);
            assert(q[j - 2].0 != q[j - 1].0);
            lemma_no_three_alike(q[i].0.0, q[j - 2].0.0, q[j - 1].0.0);
        }
        assert(spec_normalize(q[j - 2].0.0) == spec_normalize(q[j - 1].0.0));
    }
    lemma_run_step(es, j);
    lemma_layout_fails_at(es, j);
}

/// A value-metadata entry outside any group, followed directly by a value
/// entry of another id, makes the layout fail with
/// `MismatchingValueMetadataId`.
pub proof fn lemma_mismatching_value_id(es: Seq<(ColumnSpec, CopyRange)>, i: int)
    requires
        1 <= i < es.len(),
        spec_run(es.take(i)) matches Ok(p) && p.state is InValue,
        type_of_bits(es[i].0.0 as int) == ColumnType::Value,
        spec_id(es[i].0.0) != spec_id(es[i - 1].0.0),
        spec_normalize(es[i - 1].0.0) <= spec_normalize(es[i].0.0),
    ensures
        spec_layout(es) == Err::<Seq<ColumnView>, BadColumnLayout>(
            BadColumnLayout::MismatchingValueMetadataId,
        ),
{
    lemma_run_facts(es.take(i));
    lemma_run_step(es, i);
    lemma_layout_fails_at(es, i);
}

/// A group entry closed before any grouped entry (by an entry of another id
/// or by the end of the input) makes the layout fail with `EmptyGroup`.
pub proof fn lemma_empty_group(es: Seq<(ColumnSpec, CopyRange)>, i: int)
    requires
        1 <= i <= es.len(),
        spec_run(es.take(i)) matches Ok(p) && p.state matches StateView::InGroup(
            _,
            _,
            grouped,
            GroupParseState::Ready,
        ) && grouped.len() == 0,
        i < es.len() ==> spec_id(es[i].0.0) != spec_id(es[i - 1].0.0) && spec_normalize(es[i - 1].0.0)
            <= spec_normalize(es[i].0.0),
    ensures
        spec_layout(es) == Err::<Seq<ColumnView>, BadColumnLayout>(BadColumnLayout::EmptyGroup),
{
    lemma_run_facts(es.take(i));
    if i < es.len() {
        lemma_run_step(es, i);
        lemma_layout_fails_at(es, i);
    } else {
        assert(es.take(i) =~= es);
    }
}

} // verus!

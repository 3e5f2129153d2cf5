//! Column metadata: a count followed by that many (specification, length)
//! pairs, which carve the data block that follows into one byte range per
//! column.
use vstd::prelude::*;

use crate::column::CopyRange;
use crate::column_spec::{spec_normalize, ColumnSpec};
use crate::leb128::{leb128_u64, spec_leb128_u64};
use crate::parse::{read_u32, spec_read_u32, ErrorKind, ParseError, ParseResult};

verus! {

/// Entries whose ranges follow one another from offset zero.
pub open spec fn tiles(es: Seq<(ColumnSpec, CopyRange)>) -> bool {
    &&& forall|i: int| 0 <= i < es.len() ==> es[i].1.start <= es[i].1.end
    &&& es.len() > 0 ==> es[0].1.start == 0
    &&& forall|i: int| 0 <= i < es.len() - 1 ==> es[i].1.end == #[trigger] es[i + 1].1.start
}

/// Entries whose specifications do not decrease once normalized.
pub open spec fn normal_sorted(es: Seq<(ColumnSpec, CopyRange)>) -> bool {
    forall|i: int|
        0 <= i < es.len() - 1 ==> spec_normalize(es[i].0.0) <= spec_normalize(#[trigger] es[i + 1].0.0)
}

/// The sum of the lengths of the entries' ranges.
pub open spec fn sum_lens(es: Seq<(ColumnSpec, CopyRange)>) -> int
    decreases es.len(),
{
    if es.len() == 0 {
        0
    } else {
        sum_lens(es.drop_last()) + (es.last().1.end - es.last().1.start)
    }
}

/// Reading `count` (specification, length) pairs from the front of `s`,
/// the first range starting at `offset`.
pub open spec fn spec_entries(s: Seq<u8>, count: nat, offset: nat) -> Result<
    (Seq<u8>, Seq<(ColumnSpec, CopyRange)>),
    ParseError,
>
    decreases count,
{
    if count == 0 {
        Ok((s, seq![]))
    } else {
        match spec_read_u32(s) {
            Err(e) => Err(e),
            Ok((s1, raw)) => match spec_leb128_u64(s1) {
                Err(e) => Err(e),
                Ok((s2, len)) => if offset + len > usize::MAX {
                    Err(ParseError::Error(ErrorKind::ColumnLengthOverflow))
                } else {
                    let entry = (ColumnSpec(raw), CopyRange { start: offset as usize, end: (offset + len) as usize });
                    match spec_entries(s2, (count - 1) as nat, (offset + len) as nat) {
                        Err(e) => Err(e),
                        Ok((s3, es)) => Ok((s3, seq![entry] + es)),
                    }
                },
            },
        }
    }
}

/// Reading column metadata from the front of `s`.
pub open spec fn spec_column_metadata(s: Seq<u8>) -> Result<(Seq<u8>, Seq<(ColumnSpec, CopyRange)>), ParseError> {
    match spec_leb128_u64(s) {
        Err(e) => Err(e),
        Ok((s1, count)) => match spec_entries(s1, count as nat, 0) {
            Err(e) => Err(e),
            Ok((s2, es)) => if normal_sorted(es) {
                Ok((s2, es))
            } else {
                Err(ParseError::Error(ErrorKind::InvalidColumnMetadataSort))
            },
        },
    }
}

proof fn lemma_sum_lens_prepend(e: (ColumnSpec, CopyRange), es: Seq<(ColumnSpec, CopyRange)>)
    ensures
        sum_lens(seq![e] + es) == (e.1.end - e.1.start) + sum_lens(es),
    decreases es.len(),
{
    if es.len() > 0 {
        assert((seq![e] + es).drop_last() =~= seq![e] + es.drop_last());
        assert((seq![e] + es).last() == es.last());
        lemma_sum_lens_prepend(e, es.drop_last());
    } else {
        assert((seq![e] + es).drop_last() =~= Seq::<(ColumnSpec, CopyRange)>::empty());
        assert((seq![e] + es).last() == e);
        assert(sum_lens(Seq::<(ColumnSpec, CopyRange)>::empty()) == 0);
    }
}

proof fn lemma_entries_tile(s: Seq<u8>, count: nat, offset: nat)
    ensures
        spec_entries(s, count, offset) matches Ok((_, es)) ==> {
            &&& es.len() == count
            &&& forall|i: int| 0 <= i < es.len() ==> es[i].1.start <= es[i].1.end
            &&& es.len() > 0 ==> es[0].1.start == offset
            &&& forall|i: int| 0 <= i < es.len() - 1 ==> es[i].1.end == #[trigger] es[i + 1].1.start
            &&& offset + sum_lens(es) == if es.len() == 0 {
                offset as int
            } else {
                es.last().1.end as int
            }
        },
    decreases count,
{
    if count > 0 {
        if let Ok((s1, raw)) = spec_read_u32(s) {
            if let Ok((s2, len)) = spec_leb128_u64(s1) {
                if offset + len <= usize::MAX {
                    lemma_entries_tile(s2, (count - 1) as nat, (offset + len) as nat);
                    if let Ok((s3, es)) = spec_entries(s2, (count - 1) as nat, (offset + len) as nat) {
                        let entry = (ColumnSpec(raw), CopyRange { start: offset as usize, end: (offset + len) as usize });
                        let all = seq![entry] + es;
                        lemma_sum_lens_prepend(entry, es);
                        assert forall|i: int| 0 <= i < all.len() - 1 implies all[i].1.end == #[trigger] all[i + 1].1.start by {
                            if i > 0 {
                                assert(all[i] == es[i - 1]);
                                assert(all[i + 1] == es[(i - 1) + 1]);
                            }
                        }
                    }
                }
            }
        }
    }
}

/// Column metadata whose normalized specifications decrease is rejected,
/// once its pairs are read and their lengths add up within `usize` (else the
/// length overflow is reported first).
/// Accepted metadata has ranges that follow one another from offset zero,
/// each as long as declared, so that the sum of the declared lengths (what
/// `total_column_len` returns) is where the last range ends: the ranges
/// exactly cover the data block.
pub proof fn lemma_column_metadata_layout(s: Seq<u8>)
    ensures
        (spec_leb128_u64(s) matches Ok((s1, n)) && spec_entries(s1, n as nat, 0) matches Ok((_, es))
            && !normal_sorted(es)) ==> spec_column_metadata(s) == Err::<
            (Seq<u8>, Seq<(ColumnSpec, CopyRange)>),
            ParseError,
        >(ParseError::Error(ErrorKind::InvalidColumnMetadataSort)),
        spec_column_metadata(s) matches Ok((_, es)) ==> {
            &&& normal_sorted(es)
            &&& tiles(es)
            &&& sum_lens(es) == if es.len() == 0 {
                0
            } else {
                es.last().1.end as int
            }
        },
{
    if let Ok((s1, n)) = spec_leb128_u64(s) {
        lemma_entries_tile(s1, n as nat, 0);
    }
}

#[derive(Debug)]
pub struct ColumnMetadata {
    entries: Vec<(ColumnSpec, CopyRange)>,
}

impl View for ColumnMetadata {
    type V = Seq<(ColumnSpec, CopyRange)>;

    closed spec fn view(&self) -> Seq<(ColumnSpec, CopyRange)> {
        self.entries@
    }
}

/// A metadata parse result with its entries given by their contents.
pub open spec fn parsed_metadata<'a>(r: ParseResult<'a, ColumnMetadata>) -> Result<
    (Seq<u8>, Seq<(ColumnSpec, CopyRange)>),
    ParseError,
> {
    match r {
        Ok((rest, m)) => Ok((rest@, m@)),
        Err(e) => Err(e),
    }
}

impl ColumnMetadata {
    #[verifier::type_invariant]
    spec fn well_formed(self) -> bool {
        tiles(self.entries@)
    }

    pub fn parse<'a>(input: &'a [u8]) -> (r: ParseResult<'a, ColumnMetadata>)
        ensures
            parsed_metadata(r) == spec_column_metadata(input@),
    {
        let (i, num_columns) = leb128_u64(input)?;
        let mut i = i;
        let mut columns: Vec<(ColumnSpec, CopyRange)> = Vec::new();
        let mut offset: usize = 0;
        let mut k: u64 = 0;
        while k < num_columns
            invariant
                k <= num_columns,
                spec_leb128_u64(input@) == Ok::<(Seq<u8>, u64), ParseError>((
                    spec_leb128_u64(input@)->Ok_0.0,
                    num_columns,
                )),
                tiles(columns@),
                columns@.len() == 0 ==> offset == 0,
                columns@.len() > 0 ==> offset == columns@.last().1.end,
                columns@.len() == k,
                spec_entries(spec_leb128_u64(input@)->Ok_0.0, num_columns as nat, 0) == match spec_entries(
                    i@,
                    (num_columns - k) as nat,
                    offset as nat,
                ) {
                    Err(e) => Err(e),
                    Ok((s3, es)) => Ok((s3, columns@ + es)),
                },
            decreases num_columns - k,
        {
            let (i1, raw) = read_u32(i)?;
            let (i2, len) = leb128_u64(i1)?;
            if len > (usize::MAX - offset) as u64 {
                return Err(ParseError::Error(ErrorKind::ColumnLengthOverflow));
            }
            let end = offset + len as usize;
            let entry = (ColumnSpec(raw), CopyRange { start: offset, end });
            proof {
                let ghost tail = spec_entries(i2@, (num_columns - k - 1) as nat, end as nat);
                if let Ok((s3, es)) = tail {
                    assert(columns@ + (seq![entry] + es) =~= columns@.push(entry) + es);
                }
            }
            columns.push(entry);
            offset = end;
            i = i2;
            k = k + 1;
        }
        proof {
            assert(columns@ + seq![] =~= columns@);
        }
        if !are_normal_sorted(&columns) {
            return Err(ParseError::Error(ErrorKind::InvalidColumnMetadataSort));
        }
        Ok((i, ColumnMetadata { entries: columns }))
    }

    /// The sum of the declared column lengths: the size of the data block
    /// that the columns describe.
    pub fn total_column_len(&self) -> (r: usize)
        ensures
            r == sum_lens(self@),
    {
        proof {
            use_type_invariant(self);
        }
        let mut total: usize = 0;
        let mut k: usize = 0;
        while k < self.entries.len()
            invariant
                tiles(self.entries@),
                k <= self.entries@.len(),
                total == sum_lens(self.entries@.take(k as int)),
                k > 0 ==> total == self.entries@[k - 1].1.end,
                k == 0 ==> total == 0,
            decreases self.entries@.len() - k,
        {
            let (_, range) = self.entries[k];
            proof {
                if k > 0 {
                    assert(self.entries@[(k - 1) + 1].1.start == self.entries@[k - 1].1.end);
                }
                assert(self.entries@.take(k + 1).drop_last() =~= self.entries@.take(k as int));
            }
            total = total + (range.end - range.start);
            k = k + 1;
        }
        proof {
            assert(self.entries@.take(k as int) =~= self.entries@);
        }
        total
    }

    /// The entries in declaration order.
    pub fn iter(&self) -> (r: Vec<(ColumnSpec, CopyRange)>)
        ensures
            r@ == self@,
    {
        let mut out: Vec<(ColumnSpec, CopyRange)> = Vec::new();
        let mut k: usize = 0;
        while k < self.entries.len()
            invariant
                k <= self.entries@.len(),
                out@ == self.entries@.take(k as int),
            decreases self.entries@.len() - k,
        {
            out.push(self.entries[k]);
            k = k + 1;
            assert(out@ =~= self.entries@.take(k as int));
        }
        assert(self.entries@.take(k as int) =~= self.entries@);
        out
    }
}

/// Whether the specifications do not decrease once normalized.
pub fn are_normal_sorted(cols: &[(ColumnSpec, CopyRange)]) -> (r: bool)
    ensures
        r == normal_sorted(cols@),
{
    let mut k: usize = 1;
    while k < cols.len()
        invariant
            1 <= k,
            forall|i: int| 0 <= i < k - 1 && i < cols@.len() - 1 ==> spec_normalize(cols@[i].0.0) <= spec_normalize(
                #[trigger] cols@[i + 1].0.0,
            ),
        decreases cols.len() - k,
    {
        if cols[k].0.normalize().0 < cols[k - 1].0.normalize().0 {
            assert(!(spec_normalize(cols@[k - 1].0.0) <= spec_normalize(cols@[(k - 1) + 1].0.0)));
            return false;
        }
        k = k + 1;
    }
    true
}

} // verus!

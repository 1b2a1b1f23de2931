//! The scan itself: for each pileup column, the decision whether the
//! position is heterogeneous, and the row that reports it.

use crate::args::{wide_product, CommandArgs, Fraction};
use crate::fasta::{context_of, is_homopolymer_at, Context, ReferenceIndex};
use crate::homopolymer::HomopolymerRun;
use crate::tally::{
    all_valid, first_invalid_byte, tally_column, tally_of, NucleotideTally, Observation,
};
use crate::utils::{decode, u8_to_nt, BamParseError};
use vstd::prelude::*;

verus! {

/// What the reads show at one position of a contig.
#[derive(Debug, Clone, PartialEq, Eq)]
pub struct PileupColumn {
    /// Name of the contig.
    pub contig: String,
    /// Position in the contig, counted from zero.
    pub pos: usize,
    /// One observation for each read that covers the position.
    pub observations: Vec<Observation>,
}

impl PileupColumn {
    /// Number of reads that cover the position.
    pub open spec fn spec_depth(&self) -> nat {
        self.observations@.len()
    }

    /// Number of reads that cover the position.
    pub fn depth(&self) -> (r: usize)
        ensures
            r == self.spec_depth(),
    {
        self.observations.len()
    }
}

/// The report of one heterogeneous position.
#[derive(Debug, Clone, PartialEq, Eq)]
pub struct ResultRow {
    /// Name of the contig.
    pub contig_name: String,
    /// The reference nucleotide at the position.
    pub nt: char,
    /// Position in the contig, counted from zero.
    pub pos: usize,
    /// The reference bytes of the window around the position.
    pub nt_context: Vec<u8>,
    /// Number of reads that cover the position.
    pub depth: usize,
    /// Reads that show the reference nucleotide, out of those that show a
    /// nucleotide.
    pub ref_cov: Fraction,
    /// Reads that show the reference nucleotide, out of all reads.
    pub ref_cov_abs: Fraction,
    /// Reads with a deletion, out of all reads.
    pub deletion_fraction: Fraction,
    /// Reads that show `A`.
    pub a: usize,
    /// Reads that show `T`.
    pub t: usize,
    /// Reads that show `C`.
    pub c: usize,
    /// Reads that show `G`.
    pub g: usize,
    /// The homopolymer of the reference that holds the position, if any.
    pub homopolymer: Option<HomopolymerRun>,
}

/// The first line of the table: the names of a row's fields in the order in
/// which they are written, with a tab between two of them.
pub fn header_line() -> (r: String)
    ensures
        r@ == "contig_name\tnt\tpos\tnt_context\tdepth\tref_cov\tref_cov_abs\tdeletion_fraction\tA\tT\tC\tG"@,
{
    "contig_name\tnt\tpos\tnt_context\tdepth\tref_cov\tref_cov_abs\tdeletion_fraction\tA\tT\tC\tG".to_owned()
}

/// The reference nucleotide's share of the reads that show a nucleotide is
/// below one minus `min_het`.
pub open spec fn reference_share_below(
    tally: NucleotideTally,
    ref_nt: char,
    min_het: Fraction,
) -> bool {
    tally.spec_count(ref_nt) * min_het.denominator < tally.spec_total_nt() * (min_het.denominator
        - min_het.numerator)
}

/// A position is heterogeneous where enough reads cover it, at least one of
/// them shows a nucleotide, and the reference nucleotide's share of those
/// that do is below one minus `min_het`.
pub open spec fn is_heterogeneous(
    tally: NucleotideTally,
    depth: int,
    ref_nt: char,
    min_read_depth: int,
    min_het: Fraction,
) -> bool {
    &&& depth >= min_read_depth
    &&& depth > 0
    &&& tally.spec_total_nt() > 0
    &&& reference_share_below(tally, ref_nt, min_het)
}

/// Whether a position with the given tally and depth is heterogeneous under
/// the settings `args`. A position where no read shows a nucleotide never is:
/// its reference share has no value.
pub fn is_flagged(
    tally: &NucleotideTally,
    depth: usize,
    ref_nt: char,
    args: &CommandArgs,
) -> (r: bool)
    requires
        tally.wf(),
    ensures
        r == is_heterogeneous(
            *tally,
            depth as int,
            ref_nt,
            args.min_read_depth as int,
            args.min_het_frequency,
        ),
{
    if depth == 0 || depth < args.min_read_depth as usize {
        return false;
    }
    let total: usize = tally.total_nt();
    if total == 0 {
        return false;
    }
    let reference: usize = tally.count(ref_nt);
    let min_het: Fraction = args.min_het_frequency;
    if min_het.numerator >= min_het.denominator {
        assert(reference * min_het.denominator >= total * (min_het.denominator
            - min_het.numerator)) by (nonlinear_arith)
            requires
                reference >= 0,
                total >= 0,
                min_het.denominator >= 0,
                min_het.denominator - min_het.numerator <= 0,
        ;
        return false;
    }
    wide_product(reference as u64, min_het.denominator) < wide_product(
        total as u64,
        min_het.denominator - min_het.numerator,
    )
}

/// The row `row` reports the position `pos` of the contig `contig_name` with
/// reference nucleotide `nt`, from the given context, tally and depth.
pub open spec fn is_row_for(
    row: ResultRow,
    contig_name: Seq<char>,
    pos: int,
    nt: char,
    nt_context: Seq<u8>,
    homopolymer: Option<HomopolymerRun>,
    tally: NucleotideTally,
    depth: int,
) -> bool {
    &&& row.contig_name@ == contig_name
    &&& row.nt == nt
    &&& row.pos == pos
    &&& row.nt_context@ == nt_context
    &&& row.homopolymer == homopolymer
    &&& row.depth == depth
    &&& row.ref_cov.numerator == tally.spec_count(nt)
    &&& row.ref_cov.denominator == tally.spec_total_nt()
    &&& row.ref_cov_abs.numerator == tally.spec_count(nt)
    &&& row.ref_cov_abs.denominator == depth
    &&& row.deletion_fraction.numerator == tally.deletion
    &&& row.deletion_fraction.denominator == depth
    &&& row.a == tally.a
    &&& row.t == tally.t
    &&& row.c == tally.c
    &&& row.g == tally.g
}

/// Decides whether the position is reported, and makes its row if it is.
/// The fractions of a row all have a denominator above zero.
pub fn filter_and_emit(
    contig_name: &String,
    pos: usize,
    ref_nt: char,
    context: Context,
    tally: &NucleotideTally,
    depth: usize,
    args: &CommandArgs,
) -> (r: Option<ResultRow>)
    requires
        tally.wf(),
    ensures
        r.is_some() <==> is_heterogeneous(
            *tally,
            depth as int,
            ref_nt,
            args.min_read_depth as int,
            args.min_het_frequency,
        ),
        match r {
            Some(row) => {
                &&& is_row_for(
                    row,
                    contig_name@,
                    pos as int,
                    ref_nt,
                    context.nt_context@,
                    context.homopolymer,
                    *tally,
                    depth as int,
                )
                &&& row.ref_cov.wf()
                &&& row.ref_cov_abs.wf()
                &&& row.deletion_fraction.wf()
            },
            None => true,
        },
{
    if !is_flagged(tally, depth, ref_nt, args) {
        return None;
    }
    let reference: u64 = tally.count(ref_nt) as u64;
    Some(
        ResultRow {
            contig_name: contig_name.clone(),
            nt: ref_nt,
            pos,
            nt_context: context.nt_context,
            depth,
            ref_cov: Fraction { numerator: reference, denominator: tally.total_nt() as u64 },
            ref_cov_abs: Fraction { numerator: reference, denominator: depth as u64 },
            deletion_fraction: Fraction {
                numerator: tally.deletion as u64,
                denominator: depth as u64,
            },
            a: tally.a,
            t: tally.t,
            c: tally.c,
            g: tally.g,
            homopolymer: context.homopolymer,
        },
    )
}

/// The error that stops the scan at `column`, if one does. A column of too
/// few reads is passed over before anything of it is looked at. Then the
/// contig must be in the index, the position in the contig, the reference
/// byte a nucleotide code, and so must every base of the reads.
pub open spec fn column_error(
    index: Map<Seq<char>, Seq<u8>>,
    column: PileupColumn,
    args: CommandArgs,
) -> Option<BamParseError> {
    if column.spec_depth() < args.min_read_depth {
        None
    } else if !index.contains_key(column.contig@) {
        Some(BamParseError::ReferenceLookupError)
    } else if column.pos >= index[column.contig@].len() {
        Some(BamParseError::ReferencePositionError)
    } else if decode(index[column.contig@][column.pos as int]).is_none() {
        Some(BamParseError::InvalidNtError(index[column.contig@][column.pos as int]))
    } else if !all_valid(column.observations@) {
        Some(BamParseError::InvalidNtError(first_invalid_byte(column.observations@)))
    } else {
        None
    }
}

/// The reference nucleotide at the position of `column`.
pub open spec fn reference_nt(index: Map<Seq<char>, Seq<u8>>, column: PileupColumn) -> char {
    decode(index[column.contig@][column.pos as int]).unwrap()
}

/// The scan reports the position of `column`.
pub open spec fn column_flagged(
    index: Map<Seq<char>, Seq<u8>>,
    column: PileupColumn,
    args: CommandArgs,
) -> bool {
    &&& column_error(index, column, args).is_none()
    &&& column.spec_depth() >= args.min_read_depth
    &&& is_heterogeneous(
        tally_of(column.observations@),
        column.spec_depth() as int,
        reference_nt(index, column),
        args.min_read_depth as int,
        args.min_het_frequency,
    )
}

/// `row` is the report of `column`: its fields are those of the column, of
/// the column's tally, and of the reference around the column's position.
pub open spec fn is_row_of_column(
    row: ResultRow,
    index: Map<Seq<char>, Seq<u8>>,
    min_run_length: int,
    column: PileupColumn,
    args: CommandArgs,
) -> bool {
    &&& is_row_for(
        row,
        column.contig@,
        column.pos as int,
        reference_nt(index, column),
        context_of(index[column.contig@], column.pos as int, args.num_flanking_bases as int),
        row.homopolymer,
        tally_of(column.observations@),
        column.spec_depth() as int,
    )
    &&& is_homopolymer_at(index[column.contig@], min_run_length, column.pos as int, row.homopolymer)
    &&& row.ref_cov.wf()
    &&& row.ref_cov_abs.wf()
    &&& row.deletion_fraction.wf()
}

/// Handles one pileup column: the row that reports its position if the
/// position is heterogeneous, nothing if it is not, and the error where the
/// column cannot be read against the reference.
pub fn process_column(
    index: &ReferenceIndex,
    column: &PileupColumn,
    args: &CommandArgs,
) -> (r: Result<Option<ResultRow>, BamParseError>)
    ensures
        match r {
            Ok(Some(row)) => {
                &&& column_flagged(index@, *column, *args)
                &&& is_row_of_column(row, index@, index.min_run_length() as int, *column, *args)
            },
            Ok(None) => {
                &&& column_error(index@, *column, *args).is_none()
                &&& !column_flagged(index@, *column, *args)
            },
            Err(e) => column_error(index@, *column, *args) == Some(e),
        },
{
    let depth: usize = column.depth();
    if depth < args.min_read_depth as usize {
        return Ok(None);
    }
    let context = match index.lookup(&column.contig, column.pos, args.num_flanking_bases as usize) {
        Ok(context) => context,
        Err(e) => {
            return Err(e);
        },
    };
    let ref_nt: char = match u8_to_nt(&context.reference) {
        Ok(nt) => nt,
        Err(e) => {
            return Err(e);
        },
    };
    let tally = match tally_column(&column.observations) {
        Ok(tally) => tally,
        Err(e) => {
            return Err(e);
        },
    };
    Ok(filter_and_emit(&column.contig, column.pos, ref_nt, context, &tally, depth, args))
}

/// The columns that the scan reports, by their place among `columns`, in
/// rising order.
pub open spec fn flagged_columns(
    index: Map<Seq<char>, Seq<u8>>,
    columns: Seq<PileupColumn>,
    args: CommandArgs,
) -> Seq<int>
    decreases columns.len(),
{
    if columns.len() == 0 {
        Seq::empty()
    } else {
        let front = flagged_columns(index, columns.drop_last(), args);
        if column_flagged(index, columns.last(), args) {
            front.push(columns.len() - 1)
        } else {
            front
        }
    }
}

/// Column `k` is the first of `columns` at which the scan fails.
pub open spec fn is_first_error(
    index: Map<Seq<char>, Seq<u8>>,
    columns: Seq<PileupColumn>,
    args: CommandArgs,
    k: int,
) -> bool {
    &&& 0 <= k < columns.len()
    &&& column_error(index, columns[k], args).is_some()
    &&& forall|j: int| 0 <= j < k ==> column_error(index, #[trigger] columns[j], args).is_none()
}

/// No column of `columns` makes the scan fail.
pub open spec fn all_columns_readable(
    index: Map<Seq<char>, Seq<u8>>,
    columns: Seq<PileupColumn>,
    args: CommandArgs,
) -> bool {
    forall|k: int|
        0 <= k < columns.len() ==> column_error(index, #[trigger] columns[k], args).is_none()
}

/// Scans the pileup columns in the order given and returns the rows of the
/// heterogeneous positions, in that order. The first column that cannot be
/// read against the reference ends the scan with its error.
pub fn bam_parse(
    args: &CommandArgs,
    index: &ReferenceIndex,
    columns: &Vec<PileupColumn>,
) -> (r: Result<Vec<ResultRow>, BamParseError>)
    ensures
        r.is_ok() <==> all_columns_readable(index@, columns@, *args),
        match r {
            Ok(rows) => {
                let flagged = flagged_columns(index@, columns@, *args);
                &&& rows@.len() == flagged.len()
                &&& forall|i: int|
                    0 <= i < flagged.len() ==> 0 <= #[trigger] flagged[i] < columns@.len()
                &&& forall|i: int|
                    0 <= i < rows@.len() ==> is_row_of_column(
                        #[trigger] rows@[i],
                        index@,
                        index.min_run_length() as int,
                        columns@[flagged[i]],
                        *args,
                    )
            },
            Err(e) => exists|k: int|
                is_first_error(index@, columns@, *args, k) && #[trigger] column_error(
                    index@,
                    columns@[k],
                    *args,
                ) == Some(e),
        },
{
    let mut rows: Vec<ResultRow> = Vec::new();
    let mut k: usize = 0;
    while k < columns.len()
        invariant
            k <= columns@.len(),
            all_columns_readable(index@, columns@.take(k as int), *args),
            rows@.len() == flagged_columns(index@, columns@.take(k as int), *args).len(),
            forall|i: int|
                0 <= i < rows@.len() ==> is_row_of_column(
                    #[trigger] rows@[i],
                    index@,
                    index.min_run_length() as int,
                    columns@[flagged_columns(index@, columns@.take(k as int), *args)[i]],
                    *args,
                ),
        decreases columns@.len() - k,
    {
        let ghost seen = columns@.take(k as int);
        let ghost next = columns@.take(k + 1);
        assert(next.drop_last() =~= seen);
        assert(next.last() == columns@[k as int]);
        match process_column(index, &columns[k], args) {
            Ok(Some(row)) => {
                rows.push(row);
            },
            Ok(None) => {},
            Err(e) => {
                proof {
                    assert forall|j: int| 0 <= j < k implies column_error(
                        index@,
                        #[trigger] columns@[j],
                        *args,
                    ).is_none() by {
                        assert(seen[j] == columns@[j]);
                    }
                    assert(is_first_error(index@, columns@, *args, k as int));
                }
                return Err(e);
            },
        }
        proof {
            assert forall|j: int| 0 <= j < next.len() implies column_error(
                index@,
                #[trigger] next[j],
                *args,
            ).is_none() by {
                if j < k {
                    assert(seen[j] == next[j]);
                }
            }
        }
        k = k + 1;
    }
    proof {
        assert(columns@.take(k as int) =~= columns@);
        lemma_flagged_columns(index@, columns@, *args);
    }
    Ok(rows)
}

/// The columns that the scan reports are listed in the order in which they
/// come: each listed place is that of a reported column, the places rise,
/// and no reported column is left out.
pub proof fn lemma_flagged_columns(
    index: Map<Seq<char>, Seq<u8>>,
    columns: Seq<PileupColumn>,
    args: CommandArgs,
)
    ensures
        ({
            let flagged = flagged_columns(index, columns, args);
            &&& forall|i: int|
                0 <= i < flagged.len() ==> 0 <= #[trigger] flagged[i] < columns.len()
                    && column_flagged(index, columns[flagged[i]], args)
            &&& forall|i: int, j: int|
                0 <= i < j < flagged.len() ==> #[trigger] flagged[i] < #[trigger] flagged[j]
            &&& forall|k: int|
                0 <= k < columns.len() && column_flagged(index, #[trigger] columns[k], args)
                    ==> flagged.contains(k)
        }),
    decreases columns.len(),
{
    if columns.len() > 0 {
        let front = columns.drop_last();
        lemma_flagged_columns(index, front, args);
        let before = flagged_columns(index, front, args);
        let flagged = flagged_columns(index, columns, args);
        assert forall|i: int| 0 <= i < flagged.len() implies 0 <= #[trigger] flagged[i]
            < columns.len() && column_flagged(index, columns[flagged[i]], args) by {
            if i < before.len() {
                assert(flagged[i] == before[i]);
                assert(front[before[i]] == columns[before[i]]);
            }
        }
        assert forall|i: int, j: int| 0 <= i < j < flagged.len() implies #[trigger] flagged[i]
            < #[trigger] flagged[j] by {
            assert(flagged[i] == before[i]);
            if j < before.len() {
                assert(flagged[j] == before[j]);
            }
        }
        assert forall|k: int|
            0 <= k < columns.len() && column_flagged(
                index,
                #[trigger] columns[k],
                args,
            ) implies flagged.contains(k) by {
            if k < front.len() {
                assert(front[k] == columns[k]);
                let i = choose|i: int| 0 <= i < before.len() && before[i] == k;
                assert(flagged[i] == k);
            } else {
                assert(flagged[flagged.len() - 1] == k);
            }
        }
    }
}

/// The reference share is below one minus the threshold exactly where the
/// share of the other nucleotides is above the threshold.
pub open spec fn other_share_above(
    tally: NucleotideTally,
    ref_nt: char,
    min_het: Fraction,
) -> bool {
    (tally.spec_total_nt() - tally.spec_count(ref_nt)) * min_het.denominator
        > tally.spec_total_nt() * min_het.numerator
}

/// A position is heterogeneous exactly where the reads that show another
/// nucleotide than the reference make up more than the threshold of those
/// that show a nucleotide.
pub proof fn lemma_flag_by_other_share(
    tally: NucleotideTally,
    depth: int,
    ref_nt: char,
    min_read_depth: int,
    min_het: Fraction,
)
    ensures
        reference_share_below(tally, ref_nt, min_het) <==> other_share_above(
            tally,
            ref_nt,
            min_het,
        ),
        is_heterogeneous(tally, depth, ref_nt, min_read_depth, min_het) <==> (depth
            >= min_read_depth && depth > 0 && tally.spec_total_nt() > 0 && other_share_above(
            tally,
            ref_nt,
            min_het,
        )),
{
    let r = tally.spec_count(ref_nt) as int;
    let t = tally.spec_total_nt();
    let n = min_het.numerator as int;
    let d = min_het.denominator as int;
    assert(t * (d - n) == t * d - t * n) by (nonlinear_arith);
    assert((t - r) * d == t * d - r * d) by (nonlinear_arith);
}

/// The filter is monotonic in the threshold: a position that is reported
/// under one threshold is reported under every lower one.
pub proof fn lemma_lower_threshold_keeps_flag(
    tally: NucleotideTally,
    depth: int,
    ref_nt: char,
    min_read_depth: int,
    low: Fraction,
    high: Fraction,
)
    requires
        low.at_most(high),
        is_heterogeneous(tally, depth, ref_nt, min_read_depth, high),
    ensures
        is_heterogeneous(tally, depth, ref_nt, min_read_depth, low),
{
    lemma_flag_by_other_share(tally, depth, ref_nt, min_read_depth, low);
    lemma_flag_by_other_share(tally, depth, ref_nt, min_read_depth, high);
    let o = tally.spec_total_nt() - tally.spec_count(ref_nt);
    let t = tally.spec_total_nt();
    let nl = low.numerator as int;
    let dl = low.denominator as int;
    let nh = high.numerator as int;
    let dh = high.denominator as int;
    assert(o * dl > t * nl) by (nonlinear_arith)
        requires
            t > 0,
            dl > 0,
            dh > 0,
            nl >= 0,
            nh >= 0,
            nl * dh <= nh * dl,
            o * dh > t * nh,
    {
        assert(o * dh * dl > t * nh * dl);
        assert(t * (nh * dl) >= t * (nl * dh));
        assert((o * dl) * dh > (t * nl) * dh);
    }
}

/// A position that is reported under one threshold is reported under a
/// higher one as long as the reads that show another nucleotide than the
/// reference make up more than that higher threshold too.
pub proof fn lemma_higher_threshold_keeps_flag(
    tally: NucleotideTally,
    depth: int,
    ref_nt: char,
    min_read_depth: int,
    low: Fraction,
    high: Fraction,
)
    requires
        low.at_most(high),
        is_heterogeneous(tally, depth, ref_nt, min_read_depth, low),
        other_share_above(tally, ref_nt, high),
    ensures
        is_heterogeneous(tally, depth, ref_nt, min_read_depth, high),
{
    lemma_flag_by_other_share(tally, depth, ref_nt, min_read_depth, high);
}

/// Two thresholds of one value make one filter.
pub proof fn lemma_threshold_by_value(
    tally: NucleotideTally,
    depth: int,
    ref_nt: char,
    min_read_depth: int,
    first: Fraction,
    second: Fraction,
)
    requires
        first.at_most(second),
        second.at_most(first),
    ensures
        is_heterogeneous(tally, depth, ref_nt, min_read_depth, first) == is_heterogeneous(
            tally,
            depth,
            ref_nt,
            min_read_depth,
            second,
        ),
{
    if is_heterogeneous(tally, depth, ref_nt, min_read_depth, first) {
        lemma_lower_threshold_keeps_flag(tally, depth, ref_nt, min_read_depth, second, first);
    }
    if is_heterogeneous(tally, depth, ref_nt, min_read_depth, second) {
        lemma_lower_threshold_keeps_flag(tally, depth, ref_nt, min_read_depth, first, second);
    }
}

} // verus!

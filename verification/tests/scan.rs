use hetscan::args::{get_args, CommandArgs, Fraction};
use hetscan::bam::{
    bam_parse, filter_and_emit, header_line, is_flagged, process_column, PileupColumn, ResultRow,
};
use hetscan::fasta::{index_fasta, Context, ReferenceIndex};
use hetscan::homopolymer::HomopolymerRun;
use hetscan::tally::{tally_column, NucleotideTally, Observation};
use hetscan::utils::BamParseError;

fn settings() -> CommandArgs {
    CommandArgs::new("reads.bam".to_string(), "reference.fasta".to_string())
}

fn with_frequency(numerator: u64, denominator: u64) -> CommandArgs {
    let mut args = settings();
    args.min_het_frequency = Fraction { numerator, denominator };
    args
}

fn reads(text: &str) -> Vec<Observation> {
    text.bytes()
        .map(|b| if b == b'-' { Observation::Deletion } else { Observation::Base(b) })
        .collect()
}

fn column(contig: &str, pos: usize, text: &str) -> PileupColumn {
    PileupColumn { contig: contig.to_string(), pos, observations: reads(text) }
}

fn reference() -> ReferenceIndex {
    index_fasta(
        vec![
            ("chr1".to_string(), b"ACGTACGTAC".to_vec()),
            ("chr2".to_string(), b"AGTTTTACGGGGGGCACCCCCCCCCCCCCCCC".to_vec()),
            ("odd".to_string(), b"ACXGT".to_vec()),
        ],
        5,
    )
}

fn tally(a: usize, t: usize, c: usize, g: usize, n: usize, deletion: usize) -> NucleotideTally {
    NucleotideTally { a, t, c, g, n, deletion }
}

fn plain_context() -> Context {
    Context { reference: b'A', nt_context: b"CGACG".to_vec(), homopolymer: None }
}

fn as_float(f: Fraction) -> f32 {
    f.numerator as f32 / f.denominator as f32
}

#[test]
fn reference_share_at_the_limit_is_not_flagged() {
    let counts = tally(9, 1, 0, 0, 0, 0);
    assert!(!is_flagged(&counts, 10, 'A', &settings()));
    let row = filter_and_emit(&"chr1".to_string(), 4, 'A', plain_context(), &counts, 10, &settings());
    assert_eq!(row, None);
}

#[test]
fn reference_share_below_the_limit_is_flagged() {
    let counts = tally(8, 2, 0, 0, 0, 0);
    assert!(is_flagged(&counts, 10, 'A', &settings()));
    let row = filter_and_emit(&"chr1".to_string(), 4, 'A', plain_context(), &counts, 10, &settings())
        .unwrap();
    assert_eq!(as_float(row.ref_cov), 0.8);
    assert_eq!(as_float(row.ref_cov_abs), 0.8);
    assert_eq!(as_float(row.deletion_fraction), 0.0);
    assert_eq!(
        row,
        ResultRow {
            contig_name: "chr1".to_string(),
            nt: 'A',
            pos: 4,
            nt_context: b"CGACG".to_vec(),
            depth: 10,
            ref_cov: Fraction { numerator: 8, denominator: 10 },
            ref_cov_abs: Fraction { numerator: 8, denominator: 10 },
            deletion_fraction: Fraction { numerator: 0, denominator: 10 },
            a: 8,
            t: 2,
            c: 0,
            g: 0,
            homopolymer: None,
        }
    );
}

#[test]
fn column_of_deletions_is_passed_over() {
    let mut args = settings();
    args.min_read_depth = 5;
    let counts = tally(0, 0, 0, 0, 0, 5);
    assert!(!is_flagged(&counts, 5, 'A', &args));
    assert_eq!(
        filter_and_emit(&"chr1".to_string(), 0, 'A', plain_context(), &counts, 5, &args),
        None
    );
    let r = process_column(&reference(), &column("chr1", 0, "-----"), &args);
    assert_eq!(r, Ok(None));
}

#[test]
fn shallow_column_is_passed_over() {
    let counts = tally(1, 8, 0, 0, 0, 0);
    assert!(!is_flagged(&counts, 9, 'A', &settings()));
    assert!(is_flagged(&counts, 10, 'A', &settings()));
    let mut args = settings();
    args.min_read_depth = 9;
    assert!(is_flagged(&counts, 9, 'A', &args));
}

#[test]
fn column_without_reads_is_never_flagged() {
    let mut args = settings();
    args.min_read_depth = 0;
    assert!(!is_flagged(&tally(0, 0, 0, 0, 0, 0), 0, 'A', &args));
    assert!(!is_flagged(&tally(0, 3, 0, 0, 0, 0), 0, 'A', &args));
    assert!(is_flagged(&tally(0, 3, 0, 0, 0, 0), 3, 'A', &args));
}

#[test]
fn deletions_count_for_depth_and_not_for_the_share() {
    let counts = tally(8, 2, 0, 0, 0, 10);
    let row = filter_and_emit(&"chr1".to_string(), 0, 'A', plain_context(), &counts, 20, &settings())
        .unwrap();
    assert_eq!(row.ref_cov, Fraction { numerator: 8, denominator: 10 });
    assert_eq!(row.ref_cov_abs, Fraction { numerator: 8, denominator: 20 });
    assert_eq!(row.deletion_fraction, Fraction { numerator: 10, denominator: 20 });
    assert_eq!(as_float(row.ref_cov_abs), 0.4);
    assert_eq!(as_float(row.deletion_fraction), 0.5);
    let counts = tally(9, 1, 0, 0, 0, 10);
    assert!(!is_flagged(&counts, 20, 'A', &settings()));
}

#[test]
fn unknown_bases_count_among_the_nucleotides() {
    let counts = tally(9, 0, 0, 0, 1, 0);
    assert!(!is_flagged(&counts, 10, 'A', &settings()));
    let counts = tally(8, 0, 0, 0, 2, 0);
    assert!(is_flagged(&counts, 10, 'A', &settings()));
    assert!(is_flagged(&counts, 10, 'N', &settings()));
}

#[test]
fn lower_threshold_flags_whatever_a_higher_one_flags() {
    let thresholds = [(0u64, 1u64), (1, 20), (1, 10), (15, 100), (1, 5), (1, 2), (9, 10), (1, 1)];
    for t in 0..=20usize {
        let counts = tally(20 - t, t, 0, 0, 0, 0);
        let mut flagged_before = true;
        for (numerator, denominator) in thresholds {
            let flagged = is_flagged(&counts, 20, 'A', &with_frequency(numerator, denominator));
            assert!(flagged_before || !flagged);
            assert_eq!(flagged, (t as u64) * denominator > 20 * numerator);
            flagged_before = flagged;
        }
    }
}

#[test]
fn raised_threshold_can_take_a_flag_away() {
    let counts = tally(85, 15, 0, 0, 0, 0);
    assert!(is_flagged(&counts, 100, 'A', &with_frequency(1, 10)));
    assert!(!is_flagged(&counts, 100, 'A', &with_frequency(2, 10)));
}

#[test]
fn threshold_goes_by_value() {
    for t in 0..=10usize {
        let counts = tally(10 - t, t, 0, 0, 0, 0);
        assert_eq!(
            is_flagged(&counts, 10, 'A', &with_frequency(1, 10)),
            is_flagged(&counts, 10, 'A', &with_frequency(100_000, 1_000_000))
        );
    }
}

#[test]
fn threshold_of_zero_flags_any_other_nucleotide() {
    let args = with_frequency(0, 1);
    assert!(is_flagged(&tally(99, 1, 0, 0, 0, 0), 100, 'A', &args));
    assert!(!is_flagged(&tally(100, 0, 0, 0, 0, 0), 100, 'A', &args));
}

#[test]
fn threshold_of_one_flags_nothing() {
    let args = with_frequency(1, 1);
    assert!(!is_flagged(&tally(0, 100, 0, 0, 0, 0), 100, 'A', &args));
    let args = with_frequency(3, 2);
    assert!(!is_flagged(&tally(0, 100, 0, 0, 0, 0), 100, 'A', &args));
    let args = with_frequency(0, 0);
    assert!(!is_flagged(&tally(0, 100, 0, 0, 0, 0), 100, 'A', &args));
}

#[test]
fn large_counts_do_not_overflow() {
    let big = usize::MAX / 4;
    let counts = tally(big, big / 2, 0, 0, 0, 0);
    let args = with_frequency(u64::MAX / 2, u64::MAX);
    assert!(!is_flagged(&counts, big, 'A', &args));
    assert!(is_flagged(&counts, big, 'T', &args));
}

#[test]
fn flagged_column_gives_its_row() {
    let r = process_column(&reference(), &column("chr2", 9, "GGGGGGGTT-"), &settings());
    let row = r.unwrap().unwrap();
    assert_eq!(
        row,
        ResultRow {
            contig_name: "chr2".to_string(),
            nt: 'G',
            pos: 9,
            nt_context: b"CGGGG".to_vec(),
            depth: 10,
            ref_cov: Fraction { numerator: 7, denominator: 9 },
            ref_cov_abs: Fraction { numerator: 7, denominator: 10 },
            deletion_fraction: Fraction { numerator: 1, denominator: 10 },
            a: 0,
            t: 2,
            c: 0,
            g: 7,
            homopolymer: Some(HomopolymerRun { start: 8, end: 14, nt: b'G' }),
        }
    );
}

#[test]
fn column_that_agrees_with_the_reference_gives_no_row() {
    let r = process_column(&reference(), &column("chr1", 0, "AAAAAAAAAa"), &settings());
    assert_eq!(r, Ok(None));
    let r = process_column(&reference(), &column("chr1", 0, "AAAAAAAAAT"), &settings());
    assert_eq!(r, Ok(None));
    let r = process_column(&reference(), &column("chr1", 0, "AAAAAAAATT"), &settings());
    assert!(r.unwrap().is_some());
}

#[test]
fn row_at_the_contig_edges_has_a_short_context() {
    let row = process_column(&reference(), &column("chr1", 0, "TTTTTTTTTT"), &settings())
        .unwrap()
        .unwrap();
    assert_eq!(row.nt_context, b"ACG".to_vec());
    assert_eq!(row.nt, 'A');
    let row = process_column(&reference(), &column("chr1", 9, "TTTTTTTTTT"), &settings())
        .unwrap()
        .unwrap();
    assert_eq!(row.nt_context, b"TAC".to_vec());
    assert_eq!(row.nt, 'C');
    assert_eq!(row.ref_cov, Fraction { numerator: 0, denominator: 10 });
}

#[test]
fn shallow_column_is_skipped_before_anything_is_looked_up() {
    let r = process_column(&reference(), &column("nowhere", 0, "AAAAAAAAA"), &settings());
    assert_eq!(r, Ok(None));
    let r = process_column(&reference(), &column("chr1", 500, "XXXXXXXXX"), &settings());
    assert_eq!(r, Ok(None));
}

#[test]
fn unknown_contig_fails() {
    let r = process_column(&reference(), &column("nowhere", 0, "AAAAAAAAAA"), &settings());
    assert_eq!(r, Err(BamParseError::ReferenceLookupError));
}

#[test]
fn position_beyond_the_contig_fails() {
    let r = process_column(&reference(), &column("chr1", 10, "AAAAAAAAAA"), &settings());
    assert_eq!(r, Err(BamParseError::ReferencePositionError));
}

#[test]
fn invalid_reference_byte_fails() {
    let r = process_column(&reference(), &column("odd", 2, "AAAAAAAAAA"), &settings());
    assert_eq!(r, Err(BamParseError::InvalidNtError(b'X')));
    let r = process_column(&reference(), &column("odd", 2, "AAAAAAAA?A"), &settings());
    assert_eq!(r, Err(BamParseError::InvalidNtError(b'X')));
}

#[test]
fn invalid_read_base_fails() {
    let r = process_column(&reference(), &column("chr1", 0, "AAAAAAAA?Z"), &settings());
    assert_eq!(r, Err(BamParseError::InvalidNtError(b'?')));
}

#[test]
fn rows_come_in_pileup_order() {
    let columns = vec![
        column("chr1", 3, "TTTTTTTTCC"),
        column("chr1", 4, "AAAAAAAAAA"),
        column("chr1", 5, "CCC"),
        column("chr2", 20, "CCCCCCCCAA--"),
        column("chr1", 1, "GGGGGGGGGG"),
    ];
    let rows = bam_parse(&settings(), &reference(), &columns).unwrap();
    let places: Vec<(String, usize)> =
        rows.iter().map(|row| (row.contig_name.clone(), row.pos)).collect();
    assert_eq!(
        places,
        vec![("chr1".to_string(), 3), ("chr2".to_string(), 20), ("chr1".to_string(), 1)]
    );
    assert_eq!(rows[0], process_column(&reference(), &columns[0], &settings()).unwrap().unwrap());
    assert_eq!(rows[1].homopolymer, Some(HomopolymerRun { start: 16, end: 32, nt: b'C' }));
    assert_eq!(rows[1].depth, 12);
    assert_eq!(rows[2].nt, 'C');
}

#[test]
fn scan_of_no_columns_gives_no_rows() {
    assert_eq!(bam_parse(&settings(), &reference(), &vec![]), Ok(vec![]));
}

#[test]
fn first_failing_column_ends_the_scan() {
    let columns = vec![
        column("chr1", 3, "TTTTTTTTCC"),
        column("nowhere", 3, "TTT"),
        column("chr1", 4, "AAAAAAAA*A"),
        column("nowhere", 3, "TTTTTTTTCC"),
    ];
    let r = bam_parse(&settings(), &reference(), &columns);
    assert_eq!(r, Err(BamParseError::InvalidNtError(b'*')));
}

#[test]
fn tally_of_a_column_feeds_the_filter() {
    let counts = tally_column(&reads("AAAAAAAAAT")).unwrap();
    assert!(!is_flagged(&counts, 10, 'A', &settings()));
    let counts = tally_column(&reads("AAAAAAAATT")).unwrap();
    assert!(is_flagged(&counts, 10, 'A', &settings()));
    assert!(is_flagged(&counts, 10, 'T', &settings()));
}

#[test]
fn default_settings_are_valid() {
    let args = settings();
    assert_eq!(args.bam, "reads.bam");
    assert_eq!(args.fasta, "reference.fasta");
    assert_eq!(args.num_flanking_bases, 2);
    assert_eq!(args.min_read_depth, 10);
    assert_eq!(args.min_homopolymer_length, 5);
    assert_eq!(args.min_het_frequency, Fraction { numerator: 1, denominator: 10 });
    assert!(args.is_valid());
    assert!(get_args(args).is_some());
}

#[test]
fn settings_out_of_range_are_refused() {
    let mut args = settings();
    args.num_flanking_bases = 0;
    assert!(!args.is_valid());
    args.num_flanking_bases = 10;
    assert!(!args.is_valid());
    args.num_flanking_bases = 9;
    assert!(args.is_valid());
    args.min_read_depth = 0;
    assert!(!args.is_valid());
    args.min_read_depth = 255;
    assert!(args.is_valid());
    args.min_homopolymer_length = 4;
    assert!(!args.is_valid());
    args.min_homopolymer_length = 20;
    assert!(!args.is_valid());
    args.min_homopolymer_length = 19;
    assert!(args.is_valid());
    args.min_het_frequency = Fraction { numerator: 11, denominator: 10 };
    assert!(!args.is_valid());
    assert!(get_args(args.clone()).is_none());
    args.min_het_frequency = Fraction { numerator: 0, denominator: 0 };
    assert!(!args.is_valid());
    args.min_het_frequency = Fraction { numerator: 0, denominator: 7 };
    assert!(args.is_valid());
    args.min_het_frequency = Fraction { numerator: 7, denominator: 7 };
    assert!(get_args(args).is_some());
}

#[test]
fn fraction_needs_a_denominator() {
    assert_eq!(Fraction::new(1, 10), Some(Fraction { numerator: 1, denominator: 10 }));
    assert_eq!(Fraction::new(1, 0), None);
    assert!(Fraction { numerator: 1, denominator: 10 }.in_unit_interval());
    assert!(!Fraction { numerator: 11, denominator: 10 }.in_unit_interval());
}

#[test]
fn header_names_the_twelve_columns() {
    let header = header_line();
    let names: Vec<&str> = header.split('\t').collect();
    assert_eq!(
        names,
        vec![
            "contig_name",
            "nt",
            "pos",
            "nt_context",
            "depth",
            "ref_cov",
            "ref_cov_abs",
            "deletion_fraction",
            "A",
            "T",
            "C",
            "G"
        ]
    );
}

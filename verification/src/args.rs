//! The settings of a scan and the exact fractions they are stated in.

use vstd::prelude::*;

verus! {

/// The fraction `numerator / denominator`, kept exact.
#[derive(Debug, Clone, Copy, PartialEq, Eq, Structural)]
pub struct Fraction {
    /// The part.
    pub numerator: u64,
    /// The whole.
    pub denominator: u64,
}

impl Fraction {
    /// The fraction has a value: its denominator is not zero.
    pub open spec fn wf(self) -> bool {
        self.denominator > 0
    }

    /// The fraction has a value, and that value lies in `[0, 1]`.
    pub open spec fn is_proportion(self) -> bool {
        self.wf() && self.numerator <= self.denominator
    }

    /// The value of `self` is at most that of `other`; both have a value.
    pub open spec fn at_most(self, other: Fraction) -> bool {
        &&& self.wf()
        &&& other.wf()
        &&& self.numerator * other.denominator <= other.numerator * self.denominator
    }

    /// The fraction `numerator / denominator`, unless the denominator is zero.
    pub fn new(numerator: u64, denominator: u64) -> (r: Option<Fraction>)
        ensures
            r == if denominator > 0 {
                Some(Fraction { numerator, denominator })
            } else {
                None
            },
    {
        if denominator > 0 {
            Some(Fraction { numerator, denominator })
        } else {
            None
        }
    }

    /// Whether the fraction has a value in `[0, 1]`.
    pub fn in_unit_interval(&self) -> (r: bool)
        ensures
            r == self.is_proportion(),
    {
        self.denominator > 0 && self.numerator <= self.denominator
    }
}

/// The product of two words, which two words hold.
pub fn wide_product(x: u64, y: u64) -> (r: u128)
    ensures
        r == x * y,
{
    assert(x * y <= 0xffff_ffff_ffff_ffff * 0xffff_ffff_ffff_ffff) by (nonlinear_arith)
        requires
            0 <= x <= 0xffff_ffff_ffff_ffff,
            0 <= y <= 0xffff_ffff_ffff_ffff,
    ;
    (x as u128) * (y as u128)
}

/// Fewest bases that a context window may take on each side.
pub const MIN_FLANKING_BASES: u8 = 1;

/// Most bases that a context window may take on each side.
pub const MAX_FLANKING_BASES: u8 = 9;

/// Bases on each side of a position where none are asked for.
pub const DEFAULT_FLANKING_BASES: u8 = 2;

/// Lowest depth limit that may be set.
pub const MIN_READ_DEPTH: u8 = 1;

/// Depth limit where none is asked for.
pub const DEFAULT_READ_DEPTH: u8 = 10;

/// Shortest homopolymer length that may be set.
pub const MIN_HOMOPOLYMER_LENGTH: u8 = 5;

/// Longest homopolymer length that may be set.
pub const MAX_HOMOPOLYMER_LENGTH: u8 = 19;

/// Homopolymer length where none is asked for.
pub const DEFAULT_HOMOPOLYMER_LENGTH: u8 = 5;

/// The settings of one scan.
#[derive(Debug, Clone)]
pub struct CommandArgs {
    /// Where the alignments are read from.
    pub bam: String,
    /// Where the reference sequences are read from.
    pub fasta: String,
    /// Reference bases shown on each side of a reported position.
    pub num_flanking_bases: u8,
    /// Positions covered by fewer reads are passed over.
    pub min_read_depth: u8,
    /// Runs of one base shorter than this are no homopolymers.
    pub min_homopolymer_length: u8,
    /// A position is reported where more than this share of its nucleotides
    /// differ from the reference.
    pub min_het_frequency: Fraction,
}

impl CommandArgs {
    /// Every setting lies in its range.
    pub open spec fn wf(&self) -> bool {
        &&& MIN_FLANKING_BASES <= self.num_flanking_bases <= MAX_FLANKING_BASES
        &&& MIN_READ_DEPTH <= self.min_read_depth
        &&& MIN_HOMOPOLYMER_LENGTH <= self.min_homopolymer_length <= MAX_HOMOPOLYMER_LENGTH
        &&& self.min_het_frequency.is_proportion()
    }

    /// The settings of a scan of `bam` against `fasta` in which nothing else
    /// was asked for: two flanking bases, depth ten, homopolymers of five
    /// bases, a frequency of one in ten.
    pub fn new(bam: String, fasta: String) -> (r: CommandArgs)
        ensures
            r.bam == bam,
            r.fasta == fasta,
            r.num_flanking_bases == DEFAULT_FLANKING_BASES,
            r.min_read_depth == DEFAULT_READ_DEPTH,
            r.min_homopolymer_length == DEFAULT_HOMOPOLYMER_LENGTH,
            r.min_het_frequency == (Fraction { numerator: 1, denominator: 10 }),
            r.wf(),
    {
        CommandArgs {
            bam,
            fasta,
            num_flanking_bases: DEFAULT_FLANKING_BASES,
            min_read_depth: DEFAULT_READ_DEPTH,
            min_homopolymer_length: DEFAULT_HOMOPOLYMER_LENGTH,
            min_het_frequency: Fraction { numerator: 1, denominator: 10 },
        }
    }

    /// Whether every setting lies in its range.
    pub fn is_valid(&self) -> (r: bool)
        ensures
            r == self.wf(),
    {
        MIN_FLANKING_BASES <= self.num_flanking_bases && self.num_flanking_bases
            <= MAX_FLANKING_BASES && MIN_READ_DEPTH <= self.min_read_depth
            && MIN_HOMOPOLYMER_LENGTH <= self.min_homopolymer_length
            && self.min_homopolymer_length <= MAX_HOMOPOLYMER_LENGTH
            && self.min_het_frequency.in_unit_interval()
    }
}

/// Accepts the settings as they were read, if every one lies in its range.
pub fn get_args(args: CommandArgs) -> (r: Option<CommandArgs>)
    ensures
        r == if args.wf() {
            Some(args)
        } else {
            None
        },
{
    if args.is_valid() {
        Some(args)
    } else {
        None
    }
}

} // verus!

//! Nucleotide decoding and the errors of a scan.

use vstd::prelude::*;

verus! {

/// What makes a scan fail.
#[derive(Debug, Clone, Copy, PartialEq, Eq, Structural)]
pub enum BamParseError {
    /// A read or reference byte that is no nucleotide code; holds the byte.
    InvalidNtError(u8),
    /// A pileup column names a contig that the reference index does not hold.
    ReferenceLookupError,
    /// A pileup column lies at or beyond the end of its contig.
    ReferencePositionError,
}

impl BamParseError {
    /// What went wrong, in words.
    pub fn message(&self) -> (r: String)
        ensures
            r@ == match *self {
                BamParseError::InvalidNtError(_) => "Invalid nucleotide"@,
                BamParseError::ReferenceLookupError => "Contig not in reference"@,
                BamParseError::ReferencePositionError => "Position not in contig"@,
            },
    {
        match self {
            BamParseError::InvalidNtError(_) => "Invalid nucleotide".to_owned(),
            BamParseError::ReferenceLookupError => "Contig not in reference".to_owned(),
            BamParseError::ReferencePositionError => "Position not in contig".to_owned(),
        }
    }
}

/// ASCII `A`.
pub const UPPER_A: u8 = 65;

/// ASCII `C`.
pub const UPPER_C: u8 = 67;

/// ASCII `G`.
pub const UPPER_G: u8 = 71;

/// ASCII `N`.
pub const UPPER_N: u8 = 78;

/// ASCII `T`.
pub const UPPER_T: u8 = 84;

/// Distance from an upper-case ASCII letter to its lower-case form.
pub const CASE_OFFSET: u8 = 32;

/// The nucleotide letter that a byte stands for: `A`, `T`, `C` and `G` in
/// either case, and upper-case `N`. No other byte is a nucleotide code.
pub open spec fn decode(b: u8) -> Option<char> {
    if b == UPPER_A || b == UPPER_A + CASE_OFFSET {
        Some('A')
    } else if b == UPPER_T || b == UPPER_T + CASE_OFFSET {
        Some('T')
    } else if b == UPPER_C || b == UPPER_C + CASE_OFFSET {
        Some('C')
    } else if b == UPPER_G || b == UPPER_G + CASE_OFFSET {
        Some('G')
    } else if b == UPPER_N {
        Some('N')
    } else {
        None
    }
}

/// Whether a byte is a nucleotide code.
pub open spec fn is_nucleotide(b: u8) -> bool {
    decode(b).is_some()
}

/// The upper-case form of an ASCII letter; any other byte unchanged.
pub open spec fn to_upper(b: u8) -> u8 {
    if 97 <= b <= 122 {
        (b - CASE_OFFSET) as u8
    } else {
        b
    }
}

/// Decodes one byte into its nucleotide letter. Every nucleotide code
/// decodes; any other byte is handed back in the error.
pub fn u8_to_nt(x: &u8) -> (r: Result<char, BamParseError>)
    ensures
        r.is_ok() <==> is_nucleotide(*x),
        match r {
            Ok(nt) => decode(*x) == Some(nt),
            Err(e) => e == BamParseError::InvalidNtError(*x),
        },
{
    let b: u8 = *x;
    let nt: Option<char> = if b == UPPER_A || b == UPPER_A + CASE_OFFSET {
        Some('A')
    } else if b == UPPER_T || b == UPPER_T + CASE_OFFSET {
        Some('T')
    } else if b == UPPER_C || b == UPPER_C + CASE_OFFSET {
        Some('C')
    } else if b == UPPER_G || b == UPPER_G + CASE_OFFSET {
        Some('G')
    } else if b == UPPER_N {
        Some('N')
    } else {
        None
    };
    match nt {
        Some(nucleotide) => Ok(nucleotide),
        None => Err(BamParseError::InvalidNtError(*x)),
    }
}

/// Decoding does not look at the case of a nucleotide code: a code and its
/// upper-case form decode to the same letter, and that letter, read as a
/// byte, is the upper-case form.
pub proof fn lemma_decode_ignores_case(b: u8)
    requires
        is_nucleotide(b),
    ensures
        decode(to_upper(b)) == decode(b),
        decode(b).unwrap() as u8 == to_upper(b),
{
}

/// The nucleotide codes are exactly the nine bytes `A a T t C c G g N`.
pub proof fn lemma_nucleotide_codes(b: u8)
    ensures
        is_nucleotide(b) <==> (b == 65 || b == 97 || b == 84 || b == 116 || b == 67 || b == 99
            || b == 71 || b == 103 || b == 78),
{
}

} // verus!

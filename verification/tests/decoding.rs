use hetscan::utils::{u8_to_nt, BamParseError};

#[test]
fn upper_case_codes_decode_to_themselves() {
    assert_eq!(u8_to_nt(&b'A'), Ok('A'));
    assert_eq!(u8_to_nt(&b'T'), Ok('T'));
    assert_eq!(u8_to_nt(&b'C'), Ok('C'));
    assert_eq!(u8_to_nt(&b'G'), Ok('G'));
    assert_eq!(u8_to_nt(&b'N'), Ok('N'));
}

#[test]
fn lower_case_codes_decode_to_upper_case() {
    assert_eq!(u8_to_nt(&b'a'), Ok('A'));
    assert_eq!(u8_to_nt(&b't'), Ok('T'));
    assert_eq!(u8_to_nt(&b'c'), Ok('C'));
    assert_eq!(u8_to_nt(&b'g'), Ok('G'));
}

#[test]
fn lower_case_n_is_no_nucleotide() {
    assert_eq!(u8_to_nt(&b'n'), Err(BamParseError::InvalidNtError(b'n')));
}

#[test]
fn every_other_byte_comes_back_in_the_error() {
    let valid = b"AaTtCcGgN";
    let mut accepted = 0;
    for b in 0..=255u8 {
        match u8_to_nt(&b) {
            Ok(nt) => {
                assert!(valid.contains(&b));
                assert_eq!(nt, (b as char).to_ascii_uppercase());
                accepted += 1;
            }
            Err(e) => {
                assert!(!valid.contains(&b));
                assert_eq!(e, BamParseError::InvalidNtError(b));
            }
        }
    }
    assert_eq!(accepted, 9);
}

#[test]
fn gap_and_digit_are_no_nucleotides() {
    assert_eq!(u8_to_nt(&b'-'), Err(BamParseError::InvalidNtError(b'-')));
    assert_eq!(u8_to_nt(&b'0'), Err(BamParseError::InvalidNtError(b'0')));
    assert_eq!(u8_to_nt(&0), Err(BamParseError::InvalidNtError(0)));
}

#[test]
fn errors_say_what_went_wrong() {
    assert_eq!(BamParseError::InvalidNtError(b'x').message(), "Invalid nucleotide");
    assert_eq!(BamParseError::ReferenceLookupError.message(), "Contig not in reference");
    assert_eq!(BamParseError::ReferencePositionError.message(), "Position not in contig");
}

use hetscan::tally::{tally_column, NucleotideTally, Observation};
use hetscan::utils::BamParseError;

fn bases(text: &str) -> Vec<Observation> {
    text.bytes()
        .map(|b| if b == b'-' { Observation::Deletion } else { Observation::Base(b) })
        .collect()
}

#[test]
fn empty_column_has_every_category_at_zero() {
    let tally = tally_column(&vec![]).unwrap();
    assert_eq!(tally, NucleotideTally { a: 0, t: 0, c: 0, g: 0, n: 0, deletion: 0 });
    assert_eq!(tally, NucleotideTally::new());
    for letter in ['A', 'T', 'C', 'G', 'N', '-'] {
        assert_eq!(tally.count(letter), 0);
    }
}

#[test]
fn observations_are_counted_by_category() {
    let tally = tally_column(&bases("AaTtt-CGgg-N-A")).unwrap();
    assert_eq!(tally, NucleotideTally { a: 3, t: 3, c: 1, g: 3, n: 1, deletion: 3 });
}

#[test]
fn categories_add_up_to_the_observations() {
    let column = bases("ACGT-ACGT--NNaacc-t");
    let tally = tally_column(&column).unwrap();
    assert_eq!(tally.total(), column.len());
    assert_eq!(tally.total(), 19);
    let shown = column.iter().filter(|o| **o != Observation::Deletion).count();
    assert_eq!(tally.total_nt(), shown);
    assert_eq!(tally.total_nt(), 15);
    assert_eq!(tally.deletion + tally.total_nt(), tally.total());
}

#[test]
fn count_goes_by_letter() {
    let tally = tally_column(&bases("AAATTC-")).unwrap();
    assert_eq!(tally.count('A'), 3);
    assert_eq!(tally.count('T'), 2);
    assert_eq!(tally.count('C'), 1);
    assert_eq!(tally.count('G'), 0);
    assert_eq!(tally.count('N'), 0);
    assert_eq!(tally.count('-'), 1);
    assert_eq!(tally.count('a'), 0);
    assert_eq!(tally.count('X'), 0);
}

#[test]
fn first_invalid_base_ends_the_count() {
    let r = tally_column(&bases("ACGXTZ"));
    assert_eq!(r, Err(BamParseError::InvalidNtError(b'X')));
    let r = tally_column(&bases("n"));
    assert_eq!(r, Err(BamParseError::InvalidNtError(b'n')));
}

#[test]
fn deletions_before_an_invalid_base_do_not_hide_it() {
    let r = tally_column(&bases("--A-*C"));
    assert_eq!(r, Err(BamParseError::InvalidNtError(b'*')));
}

#[test]
fn column_of_deletions_shows_no_nucleotide() {
    let tally = tally_column(&bases("-----")).unwrap();
    assert_eq!(tally.deletion, 5);
    assert_eq!(tally.total_nt(), 0);
    assert_eq!(tally.total(), 5);
}

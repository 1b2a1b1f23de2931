use hetscan::homopolymer::{find_homopolymers, homopolymer_at, HomopolymerRun};

fn run(start: usize, end: usize, nt: u8) -> HomopolymerRun {
    HomopolymerRun { start, end, nt }
}

#[test]
fn whole_sequence_is_one_run() {
    let runs = find_homopolymers(&b"AAAA".to_vec(), 4);
    assert_eq!(runs, vec![run(0, 4, b'A')]);
    assert_eq!(runs[0].nt as char, 'A');
}

#[test]
fn short_runs_are_left_out() {
    let seq = b"AGTTTTACGGGGGGCACCCCCCCCCCCCCCCC".to_vec();
    let runs = find_homopolymers(&seq, 5);
    assert_eq!(runs, vec![run(8, 14, b'G'), run(16, 32, b'C')]);
}

#[test]
fn run_of_exactly_the_minimum_is_kept() {
    let seq = b"AGTTTTACGGGGGGCACCCCCCCCCCCCCCCC".to_vec();
    let runs = find_homopolymers(&seq, 4);
    assert_eq!(runs, vec![run(2, 6, b'T'), run(8, 14, b'G'), run(16, 32, b'C')]);
}

#[test]
fn sequence_shorter_than_minimum_has_no_runs() {
    assert_eq!(find_homopolymers(&b"AAAA".to_vec(), 5), vec![]);
    assert_eq!(find_homopolymers(&b"".to_vec(), 5), vec![]);
    assert_eq!(find_homopolymers(&b"".to_vec(), 0), vec![]);
}

#[test]
fn scanning_twice_gives_the_same_runs() {
    let seq = b"TTTTTACGTAAAAAAGGGGGCCCCC".to_vec();
    let first = find_homopolymers(&seq, 5);
    let second = find_homopolymers(&seq, 5);
    assert_eq!(first, second);
    assert_eq!(
        first,
        vec![run(0, 5, b'T'), run(9, 15, b'A'), run(15, 20, b'G'), run(20, 25, b'C')]
    );
}

#[test]
fn runs_are_sorted_maximal_and_apart() {
    let seq = b"AAAAACCCCCAAAAATGGGGGGG".to_vec();
    let runs = find_homopolymers(&seq, 5);
    assert_eq!(runs.len(), 4);
    for pair in runs.windows(2) {
        assert!(pair[0].start < pair[1].start);
        assert!(pair[0].end <= pair[1].start);
    }
    for r in &runs {
        assert!(r.end - r.start >= 5);
        assert!(seq[r.start..r.end].iter().all(|b| *b == r.nt));
        assert!(r.start == 0 || seq[r.start - 1] != r.nt);
        assert!(r.end == seq.len() || seq[r.end] != r.nt);
    }
}

#[test]
fn runs_go_by_bytes_not_by_letters() {
    let runs = find_homopolymers(&b"AAAaaa".to_vec(), 3);
    assert_eq!(runs, vec![run(0, 3, b'A'), run(3, 6, b'a')]);
    assert_eq!(find_homopolymers(&b"AAAaaa".to_vec(), 4), vec![]);
}

#[test]
fn minimum_of_one_lists_every_run() {
    let runs = find_homopolymers(&b"ACCG".to_vec(), 1);
    assert_eq!(runs, vec![run(0, 1, b'A'), run(1, 3, b'C'), run(3, 4, b'G')]);
    assert_eq!(find_homopolymers(&b"ACCG".to_vec(), 0), runs);
}

#[test]
fn run_at_the_end_of_the_sequence_is_found() {
    let runs = find_homopolymers(&b"ACGTTTTT".to_vec(), 5);
    assert_eq!(runs, vec![run(3, 8, b'T')]);
}

#[test]
fn position_is_found_in_its_run() {
    let seq = b"AGTTTTACGGGGGGCACCCCCCCCCCCCCCCC".to_vec();
    let runs = find_homopolymers(&seq, 5);
    assert_eq!(homopolymer_at(&runs, 7), None);
    assert_eq!(homopolymer_at(&runs, 8), Some(run(8, 14, b'G')));
    assert_eq!(homopolymer_at(&runs, 13), Some(run(8, 14, b'G')));
    assert_eq!(homopolymer_at(&runs, 14), None);
    assert_eq!(homopolymer_at(&runs, 31), Some(run(16, 32, b'C')));
    assert_eq!(homopolymer_at(&runs, 32), None);
    assert_eq!(homopolymer_at(&runs, 3), None);
}

#[test]
fn run_holds_its_start_and_not_its_end() {
    let r = run(8, 14, b'G');
    assert!(r.contains(8));
    assert!(r.contains(13));
    assert!(!r.contains(14));
    assert!(!r.contains(7));
}

//! Counting what the reads of one pileup column show: a count for each of
//! the nucleotides `A`, `T`, `C`, `G`, `N`, and one for deletions.

use crate::utils::{decode, u8_to_nt, BamParseError};
use vstd::prelude::*;

verus! {

/// What one read shows at a reference position.
#[derive(Debug, Clone, Copy, PartialEq, Eq, Structural)]
pub enum Observation {
    /// The read has a deletion or skips the reference here.
    Deletion,
    /// The read has a base here, given as its raw byte.
    Base(u8),
}

/// The letter under which deletions are counted.
pub const DELETION: char = '-';

/// The category under which an observation is counted: `-` for a deletion,
/// the decoded letter for a base, none for a byte that is no nucleotide code.
pub open spec fn category(o: Observation) -> Option<char> {
    match o {
        Observation::Deletion => Some(DELETION),
        Observation::Base(b) => decode(b),
    }
}

/// How many of `obs` fall under the category `letter`.
pub open spec fn count_category(obs: Seq<Observation>, letter: char) -> nat
    decreases obs.len(),
{
    if obs.len() == 0 {
        0
    } else {
        count_category(obs.drop_last(), letter) + if category(obs.last()) == Some(letter) {
            1nat
        } else {
            0nat
        }
    }
}

/// How many of `obs` are bases, whatever their byte.
pub open spec fn count_bases(obs: Seq<Observation>) -> nat
    decreases obs.len(),
{
    if obs.len() == 0 {
        0
    } else {
        count_bases(obs.drop_last()) + if obs.last() is Base {
            1nat
        } else {
            0nat
        }
    }
}

/// Every base among `obs` is a nucleotide code.
pub open spec fn all_valid(obs: Seq<Observation>) -> bool {
    forall|i: int| 0 <= i < obs.len() ==> category(#[trigger] obs[i]).is_some()
}

/// `i` is the position of the first observation of `obs` that is no
/// nucleotide code.
pub open spec fn is_first_invalid(obs: Seq<Observation>, i: int) -> bool {
    &&& 0 <= i < obs.len()
    &&& category(obs[i]).is_none()
    &&& forall|j: int| 0 <= j < i ==> category(#[trigger] obs[j]).is_some()
}

/// The first byte among `obs` that is no nucleotide code, where there is one.
pub open spec fn first_invalid_byte(obs: Seq<Observation>) -> u8 {
    let i = choose|i: int| is_first_invalid(obs, i);
    obs[i]->Base_0
}

/// Counts per category for one pileup column.
#[derive(Debug, Clone, Copy, PartialEq, Eq, Structural)]
pub struct NucleotideTally {
    /// Reads that show `A`.
    pub a: usize,
    /// Reads that show `T`.
    pub t: usize,
    /// Reads that show `C`.
    pub c: usize,
    /// Reads that show `G`.
    pub g: usize,
    /// Reads that show `N`.
    pub n: usize,
    /// Reads with a deletion or a reference skip.
    pub deletion: usize,
}

impl NucleotideTally {
    /// The count under the category `letter`; zero for a letter that is no
    /// category.
    pub open spec fn spec_count(self, letter: char) -> nat {
        if letter == 'A' {
            self.a as nat
        } else if letter == 'T' {
            self.t as nat
        } else if letter == 'C' {
            self.c as nat
        } else if letter == 'G' {
            self.g as nat
        } else if letter == 'N' {
            self.n as nat
        } else if letter == DELETION {
            self.deletion as nat
        } else {
            0
        }
    }

    /// Number of reads that show a nucleotide: all categories but deletions.
    pub open spec fn spec_total_nt(self) -> int {
        self.a + self.t + self.c + self.g + self.n
    }

    /// Number of reads counted, deletions included.
    pub open spec fn spec_total(self) -> int {
        self.spec_total_nt() + self.deletion
    }

    /// The number of reads counted fits the machine's word.
    pub open spec fn wf(self) -> bool {
        self.spec_total() <= usize::MAX
    }

    /// The tally holds, for every category, how many of `obs` fall under it.
    pub open spec fn tallies(self, obs: Seq<Observation>) -> bool {
        forall|letter: char| self.spec_count(letter) == #[trigger] count_category(obs, letter)
    }

    /// The tally of no reads: every category present, each at zero.
    pub fn new() -> (r: NucleotideTally)
        ensures
            r == (NucleotideTally { a: 0, t: 0, c: 0, g: 0, n: 0, deletion: 0 }),
            r.wf(),
    {
        NucleotideTally { a: 0, t: 0, c: 0, g: 0, n: 0, deletion: 0 }
    }

    /// The count under the category `letter`.
    pub fn count(&self, letter: char) -> (r: usize)
        ensures
            r == self.spec_count(letter),
    {
        if letter == 'A' {
            self.a
        } else if letter == 'T' {
            self.t
        } else if letter == 'C' {
            self.c
        } else if letter == 'G' {
            self.g
        } else if letter == 'N' {
            self.n
        } else if letter == DELETION {
            self.deletion
        } else {
            0
        }
    }

    /// Number of reads that show a nucleotide.
    pub fn total_nt(&self) -> (r: usize)
        requires
            self.wf(),
        ensures
            r == self.spec_total_nt(),
    {
        self.a + self.t + self.c + self.g + self.n
    }

    /// Number of reads counted, deletions included.
    pub fn total(&self) -> (r: usize)
        requires
            self.wf(),
        ensures
            r == self.spec_total(),
    {
        self.a + self.t + self.c + self.g + self.n + self.deletion
    }
}

/// The tally of `obs`: under each category the number of observations that
/// fall under it.
pub open spec fn tally_of(obs: Seq<Observation>) -> NucleotideTally {
    NucleotideTally {
        a: count_category(obs, 'A') as usize,
        t: count_category(obs, 'T') as usize,
        c: count_category(obs, 'C') as usize,
        g: count_category(obs, 'G') as usize,
        n: count_category(obs, 'N') as usize,
        deletion: count_category(obs, DELETION) as usize,
    }
}

/// Counts the observations of one pileup column by category. A byte that is
/// no nucleotide code ends the count: the first such byte comes back in the
/// error.
pub fn tally_column(observations: &Vec<Observation>) -> (r: Result<
    NucleotideTally,
    BamParseError,
>)
    ensures
        r.is_ok() <==> all_valid(observations@),
        match r {
            Ok(tally) => {
                &&& tally == tally_of(observations@)
                &&& tally.tallies(observations@)
                &&& tally.spec_total() == observations@.len()
                &&& tally.spec_total_nt() == count_bases(observations@)
                &&& tally.wf()
            },
            Err(e) => e == BamParseError::InvalidNtError(first_invalid_byte(observations@)),
        },
{
    let mut tally = NucleotideTally::new();
    let mut i: usize = 0;
    while i < observations.len()
        invariant
            i <= observations@.len(),
            all_valid(observations@.take(i as int)),
            tally.tallies(observations@.take(i as int)),
            tally.spec_total() == i,
            tally.spec_total_nt() == count_bases(observations@.take(i as int)),
        decreases observations@.len() - i,
    {
        let ghost seen = observations@.take(i as int);
        let ghost next = observations@.take(i + 1);
        assert(next.drop_last() =~= seen);
        assert(next.last() == observations@[i as int]);
        let ghost before = tally;
        match observations[i] {
            Observation::Deletion => {
                tally.deletion = tally.deletion + 1;
            },
            Observation::Base(b) => {
                match u8_to_nt(&b) {
                    Ok(nt) => {
                        if nt == 'A' {
                            tally.a = tally.a + 1;
                        } else if nt == 'T' {
                            tally.t = tally.t + 1;
                        } else if nt == 'C' {
                            tally.c = tally.c + 1;
                        } else if nt == 'G' {
                            tally.g = tally.g + 1;
                        } else {
                            tally.n = tally.n + 1;
                        }
                    },
                    Err(e) => {
                        proof {
                            assert(is_first_invalid(observations@, i as int)) by {
                                assert forall|j: int| 0 <= j < i implies category(
                                    #[trigger] observations@[j],
                                ).is_some() by {
                                    assert(seen[j] == observations@[j]);
                                }
                            }
                            lemma_first_invalid_unique(observations@, i as int);
                        }
                        return Err(e);
                    },
                }
            },
        }
        proof {
            assert forall|j: int| 0 <= j < next.len() implies
                category(#[trigger] next[j]).is_some() by {
                if j < i {
                    assert(seen[j] == next[j]);
                }
            }
            assert forall|letter: char|
                tally.spec_count(letter) == #[trigger] count_category(next, letter) by {
                assert(before.spec_count(letter) == count_category(seen, letter));
            }
        }
        i = i + 1;
    }
    assert(observations@.take(i as int) =~= observations@);
    Ok(tally)
}

/// At most one position is the first invalid one.
pub proof fn lemma_first_invalid_unique(obs: Seq<Observation>, i: int)
    requires
        is_first_invalid(obs, i),
    ensures
        !all_valid(obs),
        (choose|k: int| is_first_invalid(obs, k)) == i,
        first_invalid_byte(obs) == obs[i]->Base_0,
        obs[i] == Observation::Base(first_invalid_byte(obs)),
{
    let k = choose|k: int| is_first_invalid(obs, k);
    assert(is_first_invalid(obs, k));
    if k < i {
        assert(category(obs[k]).is_some());
    }
    if i < k {
        assert(category(obs[i]).is_some());
    }
}

/// The categories part the observations: where every base is a nucleotide
/// code, the six counts add up to the number of observations, and the five
/// nucleotide counts to the number of bases.
pub proof fn lemma_counts_partition(obs: Seq<Observation>)
    requires
        all_valid(obs),
    ensures
        count_category(obs, 'A') + count_category(obs, 'T') + count_category(obs, 'C')
            + count_category(obs, 'G') + count_category(obs, 'N') == count_bases(obs),
        count_bases(obs) + count_category(obs, DELETION) == obs.len(),
    decreases obs.len(),
{
    if obs.len() > 0 {
        let front = obs.drop_last();
        assert forall|i: int| 0 <= i < front.len() implies
            category(#[trigger] front[i]).is_some() by {
            assert(front[i] == obs[i]);
        }
        lemma_counts_partition(front);
        assert(category(obs.last()).is_some());
    }
}

/// A letter that is none of the six categories counts nothing.
pub proof fn lemma_only_six_categories(obs: Seq<Observation>, letter: char)
    requires
        letter != 'A',
        letter != 'T',
        letter != 'C',
        letter != 'G',
        letter != 'N',
        letter != DELETION,
    ensures
        count_category(obs, letter) == 0,
    decreases obs.len(),
{
    if obs.len() > 0 {
        lemma_only_six_categories(obs.drop_last(), letter);
    }
}

} // verus!

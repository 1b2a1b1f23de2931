//! Homopolymer runs of a reference sequence: maximal stretches of one
//! repeated byte that are at least a configured number of bases long.

use vstd::prelude::*;

verus! {

/// A stretch `[start, end)` of a sequence that repeats the byte `nt`.
#[derive(Debug, Clone, Copy, PartialEq, Eq, Structural)]
pub struct HomopolymerRun {
    /// First position of the run.
    pub start: usize,
    /// Position after the last one of the run.
    pub end: usize,
    /// The repeated byte.
    pub nt: u8,
}

impl HomopolymerRun {
    /// Whether the run holds position `pos`.
    pub open spec fn covers(self, pos: int) -> bool {
        self.start <= pos < self.end
    }

    /// Whether the run holds position `pos`.
    pub fn contains(&self, pos: usize) -> (r: bool)
        ensures
            r == self.covers(pos as int),
    {
        self.start <= pos && pos < self.end
    }

    /// Number of bases in the run.
    pub open spec fn spec_len(self) -> int {
        self.end - self.start
    }
}

/// `[a, b)` is a non-empty stretch of `s` in which every byte is the same.
pub open spec fn is_uniform(s: Seq<u8>, a: int, b: int) -> bool {
    &&& 0 <= a < b <= s.len()
    &&& forall|i: int| a <= i < b ==> s[i] == s[a]
}

/// `[a, b)` is a uniform stretch of `s` that can be extended on neither side.
pub open spec fn is_maximal_run(s: Seq<u8>, a: int, b: int) -> bool {
    &&& is_uniform(s, a, b)
    &&& (a == 0 || s[a - 1] != s[a])
    &&& (b == s.len() || s[b] != s[a])
}

/// `run` is a maximal run of `s` of at least `min_len` bases, labelled with
/// the byte it repeats.
pub open spec fn is_homopolymer(s: Seq<u8>, min_len: int, run: HomopolymerRun) -> bool {
    &&& is_maximal_run(s, run.start as int, run.end as int)
    &&& run.spec_len() >= min_len
    &&& run.nt == s[run.start as int]
}

/// `runs` lists the homopolymers of `s`: every entry is one, they come in
/// position order without overlap, and none of `s` is missing.
pub open spec fn is_homopolymer_index(s: Seq<u8>, min_len: int, runs: Seq<HomopolymerRun>) -> bool {
    &&& forall|i: int| 0 <= i < runs.len() ==> is_homopolymer(s, min_len, #[trigger] runs[i])
    &&& forall|i: int, j: int|
        0 <= i < j < runs.len() ==> (#[trigger] runs[i]).end <= (#[trigger] runs[j]).start
    &&& forall|a: int, b: int|
        #[trigger] is_maximal_run(s, a, b) && b - a >= min_len ==> has_run(runs, a, b)
}

/// Some entry of `runs` spans exactly `[a, b)`.
pub open spec fn has_run(runs: Seq<HomopolymerRun>, a: int, b: int) -> bool {
    exists|i: int| 0 <= i < runs.len() && (#[trigger] runs[i]).start == a && runs[i].end == b
}

/// Scans `seq` once from left to right and returns its homopolymers of at
/// least `min_len` bases, in position order.
pub fn find_homopolymers(seq: &Vec<u8>, min_len: usize) -> (runs: Vec<HomopolymerRun>)
    ensures
        is_homopolymer_index(seq@, min_len as int, runs@),
        forall|i: int| 0 <= i < runs@.len() ==> (#[trigger] runs@[i]).spec_len() >= min_len,
        forall|i: int, j: int|
            0 <= i < j < runs@.len() ==> (#[trigger] runs@[i]).start < (#[trigger] runs@[j]).start,
        seq@.len() < min_len ==> runs@.len() == 0,
{
    let n: usize = seq.len();
    let mut runs: Vec<HomopolymerRun> = Vec::new();
    let mut start: usize = 0;
    while start < n
        invariant
            n == seq@.len(),
            start <= n,
            0 < start < n ==> seq@[start - 1] != seq@[start as int],
            forall|i: int|
                0 <= i < runs@.len() ==> is_homopolymer(seq@, min_len as int, #[trigger] runs@[i]),
            forall|i: int| 0 <= i < runs@.len() ==> (#[trigger] runs@[i]).end <= start,
            forall|i: int, j: int|
                0 <= i < j < runs@.len() ==> (#[trigger] runs@[i]).end
                    <= (#[trigger] runs@[j]).start,
            forall|a: int, b: int|
                #[trigger] is_maximal_run(seq@, a, b) && b - a >= min_len && b <= start ==> has_run(
                    runs@,
                    a,
                    b,
                ),
        decreases n - start,
    {
        let nt: u8 = seq[start];
        let mut end: usize = start + 1;
        while end < n && seq[end] == nt
            invariant
                n == seq@.len(),
                start < end <= n,
                nt == seq@[start as int],
                forall|i: int| start <= i < end ==> seq@[i] == nt,
            decreases n - end,
        {
            end = end + 1;
        }
        let ghost before = runs@;
        if end - start >= min_len {
            runs.push(HomopolymerRun { start, end, nt });
        }
        proof {
            let s = seq@;
            assert(is_maximal_run(s, start as int, end as int));
            assert forall|a: int, b: int|
                #[trigger] is_maximal_run(s, a, b) && b - a >= min_len && b <= end implies has_run(
                runs@,
                a,
                b,
            ) by {
                if b <= start {
                    let i = choose|i: int|
                        0 <= i < before.len() && (#[trigger] before[i]).start == a && before[i].end
                            == b;
                    assert(runs@[i] == before[i]);
                } else {
                    lemma_runs_do_not_cross(s, a, b, start as int);
                    lemma_run_fixed_by_start(s, a, b, end as int);
                    let last = runs@.len() - 1;
                    assert(runs@[last].start == a && runs@[last].end == b);
                }
            }
        }
        start = end;
    }
    proof {
        if seq@.len() < min_len && runs@.len() > 0 {
            assert(is_homopolymer(seq@, min_len as int, runs@[0]));
        }
        assert forall|i: int, j: int| 0 <= i < j < runs@.len() implies
            (#[trigger] runs@[i]).start < (#[trigger] runs@[j]).start by {
            assert(is_homopolymer(seq@, min_len as int, runs@[i]));
        }
    }
    runs
}

/// A maximal run does not reach across a position where the byte changes.
proof fn lemma_runs_do_not_cross(s: Seq<u8>, a: int, b: int, cut: int)
    requires
        is_maximal_run(s, a, b),
        0 <= cut < s.len(),
        cut == 0 || s[cut - 1] != s[cut],
        cut < b,
    ensures
        cut <= a,
{
    if a < cut {
        assert(s[cut - 1] == s[a]);
        assert(s[cut] == s[a]);
    }
}

/// Two maximal runs that start at the same position end at the same one.
proof fn lemma_run_fixed_by_start(s: Seq<u8>, a: int, b: int, c: int)
    requires
        is_maximal_run(s, a, b),
        is_maximal_run(s, a, c),
    ensures
        b == c,
{
    if b < c {
        assert(s[b] == s[a]);
    }
    if c < b {
        assert(s[c] == s[a]);
    }
}

/// The run of `runs` that holds position `pos`: the first one, if several do.
pub fn homopolymer_at(runs: &Vec<HomopolymerRun>, pos: usize) -> (r: Option<HomopolymerRun>)
    ensures
        match r {
            Some(run) => exists|i: int|
                0 <= i < runs@.len() && #[trigger] runs@[i] == run && run.covers(pos as int)
                    && forall|j: int| 0 <= j < i ==> !(#[trigger] runs@[j]).covers(pos as int),
            None => forall|i: int|
                0 <= i < runs@.len() ==> !(#[trigger] runs@[i]).covers(pos as int),
        },
{
    let mut i: usize = 0;
    while i < runs.len()
        invariant
            i <= runs@.len(),
            forall|j: int| 0 <= j < i ==> !(#[trigger] runs@[j]).covers(pos as int),
        decreases runs@.len() - i,
    {
        let run: HomopolymerRun = runs[i];
        if run.contains(pos) {
            return Some(run);
        }
        i = i + 1;
    }
    None
}

/// A sequence has one list of homopolymers only: two lists that both meet
/// `is_homopolymer_index` for the same sequence and minimum length are equal.
/// So scanning a sequence again gives the same runs.
pub proof fn lemma_homopolymer_index_unique(
    s: Seq<u8>,
    min_len: int,
    r1: Seq<HomopolymerRun>,
    r2: Seq<HomopolymerRun>,
)
    requires
        is_homopolymer_index(s, min_len, r1),
        is_homopolymer_index(s, min_len, r2),
    ensures
        r1 == r2,
{
    assert forall|i: int| 0 <= i < r1.len() implies i < r2.len() && r2[i] == r1[i] by {
        lemma_index_agrees(s, min_len, r1, r2, i);
    }
    assert forall|i: int| 0 <= i < r2.len() implies i < r1.len() && r1[i] == r2[i] by {
        lemma_index_agrees(s, min_len, r2, r1, i);
    }
    if r1.len() > 0 {
        lemma_index_agrees(s, min_len, r1, r2, r1.len() - 1);
    }
    if r2.len() > 0 {
        lemma_index_agrees(s, min_len, r2, r1, r2.len() - 1);
    }
    assert(r1 =~= r2);
}

/// Two lists of the homopolymers of one sequence hold the same run at every
/// position of the first list.
proof fn lemma_index_agrees(
    s: Seq<u8>,
    min_len: int,
    r1: Seq<HomopolymerRun>,
    r2: Seq<HomopolymerRun>,
    i: int,
)
    requires
        is_homopolymer_index(s, min_len, r1),
        is_homopolymer_index(s, min_len, r2),
        0 <= i < r1.len(),
    ensures
        i < r2.len(),
        r2[i] == r1[i],
    decreases i,
{
    let run = r1[i];
    assert(is_homopolymer(s, min_len, run));
    assert(is_maximal_run(s, run.start as int, run.end as int));
    assert(has_run(r2, run.start as int, run.end as int));
    let j = choose|j: int|
        0 <= j < r2.len() && (#[trigger] r2[j]).start == run.start && r2[j].end == run.end;
    assert(is_homopolymer(s, min_len, r2[j]));
    assert(r2[j] == run);
    if j < i {
        lemma_index_agrees(s, min_len, r1, r2, j);
        assert(r1[j].end <= r1[i].start);
    } else if j > i {
        let other = r2[i];
        assert(is_homopolymer(s, min_len, other));
        assert(is_maximal_run(s, other.start as int, other.end as int));
        assert(has_run(r1, other.start as int, other.end as int));
        let k = choose|k: int|
            0 <= k < r1.len() && (#[trigger] r1[k]).start == other.start && r1[k].end == other.end;
        assert(r2[i].end <= r2[j].start);
        if k < i {
            lemma_index_agrees(s, min_len, r1, r2, k);
            assert(r2[k].end <= r2[i].start);
        } else if k > i {
            assert(r1[i].end <= r1[k].start);
        }
    }
}

/// The listed homopolymers never overlap, so at most one of them holds a
/// given position.
pub proof fn lemma_one_run_per_position(
    s: Seq<u8>,
    min_len: int,
    runs: Seq<HomopolymerRun>,
    i: int,
    j: int,
    pos: int,
)
    requires
        is_homopolymer_index(s, min_len, runs),
        0 <= i < runs.len(),
        0 <= j < runs.len(),
        runs[i].covers(pos),
        runs[j].covers(pos),
    ensures
        i == j,
{
    if i < j {
        assert(runs[i].end <= runs[j].start);
    }
    if j < i {
        assert(runs[j].end <= runs[i].start);
    }
}

} // verus!

//! The reference index: every contig's sequence with the homopolymers found
//! in it, looked up by contig name.

use crate::homopolymer::{
    find_homopolymers, homopolymer_at, is_homopolymer, is_homopolymer_index, is_maximal_run,
    HomopolymerRun,
};
use crate::utils::BamParseError;
use vstd::prelude::*;

verus! {

/// One reference sequence.
#[derive(Debug, Clone)]
pub struct Fasta {
    /// Number of bases.
    pub length: usize,
    /// The bases, one byte each.
    pub seq: Vec<u8>,
}

impl Fasta {
    /// The stated length is that of the sequence.
    pub open spec fn wf(&self) -> bool {
        self.length == self.seq@.len()
    }

    /// The sequence `seq` with its length.
    pub fn new(seq: Vec<u8>) -> (r: Fasta)
        ensures
            r.seq == seq,
            r.wf(),
    {
        Fasta { length: seq.len(), seq }
    }
}

/// One contig of the index: its name, its sequence, and the homopolymers of
/// that sequence.
#[derive(Debug)]
pub struct Contig {
    /// The name under which the contig is found.
    pub name: String,
    /// The sequence.
    pub fasta: Fasta,
    /// The homopolymers of the sequence, in position order.
    pub homopolymers: Vec<HomopolymerRun>,
}

/// What the reference shows around one position.
#[derive(Debug)]
pub struct Context {
    /// The reference byte at the position.
    pub reference: u8,
    /// The reference bytes of the window around the position.
    pub nt_context: Vec<u8>,
    /// The homopolymer that holds the position, if one does.
    pub homopolymer: Option<HomopolymerRun>,
}

/// First position of the context window: `flank` bases before `pos`, or the
/// start of the contig where fewer lie before it.
pub open spec fn window_start(pos: int, flank: int) -> int {
    if pos >= flank {
        pos - flank
    } else {
        0
    }
}

/// Position after the last one of the context window: `flank` bases after
/// `pos`, or the end of the contig where fewer lie after it.
pub open spec fn window_end(pos: int, flank: int, contig_length: int) -> int {
    if pos + 1 + flank <= contig_length {
        pos + 1 + flank
    } else {
        contig_length
    }
}

/// The context window `[start, end)` of position `pos` in a contig of
/// `contig_length` bases, with up to `flank` bases on each side. For a
/// position beyond the contig it is what the flank still reaches of it,
/// which may be nothing.
pub open spec fn window_of(pos: int, flank: int, contig_length: int) -> (int, int) {
    let end = window_end(pos, flank, contig_length);
    if window_start(pos, flank) <= end {
        (window_start(pos, flank), end)
    } else {
        (end, end)
    }
}

/// The context window `[start, end)` of position `pos` in a contig of
/// `contig_length` bases, with up to `flank` bases on each side. It never
/// leaves the contig: it starts at the contig's start for its first
/// position, and ends at the contig's end for its last.
pub fn context_window(pos: usize, flank: usize, contig_length: usize) -> (w: (usize, usize))
    ensures
        (w.0 as int, w.1 as int) == window_of(pos as int, flank as int, contig_length as int),
        0 <= w.0 <= w.1 <= contig_length,
        pos < contig_length ==> w.0 == window_start(pos as int, flank as int) && w.0 <= pos < w.1,
        w.1 - w.0 <= 2 * flank + 1,
        pos == 0 ==> w.0 == 0,
        pos + 1 == contig_length ==> w.1 == contig_length,
{
    let end: usize = if pos < contig_length && flank < contig_length - pos {
        pos + 1 + flank
    } else {
        contig_length
    };
    let start: usize = if pos >= flank {
        pos - flank
    } else {
        0
    };
    if start <= end {
        (start, end)
    } else {
        (end, end)
    }
}

/// The bytes of `seq` in the context window of `pos`.
pub open spec fn context_of(seq: Seq<u8>, pos: int, flank: int) -> Seq<u8> {
    seq.subrange(window_start(pos, flank), window_end(pos, flank, seq.len() as int))
}

/// The context window of a position of the contig never leaves the contig:
/// it holds the position and at most `flank` bases on each side of it, it
/// starts at the contig's start where the position is the first, and it
/// ends at the contig's end where the position is the last.
pub proof fn lemma_window_in_contig(pos: int, flank: int, contig_length: int)
    requires
        0 <= pos < contig_length,
        0 <= flank,
    ensures
        window_of(pos, flank, contig_length) == (
            window_start(pos, flank),
            window_end(pos, flank, contig_length),
        ),
        0 <= window_start(pos, flank) <= pos < window_end(pos, flank, contig_length)
            <= contig_length,
        pos - window_start(pos, flank) <= flank,
        window_end(pos, flank, contig_length) - (pos + 1) <= flank,
        pos == 0 ==> window_start(pos, flank) == 0,
        pos == contig_length - 1 ==> window_end(pos, flank, contig_length) == contig_length,
        flank <= pos && pos + flank < contig_length ==> window_end(pos, flank, contig_length)
            - window_start(pos, flank) == 2 * flank + 1,
{
}

/// What holds of the homopolymer reported for position `pos` of `seq`: it is
/// a homopolymer of `seq` that holds `pos`, or no homopolymer of `seq` does.
pub open spec fn is_homopolymer_at(
    seq: Seq<u8>,
    min_len: int,
    pos: int,
    found: Option<HomopolymerRun>,
) -> bool {
    match found {
        Some(run) => is_homopolymer(seq, min_len, run) && run.covers(pos),
        None => forall|a: int, b: int|
            #[trigger] is_maximal_run(seq, a, b) && b - a >= min_len ==> !(a <= pos < b),
    }
}

/// The reference index: contig sequences by name, each with its
/// homopolymers of at least `min_run_length()` bases.
#[derive(Debug)]
pub struct ReferenceIndex {
    contigs: Vec<Contig>,
    min_run_length: usize,
}

impl View for ReferenceIndex {
    type V = Map<Seq<char>, Seq<u8>>;

    /// The sequence of each contig, by the contig's name.
    closed spec fn view(&self) -> Map<Seq<char>, Seq<u8>> {
        Map::new(
            |name: Seq<char>| self.holds(name),
            |name: Seq<char>| self.contigs@[self.position(name)].fasta.seq@,
        )
    }
}

impl ReferenceIndex {
    #[verifier::type_invariant]
    spec fn inv(&self) -> bool {
        &&& forall|i: int, j: int|
            0 <= i < j < self.contigs@.len() ==> (#[trigger] self.contigs@[i]).name@
                != (#[trigger] self.contigs@[j]).name@
        &&& forall|i: int|
            0 <= i < self.contigs@.len() ==> {
                &&& (#[trigger] self.contigs@[i]).fasta.wf()
                &&& is_homopolymer_index(
                    self.contigs@[i].fasta.seq@,
                    self.min_run_length as int,
                    self.contigs@[i].homopolymers@,
                )
            }
    }

    spec fn holds(&self, name: Seq<char>) -> bool {
        exists|i: int| 0 <= i < self.contigs@.len() && (#[trigger] self.contigs@[i]).name@ == name
    }

    spec fn position(&self, name: Seq<char>) -> int {
        choose|i: int| 0 <= i < self.contigs@.len() && (#[trigger] self.contigs@[i]).name@ == name
    }

    /// The length below which a run of one base is no homopolymer.
    pub closed spec fn min_run_length(&self) -> usize {
        self.min_run_length
    }

    proof fn lemma_position(&self, i: int)
        requires
            self.inv(),
            0 <= i < self.contigs@.len(),
        ensures
            self.holds(self.contigs@[i].name@),
            self.position(self.contigs@[i].name@) == i,
            self@.contains_key(self.contigs@[i].name@),
            self@[self.contigs@[i].name@] == self.contigs@[i].fasta.seq@,
    {
        let name = self.contigs@[i].name@;
        let k = self.position(name);
        assert(self.contigs@[k].name@ == name);
        if k < i {
            assert(self.contigs@[k].name@ != self.contigs@[i].name@);
        }
        if i < k {
            assert(self.contigs@[i].name@ != self.contigs@[k].name@);
        }
    }

    /// An index without contigs.
    pub fn new(min_run_length: usize) -> (r: ReferenceIndex)
        ensures
            r@ == Map::<Seq<char>, Seq<u8>>::empty(),
            r.min_run_length() == min_run_length,
    {
        let r = ReferenceIndex { contigs: Vec::new(), min_run_length };
        assert(r@ =~= Map::<Seq<char>, Seq<u8>>::empty());
        r
    }

    /// The length below which a run of one base is no homopolymer.
    pub fn min_homopolymer_length(&self) -> (r: usize)
        ensures
            r == self.min_run_length(),
    {
        self.min_run_length
    }

    fn find(&self, name: &String) -> (r: Option<usize>)
        ensures
            match r {
                Some(i) => i < self.contigs@.len() && self.contigs@[i as int].name@ == name@,
                None => !self.holds(name@),
            },
    {
        let mut i: usize = 0;
        while i < self.contigs.len()
            invariant
                i <= self.contigs@.len(),
                forall|j: int| 0 <= j < i ==> (#[trigger] self.contigs@[j]).name@ != name@,
            decreases self.contigs@.len() - i,
        {
            if self.contigs[i].name == *name {
                return Some(i);
            }
            i = i + 1;
        }
        None
    }

    /// The index with the contig `name` of sequence `seq` put into it, in
    /// place of the contig of that name if there is one, and with the
    /// homopolymers of `seq` found.
    pub fn with_contig(self, name: String, seq: Vec<u8>) -> (r: ReferenceIndex)
        ensures
            r@ == self@.insert(name@, seq@),
            r.min_run_length() == self.min_run_length(),
    {
        proof {
            use_type_invariant(&self);
        }
        let homopolymers = find_homopolymers(&seq, self.min_run_length);
        let found = self.find(&name);
        let ghost name_view = name@;
        let ghost seq_view = seq@;
        let contig = Contig { name, fasta: Fasta::new(seq), homopolymers };
        let ghost before = self;
        let ReferenceIndex { contigs, min_run_length } = self;
        let mut contigs = contigs;
        match found {
            Some(i) => {
                contigs.set(i, contig);
            },
            None => {
                contigs.push(contig);
                proof {
                    assert forall|k: int| 0 <= k < before.contigs@.len() implies
                        (#[trigger] before.contigs@[k]).name@ != name_view by {
                        if before.contigs@[k].name@ == name_view {
                            assert(before.holds(name_view));
                        }
                    }
                }
            },
        }
        let r = ReferenceIndex { contigs, min_run_length };
        proof {
            let target = before@.insert(name_view, seq_view);
            let at: int = match found {
                Some(i) => i as int,
                None => r.contigs@.len() - 1,
            };
            assert(r.contigs@[at].name@ == name_view);
            assert forall|k: int| 0 <= k < r.contigs@.len() && k != at implies
                (#[trigger] r.contigs@[k]) == before.contigs@[k] by {}
            r.lemma_position(at);
            assert forall|n: Seq<char>| r@.contains_key(n) <==> target.contains_key(n) by {
                if r.holds(n) && n != name_view {
                    let k = r.position(n);
                    assert(before.contigs@[k].name@ == n);
                }
                if before.holds(n) && n != name_view {
                    let k = before.position(n);
                    assert(r.contigs@[k].name@ == n);
                }
            }
            assert forall|n: Seq<char>| r@.contains_key(n) implies r@[n] == target[n] by {
                if n != name_view {
                    let k = r.position(n);
                    r.lemma_position(k);
                    assert(before.contigs@[k].name@ == n);
                    before.lemma_position(k);
                }
            }
            assert(r@ =~= target);
        }
        r
    }

    /// The contig of the given name.
    pub fn get(&self, name: &String) -> (r: Option<&Contig>)
        ensures
            r.is_some() <==> self@.contains_key(name@),
            match r {
                Some(contig) => {
                    &&& contig.name@ == name@
                    &&& contig.fasta.seq@ == self@[name@]
                    &&& contig.fasta.wf()
                    &&& is_homopolymer_index(
                        contig.fasta.seq@,
                        self.min_run_length() as int,
                        contig.homopolymers@,
                    )
                },
                None => true,
            },
    {
        proof {
            use_type_invariant(self);
        }
        match self.find(name) {
            Some(i) => {
                proof {
                    self.lemma_position(i as int);
                }
                Some(&self.contigs[i])
            },
            None => None,
        }
    }

    /// Whether the index holds a contig of the given name.
    pub fn contains(&self, name: &String) -> (r: bool)
        ensures
            r == self@.contains_key(name@),
    {
        self.get(name).is_some()
    }

    /// What the reference shows at position `pos` of the contig `name`: the
    /// byte there, the window of up to `flank` bytes on each side, and the
    /// homopolymer that holds the position. Fails where the index has no such
    /// contig, or the contig no such position.
    pub fn lookup(&self, name: &String, pos: usize, flank: usize) -> (r: Result<
        Context,
        BamParseError,
    >)
        ensures
            match r {
                Ok(context) => {
                    &&& self@.contains_key(name@)
                    &&& pos < self@[name@].len()
                    &&& context.reference == self@[name@][pos as int]
                    &&& context.nt_context@ == context_of(self@[name@], pos as int, flank as int)
                    &&& is_homopolymer_at(
                        self@[name@],
                        self.min_run_length() as int,
                        pos as int,
                        context.homopolymer,
                    )
                },
                Err(e) => if self@.contains_key(name@) {
                    pos >= self@[name@].len() && e == BamParseError::ReferencePositionError
                } else {
                    e == BamParseError::ReferenceLookupError
                },
            },
    {
        match self.get(name) {
            None => Err(BamParseError::ReferenceLookupError),
            Some(contig) => {
                if pos >= contig.fasta.seq.len() {
                    return Err(BamParseError::ReferencePositionError);
                }
                let reference: u8 = contig.fasta.seq[pos];
                let nt_context = context(&contig.fasta.seq, pos, flank);
                let homopolymer = homopolymer_at(&contig.homopolymers, pos);
                proof {
                    lemma_found_in_index(
                        contig.fasta.seq@,
                        self.min_run_length() as int,
                        contig.homopolymers@,
                        pos as int,
                        homopolymer,
                    );
                }
                Ok(Context { reference, nt_context, homopolymer })
            },
        }
    }
}

/// The bytes of `seq` in the context window of `pos`, with up to `flank`
/// bytes on each side.
pub fn context(seq: &Vec<u8>, pos: usize, flank: usize) -> (r: Vec<u8>)
    ensures
        ({
            let w = window_of(pos as int, flank as int, seq@.len() as int);
            r@ == seq@.subrange(w.0, w.1)
        }),
        pos < seq@.len() ==> r@ == context_of(seq@, pos as int, flank as int),
        r@.len() <= 2 * flank + 1,
{
    let (start, end) = context_window(pos, flank, seq.len());
    let mut out: Vec<u8> = Vec::new();
    let mut i: usize = start;
    while i < end
        invariant
            start <= i <= end <= seq@.len(),
            out@ == seq@.subrange(start as int, i as int),
        decreases end - i,
    {
        out.push(seq[i]);
        assert(seq@.subrange(start as int, i + 1) =~= seq@.subrange(start as int, i as int).push(
            seq@[i as int],
        ));
        i = i + 1;
    }
    out
}

/// What a search of the listed homopolymers finds for a position is what
/// holds of the sequence itself.
pub proof fn lemma_found_in_index(
    seq: Seq<u8>,
    min_len: int,
    runs: Seq<HomopolymerRun>,
    pos: int,
    found: Option<HomopolymerRun>,
)
    requires
        is_homopolymer_index(seq, min_len, runs),
        match found {
            Some(run) => exists|i: int|
                0 <= i < runs.len() && #[trigger] runs[i] == run && run.covers(pos),
            None => forall|i: int| 0 <= i < runs.len() ==> !(#[trigger] runs[i]).covers(pos),
        },
    ensures
        is_homopolymer_at(seq, min_len, pos, found),
{
    match found {
        Some(run) => {},
        None => {
            assert forall|a: int, b: int|
                #[trigger] is_maximal_run(seq, a, b) && b - a >= min_len implies !(a <= pos < b) by {
                if a <= pos < b {
                    let i = choose|i: int|
                        0 <= i < runs.len() && (#[trigger] runs[i]).start == a && runs[i].end == b;
                    assert(runs[i].covers(pos));
                }
            }
        },
    }
}

/// At most one homopolymer holds a position: what `is_homopolymer_at` admits
/// for a sequence and a position is one value only.
pub proof fn lemma_homopolymer_at_unique(
    seq: Seq<u8>,
    min_len: int,
    pos: int,
    first: Option<HomopolymerRun>,
    second: Option<HomopolymerRun>,
)
    requires
        is_homopolymer_at(seq, min_len, pos, first),
        is_homopolymer_at(seq, min_len, pos, second),
    ensures
        first == second,
{
    match (first, second) {
        (Some(x), Some(y)) => {
            let (a, b, c, d) = (x.start as int, x.end as int, y.start as int, y.end as int);
            if a < c {
                assert(seq[c - 1] == seq[a] && seq[c] == seq[a] && seq[c] == seq[pos]);
            }
            if c < a {
                assert(seq[a - 1] == seq[c] && seq[a] == seq[c] && seq[a] == seq[pos]);
            }
            if b < d {
                assert(seq[b] == seq[c] && seq[pos] == seq[c] && seq[pos] == seq[a]);
            }
            if d < b {
                assert(seq[d] == seq[a] && seq[pos] == seq[a] && seq[pos] == seq[c]);
            }
        },
        (Some(x), None) => {
            assert(is_maximal_run(seq, x.start as int, x.end as int));
        },
        (None, Some(y)) => {
            assert(is_maximal_run(seq, y.start as int, y.end as int));
        },
        (None, None) => {},
    }
}

/// The map that a list of named sequences makes: each name with the
/// sequence that comes last under it.
pub open spec fn indexed(contigs: Seq<(String, Vec<u8>)>) -> Map<Seq<char>, Seq<u8>>
    decreases contigs.len(),
{
    if contigs.len() == 0 {
        Map::empty()
    } else {
        indexed(contigs.drop_last()).insert(contigs.last().0@, contigs.last().1@)
    }
}

/// Builds the reference index of the given named sequences, finding in each
/// its homopolymers of at least `min_run_length` bases. Of two sequences of
/// one name the later stays.
pub fn index_fasta(
    contigs: Vec<(String, Vec<u8>)>,
    min_run_length: usize,
) -> (index: ReferenceIndex)
    ensures
        index@ == indexed(contigs@),
        index.min_run_length() == min_run_length,
{
    let mut index = ReferenceIndex::new(min_run_length);
    let ghost all = contigs@;
    for pair in it: contigs.into_iter()
        invariant
            it.seq() == all,
            index@ == indexed(all.take(it.index() as int)),
            index.min_run_length() == min_run_length,
    {
        let ghost k = it.index() as int;
        assert(all.take(k + 1).drop_last() =~= all.take(k));
        let (name, seq) = pair;
        index = index.with_contig(name, seq);
    }
    assert(all.take(all.len() as int) =~= all);
    index
}

/// What `indexed` holds: the names of the list, and under each name the
/// sequence of the last entry of that name.
pub proof fn lemma_indexed(contigs: Seq<(String, Vec<u8>)>, i: int)
    requires
        0 <= i < contigs.len(),
        forall|j: int| i < j < contigs.len() ==> (#[trigger] contigs[j]).0@ != contigs[i].0@,
    ensures
        indexed(contigs).contains_key(contigs[i].0@),
        indexed(contigs)[contigs[i].0@] == contigs[i].1@,
    decreases contigs.len(),
{
    if i < contigs.len() - 1 {
        let front = contigs.drop_last();
        assert(contigs.last() == contigs[contigs.len() - 1]);
        assert forall|j: int| i < j < front.len() implies
            (#[trigger] front[j]).0@ != front[i].0@ by {
            assert(front[j] == contigs[j]);
        }
        lemma_indexed(front, i);
    }
}

/// `indexed` holds no name that the list does not hold.
pub proof fn lemma_indexed_names(contigs: Seq<(String, Vec<u8>)>, name: Seq<char>)
    requires
        indexed(contigs).contains_key(name),
    ensures
        exists|i: int| 0 <= i < contigs.len() && (#[trigger] contigs[i]).0@ == name,
    decreases contigs.len(),
{
    if contigs.len() > 0 {
        let front = contigs.drop_last();
        if contigs.last().0@ == name {
            assert(contigs[contigs.len() - 1].0@ == name);
        } else {
            lemma_indexed_names(front, name);
            let i = choose|i: int| 0 <= i < front.len() && (#[trigger] front[i]).0@ == name;
            assert(contigs[i] == front[i]);
        }
    }
}

} // verus!

use vstd::prelude::*;
use crate::claim::{Claim, Eligibility};

verus! {

/// Marks a kind of election.
pub trait ElectionType {
}

/// Marks what a kind of election produces.
pub trait ElectionOutcome {
}

/// The election of the next block's miner.
#[derive(Clone, Copy, Debug, PartialEq, Eq, Structural)]
pub struct MinerElection;

/// The election of the next quorum.
#[derive(Clone, Copy, Debug, PartialEq, Eq, Structural)]
pub struct QuorumElection;

impl ElectionType for MinerElection {
}

impl ElectionType for QuorumElection {
}

/// A 256-bit election result, as its high and low 128-bit halves.
#[derive(Clone, Copy, Debug, PartialEq, Eq, Structural)]
pub struct ElectionScore {
    pub high: u128,
    pub low: u128,
}

impl ElectionScore {
    pub open spec fn value(self) -> int {
        self.high * 0x1_0000_0000_0000_0000_0000_0000_0000_0000int + self.low
    }

    pub open spec fn spec_lt(self, other: ElectionScore) -> bool {
        self.high < other.high || (self.high == other.high && self.low < other.low)
    }

    pub fn lt(&self, other: &ElectionScore) -> (r: bool)
        ensures
            r == self.spec_lt(*other),
            r == (self.value() < other.value()),
    {
        proof {
            lemma_score_order(*self, *other);
        }
        self.high < other.high || (self.high == other.high && self.low < other.low)
    }
}

proof fn lemma_score_order(a: ElectionScore, b: ElectionScore)
    ensures
        a.spec_lt(b) == (a.value() < b.value()),
        (a.value() == b.value()) == (a == b),
{
    let m = 0x1_0000_0000_0000_0000_0000_0000_0000_0000int;
    assert(a.high < b.high ==> a.high * m + a.low < b.high * m + b.low) by (nonlinear_arith)
        requires
            a.low < m,
            b.low < m,
            m > 0,
    ;
    assert(b.high < a.high ==> b.high * m + b.low < a.high * m + a.low) by (nonlinear_arith)
        requires
            a.low < m,
            b.low < m,
            m > 0,
    ;
}

/// Strict lexicographic order on texts, by character code.
pub open spec fn text_less(a: Seq<char>, b: Seq<char>) -> bool
    decreases a.len(),
{
    if b.len() == 0 {
        false
    } else if a.len() == 0 {
        true
    } else if a[0] != b[0] {
        (a[0] as int) < (b[0] as int)
    } else {
        text_less(a.drop_first(), b.drop_first())
    }
}

pub proof fn lemma_text_less_total(a: Seq<char>, b: Seq<char>)
    ensures
        a != b ==> (text_less(a, b) || text_less(b, a)),
        !(text_less(a, b) && text_less(b, a)),
        !text_less(a, a),
    decreases a.len(),
{
    if a.len() > 0 && b.len() > 0 {
        lemma_text_less_total(a.drop_first(), b.drop_first());
        if a[0] == b[0] && a != b {
            assert(a =~= seq![a[0]] + a.drop_first());
            assert(b =~= seq![b[0]] + b.drop_first());
        }
        lemma_text_less_total(a.drop_first(), a.drop_first());
    } else if a.len() == 0 && b.len() == 0 {
        assert(a =~= b);
    } else if a.len() > 0 {
        lemma_text_less_total(a.drop_first(), a.drop_first());
    }
}

/// Whether text `a` comes strictly before text `b`.
pub fn text_precedes(a: &String, b: &String) -> (r: bool)
    ensures
        r == text_less(a@, b@),
{
    let sa = a.as_str();
    let sb = b.as_str();
    let la = sa.unicode_len();
    let lb = sb.unicode_len();
    let mut i: usize = 0;
    assert(a@.subrange(0, la as int) =~= a@);
    assert(b@.subrange(0, lb as int) =~= b@);
    while i < la && i < lb
        invariant
            la == a@.len(),
            lb == b@.len(),
            sa@ == a@,
            sb@ == b@,
            i <= la,
            i <= lb,
            text_less(a@, b@) == text_less(a@.subrange(i as int, la as int), b@.subrange(i as int, lb as int)),
        decreases la - i,
    {
        let ca = sa.get_char(i);
        let cb = sb.get_char(i);
        proof {
            let ra = a@.subrange(i as int, la as int);
            let rb = b@.subrange(i as int, lb as int);
            assert(ra[0] == ca);
            assert(rb[0] == cb);
            assert(ra.drop_first() =~= a@.subrange(i + 1, la as int));
            assert(rb.drop_first() =~= b@.subrange(i + 1, lb as int));
        }
        if ca != cb {
            return (ca as u32) < (cb as u32);
        }
        i = i + 1;
    }
    i < lb
}

/// Candidate `x` ranks strictly before candidate `y`: a smaller result, or an
/// equal result and a smaller claim hash.
pub open spec fn ranks_before(x: (ElectionScore, Claim), y: (ElectionScore, Claim)) -> bool {
    x.0.spec_lt(y.0) || (x.0 == y.0 && text_less(x.1.hash@, y.1.hash@))
}

/// `w` is one of `results` and no result ranks before it.
pub open spec fn is_winner(results: Seq<(ElectionScore, Claim)>, w: (ElectionScore, Claim)) -> bool {
    &&& results.contains(w)
    &&& forall|i: int| 0 <= i < results.len() ==> !ranks_before(#[trigger] results[i], w)
}

/// The miner-eligible claims of `claims`, in order, each with its result.
pub open spec fn miner_candidates(claims: Seq<Claim>, scores: Seq<ElectionScore>) -> Seq<
    (ElectionScore, Claim),
>
    decreases claims.len(),
{
    if claims.len() == 0 || scores.len() != claims.len() {
        Seq::empty()
    } else if claims.last().eligibility == Eligibility::Miner {
        miner_candidates(claims.drop_last(), scores.drop_last()).push((scores.last(), claims.last()))
    } else {
        miner_candidates(claims.drop_last(), scores.drop_last())
    }
}

/// Pairs each miner-eligible claim with its election result; `scores[i]` is
/// the result of `claims[i]` for the block seed.
pub fn elect_miner(claims: &Vec<Claim>, scores: &Vec<ElectionScore>) -> (r: Vec<
    (ElectionScore, Claim),
>)
    requires
        claims@.len() == scores@.len(),
    ensures
        r@ == miner_candidates(claims@, scores@),
{
    let mut out: Vec<(ElectionScore, Claim)> = Vec::new();
    let mut i: usize = 0;
    while i < claims.len()
        invariant
            i <= claims@.len(),
            claims@.len() == scores@.len(),
            out@ == miner_candidates(claims@.subrange(0, i as int), scores@.subrange(0, i as int)),
        decreases claims@.len() - i,
    {
        proof {
            assert(claims@.subrange(0, i + 1).drop_last() =~= claims@.subrange(0, i as int));
            assert(scores@.subrange(0, i + 1).drop_last() =~= scores@.subrange(0, i as int));
        }
        if claims[i].eligibility == Eligibility::Miner {
            out.push(single_miner_results(&claims[i], scores[i]));
        }
        i = i + 1;
    }
    assert(claims@.subrange(0, i as int) =~= claims@);
    assert(scores@.subrange(0, i as int) =~= scores@);
    out
}

/// A claim together with its election result.
pub fn single_miner_results(claim: &Claim, score: ElectionScore) -> (r: (ElectionScore, Claim))
    ensures
        r == (score, *claim),
{
    (score, claim.duplicate())
}

/// Why no miner could be elected.
#[derive(Clone, Copy, Debug, PartialEq, Eq, Structural)]
pub enum ElectionError {
    NoEligibleMiner,
}

/// Elects the miner of the next block from the live claims; `scores[i]` is
/// the result of `claims[i]` for the block seed.
pub fn run_miner_election(claims: &Vec<Claim>, scores: &Vec<ElectionScore>) -> (r: Result<
    (ElectionScore, Claim),
    ElectionError,
>)
    requires
        claims@.len() == scores@.len(),
    ensures
        r is Err <==> miner_candidates(claims@, scores@).len() == 0,
        r is Err ==> r == Err::<(ElectionScore, Claim), ElectionError>(
            ElectionError::NoEligibleMiner,
        ),
        r is Ok ==> is_winner(miner_candidates(claims@, scores@), r->Ok_0),
        r is Ok ==> first_winner(miner_candidates(claims@, scores@), r->Ok_0),
{
    let candidates = elect_miner(claims, scores);
    match get_winner(&candidates) {
        Some(w) => Ok(w),
        None => Err(ElectionError::NoEligibleMiner),
    }
}

/// The candidate with the smallest result, ties going to the smaller claim
/// hash and then to the earliest in the list; `None` when there is no
/// candidate.
pub fn get_winner(results: &Vec<(ElectionScore, Claim)>) -> (r: Option<(ElectionScore, Claim)>)
    ensures
        r is None <==> results@.len() == 0,
        r is Some ==> is_winner(results@, r->0),
        r is Some ==> first_winner(results@, r->0),
{
    if results.len() == 0 {
        return None;
    }
    let mut best: usize = 0;
    let mut i: usize = 1;
    proof {
        lemma_ranks_irreflexive(results@[0]);
    }
    while i < results.len()
        invariant
            1 <= i <= results@.len(),
            best < i,
            forall|j: int| 0 <= j < i ==> !ranks_before(#[trigger] results@[j], results@[best as int]),
            forall|j: int| 0 <= j < best ==> ranks_before(results@[best as int], #[trigger] results@[j]),
        decreases results@.len() - i,
    {
        let (cand_score, cand_claim) = (&results[i].0, &results[i].1);
        let (best_score, best_claim) = (&results[best].0, &results[best].1);
        let before = cand_score.lt(best_score) || (*cand_score == *best_score && text_precedes(
            &cand_claim.hash,
            &best_claim.hash,
        ));
        if before {
            proof {
                assert forall|j: int| 0 <= j < i + 1 implies !ranks_before(
                    #[trigger] results@[j],
                    results@[i as int],
                ) by {
                    let x = results@[j];
                    let b = results@[best as int];
                    let c = results@[i as int];
                    lemma_ranks_irreflexive(c);
                    if ranks_before(x, c) {
                        lemma_ranks_transitive(x, c, b);
                    }
                }
                assert forall|j: int| 0 <= j < i implies ranks_before(
                    results@[i as int],
                    #[trigger] results@[j],
                ) by {
                    let x = results@[j];
                    let b = results@[best as int];
                    let c = results@[i as int];
                    if j < best {
                        lemma_ranks_transitive(c, b, x);
                    } else if j > best {
                        lemma_ranks_before_step(c, b, x);
                    }
                }
            }
            best = i;
        } else {
        }
        i = i + 1;
    }
    let w = (results[best].0, results[best].1.duplicate());
    proof {
        assert(results@[best as int] == w);
        assert(first_winner(results@, w));
    }
    Some(w)
}

/// `w` stands at some index of `results` and ranks strictly before every
/// candidate listed ahead of it: ties go to the earliest candidate.
pub open spec fn first_winner(results: Seq<(ElectionScore, Claim)>, w: (ElectionScore, Claim)) -> bool {
    exists|k: int|
        0 <= k < results.len() && results[k] == w && forall|j: int|
            0 <= j < k ==> ranks_before(w, #[trigger] results[j])
}

proof fn lemma_ranks_before_step(
    c: (ElectionScore, Claim),
    b: (ElectionScore, Claim),
    x: (ElectionScore, Claim),
)
    requires
        ranks_before(c, b),
        !ranks_before(x, b),
    ensures
        ranks_before(c, x),
{
    lemma_score_order(c.0, b.0);
    lemma_score_order(b.0, x.0);
    lemma_score_order(x.0, b.0);
    lemma_score_order(c.0, x.0);
    lemma_text_less_total(x.1.hash@, b.1.hash@);
    lemma_text_less_total(c.1.hash@, x.1.hash@);
    if c.0 == b.0 && b.0 == x.0 && b.1.hash@ != x.1.hash@ {
        lemma_text_less_transitive(c.1.hash@, b.1.hash@, x.1.hash@);
    }
}

/// The election is a function of its candidate list: two winners of the
/// same list, each earliest among its ties, are the same candidate.
pub proof fn lemma_winner_deterministic(
    results: Seq<(ElectionScore, Claim)>,
    w1: (ElectionScore, Claim),
    w2: (ElectionScore, Claim),
)
    requires
        is_winner(results, w1) && first_winner(results, w1),
        is_winner(results, w2) && first_winner(results, w2),
    ensures
        w1 == w2,
{
    let k1 = choose|k: int|
        0 <= k < results.len() && results[k] == w1 && forall|j: int|
            0 <= j < k ==> ranks_before(w1, #[trigger] results[j]);
    let k2 = choose|k: int|
        0 <= k < results.len() && results[k] == w2 && forall|j: int|
            0 <= j < k ==> ranks_before(w2, #[trigger] results[j]);
    if k1 < k2 {
        assert(ranks_before(w2, results[k1]));
        assert(!ranks_before(results[k2], w1));
    } else if k2 < k1 {
        assert(ranks_before(w1, results[k2]));
        assert(!ranks_before(results[k1], w2));
    }
}

proof fn lemma_miner_candidates_members(claims: Seq<Claim>, scores: Seq<ElectionScore>)
    requires
        claims.len() == scores.len(),
    ensures
        forall|x: (ElectionScore, Claim)| #[trigger]
            miner_candidates(claims, scores).contains(x) <==> exists|i: int|
                0 <= i < claims.len() && claims[i].eligibility == Eligibility::Miner && x == (
                    scores[i],
                    claims[i],
                ),
    decreases claims.len(),
{
    if claims.len() > 0 {
        let c = claims.drop_last();
        let sc = scores.drop_last();
        lemma_miner_candidates_members(c, sc);
        let prev = miner_candidates(c, sc);
        let n = claims.len() - 1;
        assert forall|x: (ElectionScore, Claim)| #[trigger]
            miner_candidates(claims, scores).contains(x) <==> exists|i: int|
                0 <= i < claims.len() && claims[i].eligibility == Eligibility::Miner && x == (
                    scores[i],
                    claims[i],
                ) by {
            if claims.last().eligibility == Eligibility::Miner {
                let y = (scores.last(), claims.last());
                if prev.push(y).contains(x) {
                    let j = choose|j: int| 0 <= j < prev.push(y).len() && prev.push(y)[j] == x;
                    if j < prev.len() {
                        assert(prev.contains(x));
                        let i = choose|i: int|
                            0 <= i < c.len() && c[i].eligibility == Eligibility::Miner && x == (
                                sc[i],
                                c[i],
                            );
                        assert(claims[i] == c[i] && scores[i] == sc[i]);
                    } else {
                        assert(claims[n] == claims.last() && scores[n] == scores.last());
                    }
                }
                if exists|i: int|
                    0 <= i < claims.len() && claims[i].eligibility == Eligibility::Miner && x == (
                        scores[i],
                        claims[i],
                    ) {
                    let i = choose|i: int|
                        0 <= i < claims.len() && claims[i].eligibility == Eligibility::Miner && x
                            == (scores[i], claims[i]);
                    if i < n {
                        assert(c[i] == claims[i] && sc[i] == scores[i]);
                        assert(prev.contains(x));
                        let j = choose|j: int| 0 <= j < prev.len() && prev[j] == x;
                        assert(prev.push(y)[j] == x);
                    } else {
                        assert(prev.push(y)[prev.len() as int] == x);
                    }
                }
            } else {
                if prev.contains(x) {
                    let i = choose|i: int|
                        0 <= i < c.len() && c[i].eligibility == Eligibility::Miner && x == (
                            sc[i],
                            c[i],
                        );
                    assert(claims[i] == c[i] && scores[i] == sc[i]);
                }
                if exists|i: int|
                    0 <= i < claims.len() && claims[i].eligibility == Eligibility::Miner && x == (
                        scores[i],
                        claims[i],
                    ) {
                    let i = choose|i: int|
                        0 <= i < claims.len() && claims[i].eligibility == Eligibility::Miner && x
                            == (scores[i], claims[i]);
                    assert(i < n);
                    assert(c[i] == claims[i] && sc[i] == scores[i]);
                }
            }
        }
    }
}

/// Listing the same claims, each with its result, in another order elects a
/// winner with the same result and the same claim hash.
pub proof fn lemma_election_independent_of_claim_order(
    claims1: Seq<Claim>,
    scores1: Seq<ElectionScore>,
    claims2: Seq<Claim>,
    scores2: Seq<ElectionScore>,
    w1: (ElectionScore, Claim),
    w2: (ElectionScore, Claim),
)
    requires
        claims1.len() == scores1.len(),
        claims2.len() == scores2.len(),
        forall|i: int|
            0 <= i < claims1.len() ==> exists|j: int|
                0 <= j < claims2.len() && #[trigger] claims1[i] == claims2[j] && scores1[i]
                    == scores2[j],
        forall|j: int|
            0 <= j < claims2.len() ==> exists|i: int|
                0 <= i < claims1.len() && claims1[i] == #[trigger] claims2[j] && scores1[i]
                    == scores2[j],
        is_winner(miner_candidates(claims1, scores1), w1),
        is_winner(miner_candidates(claims2, scores2), w2),
    ensures
        w1.0 == w2.0,
        w1.1.hash@ == w2.1.hash@,
{
    lemma_miner_candidates_members(claims1, scores1);
    lemma_miner_candidates_members(claims2, scores2);
    let a = miner_candidates(claims1, scores1);
    let b = miner_candidates(claims2, scores2);
    assert forall|x: (ElectionScore, Claim)| a.contains(x) <==> b.contains(x) by {
        if a.contains(x) {
            let i = choose|i: int|
                0 <= i < claims1.len() && claims1[i].eligibility == Eligibility::Miner && x == (
                    scores1[i],
                    claims1[i],
                );
            let j = choose|j: int|
                0 <= j < claims2.len() && claims1[i] == claims2[j] && scores1[i] == scores2[j];
            assert(b.contains(x));
        }
        if b.contains(x) {
            let j = choose|j: int|
                0 <= j < claims2.len() && claims2[j].eligibility == Eligibility::Miner && x == (
                    scores2[j],
                    claims2[j],
                );
            let i = choose|i: int|
                0 <= i < claims1.len() && claims1[i] == claims2[j] && scores1[i] == scores2[j];
            assert(a.contains(x));
        }
    }
    lemma_winner_independent_of_order(a, b, w1, w2);
}

proof fn lemma_ranks_irreflexive(x: (ElectionScore, Claim))
    ensures
        !ranks_before(x, x),
{
    lemma_text_less_total(x.1.hash@, x.1.hash@);
}

proof fn lemma_ranks_transitive(
    x: (ElectionScore, Claim),
    y: (ElectionScore, Claim),
    z: (ElectionScore, Claim),
)
    requires
        ranks_before(x, y),
        ranks_before(y, z),
    ensures
        ranks_before(x, z),
{
    lemma_score_order(x.0, y.0);
    lemma_score_order(y.0, z.0);
    lemma_score_order(x.0, z.0);
    if x.0 == y.0 && y.0 == z.0 {
        lemma_text_less_transitive(x.1.hash@, y.1.hash@, z.1.hash@);
    }
}

/// The outcome of an election does not depend on the order of its
/// candidates: two winners of candidate lists with the same members have the
/// same result and the same claim hash.
pub proof fn lemma_winner_independent_of_order(
    a: Seq<(ElectionScore, Claim)>,
    b: Seq<(ElectionScore, Claim)>,
    wa: (ElectionScore, Claim),
    wb: (ElectionScore, Claim),
)
    requires
        forall|x: (ElectionScore, Claim)| a.contains(x) <==> b.contains(x),
        is_winner(a, wa),
        is_winner(b, wb),
    ensures
        wa.0 == wb.0,
        wa.1.hash@ == wb.1.hash@,
{
    assert(a.contains(wb));
    assert(b.contains(wa));
    let i = choose|i: int| 0 <= i < a.len() && a[i] == wb;
    let j = choose|j: int| 0 <= j < b.len() && b[j] == wa;
    assert(!ranks_before(a[i], wa));
    assert(!ranks_before(b[j], wb));
    lemma_score_order(wa.0, wb.0);
    lemma_score_order(wb.0, wa.0);
    lemma_text_less_total(wa.1.hash@, wb.1.hash@);
}

pub proof fn lemma_text_less_transitive(a: Seq<char>, b: Seq<char>, c: Seq<char>)
    requires
        text_less(a, b),
        text_less(b, c),
    ensures
        text_less(a, c),
    decreases a.len(),
{
    if a.len() > 0 && b.len() > 0 && c.len() > 0 && a[0] == b[0] && b[0] == c[0] {
        lemma_text_less_transitive(a.drop_first(), b.drop_first(), c.drop_first());
    }
}

} // verus!

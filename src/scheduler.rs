use vstd::prelude::*;
use std::collections::BTreeMap;
use crate::txn::Txn;

verus! {

broadcast use vstd::laws_cmp::group_laws_cmp;

/// The quorum threshold every farmer's vote carries.
pub const VOTE_QUORUM_THRESHOLD: usize = 2;

/// A farmer's partial signature over a transaction it validated.
#[derive(Clone, Debug, PartialEq, Eq)]
pub struct Vote {
    pub farmer_id: Vec<u8>,
    pub farmer_node_id: u16,
    pub signature: Vec<u8>,
    pub txn: Txn,
    pub quorum_public_key: Vec<u8>,
    pub quorum_threshold: usize,
    pub execution_result: Option<String>,
}

/// What a job hands back to its output channel.
#[derive(Clone, Debug, PartialEq, Eq)]
pub enum JobResult {
    /// One slot per validated transaction; a slot is empty where no partial
    /// signature could be made. The second field is the farmer quorum
    /// threshold.
    Votes(Vec<Option<Vote>>, usize),
    /// The votes, the threshold signature, the transaction id, the farmer
    /// quorum key, the farmer id and the transaction.
    CertifiedTxn(Vec<Vote>, Vec<u8>, String, String, Vec<u8>, Txn),
}

/// What to do with a transaction submitted for certification.
#[derive(Clone, Debug, PartialEq, Eq)]
pub enum CertifyDecision {
    /// Combine these partial signatures, by farmer node, into a threshold signature.
    Aggregate(BTreeMap<u16, Vec<u8>>),
    /// The transaction did not validate: the farmers that voted for it are to
    /// be penalised and nothing is emitted.
    Penalize,
}

/// The partial signature of each farmer node, the last vote of a node
/// counting.
pub open spec fn shares_of(votes: Seq<Vote>) -> Map<u16, Seq<u8>>
    decreases votes.len(),
{
    if votes.len() == 0 {
        Map::empty()
    } else {
        shares_of(votes.drop_last()).insert(votes.last().farmer_node_id, votes.last().signature@)
    }
}

/// A map of byte vectors holds the given byte sequences.
pub open spec fn holds_shares(m: Map<u16, Vec<u8>>, shares: Map<u16, Seq<u8>>) -> bool {
    &&& m.dom() == shares.dom()
    &&& forall|k: u16| #[trigger] m.contains_key(k) ==> m[k]@ == shares[k]
}

/// The vote a farmer casts on a transaction with a partial signature.
pub open spec fn vote_of(
    txn: Txn,
    signature: Vec<u8>,
    farmer_id: Vec<u8>,
    farmer_node_id: u16,
    quorum_public_key: Vec<u8>,
) -> Vote {
    Vote {
        farmer_id,
        farmer_node_id,
        signature,
        txn,
        quorum_public_key,
        quorum_threshold: VOTE_QUORUM_THRESHOLD,
        execution_result: None,
    }
}

fn copy_bytes(b: &Vec<u8>) -> (r: Vec<u8>)
    ensures
        r@ == b@,
{
    let mut out: Vec<u8> = Vec::new();
    let mut i: usize = 0;
    while i < b.len()
        invariant
            i <= b@.len(),
            out@ == b@.subrange(0, i as int),
        decreases b@.len() - i,
    {
        out.push(b[i]);
        i = i + 1;
        proof {
            assert(out@ =~= b@.subrange(0, i as int));
        }
    }
    assert(b@.subrange(0, i as int) =~= b@);
    out
}

/// The votes of a farm job: `signatures[i]` is the partial signature made
/// over `validated[i]`, or `None` where none could be made, which leaves a
/// hole in the list.
pub fn farm_votes(
    validated: Vec<Txn>,
    signatures: Vec<Option<Vec<u8>>>,
    farmer_id: &Vec<u8>,
    farmer_node_id: u16,
    quorum_public_key: &Vec<u8>,
) -> (r: Vec<Option<Vote>>)
    requires
        validated@.len() == signatures@.len(),
    ensures
        r@.len() == validated@.len(),
        forall|i: int|
            0 <= i < r@.len() ==> match signatures@[i] {
                Some(sig) => #[trigger] r@[i] is Some && r@[i]->0.txn == validated@[i]
                    && r@[i]->0.signature == sig && r@[i]->0.farmer_id@ == farmer_id@
                    && r@[i]->0.farmer_node_id == farmer_node_id
                    && r@[i]->0.quorum_public_key@ == quorum_public_key@
                    && r@[i]->0.quorum_threshold == VOTE_QUORUM_THRESHOLD
                    && r@[i]->0.execution_result is None,
                None => r@[i] is None,
            },
{
    let mut votes: Vec<Option<Vote>> = Vec::new();
    let mut txns = validated;
    let mut sigs = signatures;
    let ghost all_txns = txns@;
    let ghost all_sigs = sigs@;
    let n = txns.len();
    // Both lists are consumed from the back, then the votes are put in order.
    let mut rev: Vec<Option<Vote>> = Vec::new();
    while txns.len() > 0
        invariant
            txns@.len() == sigs@.len(),
            txns@ == all_txns.subrange(0, txns@.len() as int),
            sigs@ == all_sigs.subrange(0, sigs@.len() as int),
            all_txns.len() == n,
            all_sigs.len() == n,
            txns@.len() + rev@.len() == n,
            forall|k: int|
                0 <= k < rev@.len() ==> {
                    let i = n - 1 - k;
                    match all_sigs[i] {
                        Some(sig) => #[trigger] rev@[k] is Some && rev@[k]->0.txn == all_txns[i]
                            && rev@[k]->0.signature == sig && rev@[k]->0.farmer_id@ == farmer_id@
                            && rev@[k]->0.farmer_node_id == farmer_node_id
                            && rev@[k]->0.quorum_public_key@ == quorum_public_key@
                            && rev@[k]->0.quorum_threshold == VOTE_QUORUM_THRESHOLD
                            && rev@[k]->0.execution_result is None,
                        None => rev@[k] is None,
                    }
                },
        decreases txns@.len(),
    {
        let txn = txns.pop().unwrap();
        let sig = sigs.pop().unwrap();
        let slot = match sig {
            Some(signature) => Some(
                Vote {
                    farmer_id: copy_bytes(farmer_id),
                    farmer_node_id,
                    signature,
                    txn,
                    quorum_public_key: copy_bytes(quorum_public_key),
                    quorum_threshold: VOTE_QUORUM_THRESHOLD,
                    execution_result: None,
                },
            ),
            None => None,
        };
        rev.push(slot);
    }
    while rev.len() > 0
        invariant
            rev@.len() + votes@.len() == n,
            all_txns.len() == n,
            all_sigs.len() == n,
            forall|k: int|
                0 <= k < rev@.len() ==> {
                    let i = n - 1 - k;
                    match all_sigs[i] {
                        Some(sig) => #[trigger] rev@[k] is Some && rev@[k]->0.txn == all_txns[i]
                            && rev@[k]->0.signature == sig && rev@[k]->0.farmer_id@ == farmer_id@
                            && rev@[k]->0.farmer_node_id == farmer_node_id
                            && rev@[k]->0.quorum_public_key@ == quorum_public_key@
                            && rev@[k]->0.quorum_threshold == VOTE_QUORUM_THRESHOLD
                            && rev@[k]->0.execution_result is None,
                        None => rev@[k] is None,
                    }
                },
            forall|i: int|
                0 <= i < votes@.len() ==> match all_sigs[i] {
                    Some(sig) => #[trigger] votes@[i] is Some && votes@[i]->0.txn == all_txns[i]
                        && votes@[i]->0.signature == sig && votes@[i]->0.farmer_id@ == farmer_id@
                        && votes@[i]->0.farmer_node_id == farmer_node_id
                        && votes@[i]->0.quorum_public_key@ == quorum_public_key@
                        && votes@[i]->0.quorum_threshold == VOTE_QUORUM_THRESHOLD
                        && votes@[i]->0.execution_result is None,
                    None => votes@[i] is None,
                },
        decreases rev@.len(),
    {
        let ghost k = rev@.len() - 1;
        let slot = rev.pop().unwrap();
        proof {
            assert(n - 1 - k == votes@.len());
        }
        votes.push(slot);
    }
    votes
}

/// The partial signatures of the votes by farmer node; a later vote of the
/// same node replaces an earlier one.
pub fn collect_sig_shares(votes: &Vec<Vote>) -> (r: BTreeMap<u16, Vec<u8>>)
    ensures
        holds_shares(r@, shares_of(votes@)),
{
    let mut shares: BTreeMap<u16, Vec<u8>> = BTreeMap::new();
    let mut i: usize = 0;
    while i < votes.len()
        invariant
            i <= votes@.len(),
            holds_shares(shares@, shares_of(votes@.subrange(0, i as int))),
        decreases votes@.len() - i,
    {
        proof {
            assert(votes@.subrange(0, i + 1).drop_last() =~= votes@.subrange(0, i as int));
        }
        shares.insert(votes[i].farmer_node_id, copy_bytes(&votes[i].signature));
        proof {
            assert(shares@.dom() =~= shares_of(votes@.subrange(0, i + 1)).dom());
        }
        i = i + 1;
    }
    assert(votes@.subrange(0, i as int) =~= votes@);
    shares
}

/// Some validated transaction has the id of `txn`.
pub open spec fn was_validated(validated: Seq<Txn>, txn: Txn) -> bool {
    exists|i: int| 0 <= i < validated.len() && #[trigger] validated[i].txn_id@ == txn.txn_id@
}

/// Whether a transaction with the id of `txn` is among `validated`.
pub fn is_validated(validated: &Vec<Txn>, txn: &Txn) -> (r: bool)
    ensures
        r == was_validated(validated@, *txn),
{
    let mut i: usize = 0;
    while i < validated.len()
        invariant
            i <= validated@.len(),
            forall|j: int| 0 <= j < i ==> (#[trigger] validated@[j]).txn_id@ != txn.txn_id@,
        decreases validated@.len() - i,
    {
        if validated[i].txn_id == txn.txn_id {
            return true;
        }
        i = i + 1;
    }
    false
}

/// Decides a certification job: `validated` is what re-validating the
/// transaction returned. A transaction that validated has the partial
/// signatures of its votes combined; one that did not is penalised.
pub fn certify_decision(votes: &Vec<Vote>, validated: &Vec<Txn>, txn: &Txn) -> (r: CertifyDecision)
    ensures
        was_validated(validated@, *txn) ==> r is Aggregate && holds_shares(r->Aggregate_0@, shares_of(votes@)),
        !was_validated(validated@, *txn) ==> r == CertifyDecision::Penalize,
{
    let shares = collect_sig_shares(votes);
    if is_validated(validated, txn) {
        CertifyDecision::Aggregate(shares)
    } else {
        CertifyDecision::Penalize
    }
}

} // verus!

use vstd::prelude::*;

verus! {

/// A transfer between two addresses, together with the votes of the
/// validators that have looked at it.
#[derive(Clone, Debug, PartialEq, Eq, Hash)]
pub struct Txn {
    pub txn_id: String,
    pub txn_timestamp: u128,
    pub sender_address: String,
    pub sender_public_key: String,
    pub receiver_address: String,
    pub txn_token: Option<String>,
    pub txn_amount: u128,
    pub txn_payload: String,
    pub txn_signature: String,
    /// Each validator's address and whether it approved the transaction.
    pub validators: Vec<(String, bool)>,
    pub nonce: u128,
}

/// How many of the votes are approvals.
pub open spec fn approvals(votes: Seq<(String, bool)>) -> nat
    decreases votes.len(),
{
    if votes.len() == 0 {
        0
    } else {
        approvals(votes.drop_last()) + if votes.last().1 { 1nat } else { 0nat }
    }
}

/// At least sixty percent of the votes approve (vacuously so with no votes).
pub open spec fn meets_validator_threshold(votes: Seq<(String, bool)>) -> bool {
    5 * approvals(votes) >= 3 * votes.len()
}

proof fn lemma_approvals_bounded(votes: Seq<(String, bool)>)
    ensures
        approvals(votes) <= votes.len(),
    decreases votes.len(),
{
    if votes.len() > 0 {
        lemma_approvals_bounded(votes.drop_last());
    }
}

impl Txn {
    /// The number of validators that approved this transaction.
    pub fn approval_count(&self) -> (r: usize)
        ensures
            r == approvals(self.validators@),
    {
        let mut count: usize = 0;
        let mut i: usize = 0;
        while i < self.validators.len()
            invariant
                i <= self.validators@.len(),
                count == approvals(self.validators@.subrange(0, i as int)),
            decreases self.validators@.len() - i,
        {
            proof {
                let next = self.validators@.subrange(0, i + 1);
                assert(next.drop_last() =~= self.validators@.subrange(0, i as int));
                lemma_approvals_bounded(next);
            }
            if self.validators[i].1 {
                count = count + 1;
            }
            i = i + 1;
        }
        assert(self.validators@.subrange(0, i as int) =~= self.validators@);
        count
    }

    /// Whether at least sixty percent of this transaction's validators approved it.
    pub fn has_validator_quorum(&self) -> (r: bool)
        ensures
            r == meets_validator_threshold(self.validators@),
    {
        let n = self.approval_count();
        proof {
            lemma_approvals_bounded(self.validators@);
        }
        5 * (n as u128) >= 3 * (self.validators.len() as u128)
    }
}

} // verus!

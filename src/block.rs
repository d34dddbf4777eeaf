use vstd::prelude::*;
use crate::claim::Claim;
use crate::digest::{sha256_digest, sha256_hex};
use crate::header::{BlockHeader, FreshHeaderFields};
use crate::invalid::{InvalidBlockError, InvalidBlockErrorReason};
use crate::linked::{
    claim_entries, claim_map_insert, linked_insert, new_claim_map, txn_entries, txn_map_values,
    ClaimMap, TxnMap,
};
use crate::reward::{Category, Reward, RewardState};
use crate::txn::{meets_validator_threshold, Txn};

verus! {

pub const NANO: u128 = 1;

pub const MICRO: u128 = 1_000;

pub const MILLI: u128 = 1_000_000;

/// One second in nanoseconds; also the least time between two blocks.
pub const SECOND: u128 = 1_000_000_000;

/// A block of the chain.
#[derive(Clone, Debug)]
pub struct Block {
    pub header: BlockHeader,
    pub neighbors: Option<Vec<BlockHeader>>,
    pub height: u128,
    pub txns: TxnMap,
    pub claims: ClaimMap,
    pub hash: String,
    pub received_at: Option<u128>,
    pub received_from: Option<String>,
    pub abandoned_claim: Option<Claim>,
}

/// What the validity rules learn from the network state and from the claim
/// itself at the block's nonce: the lowest pointer recorded in the network
/// state (the claim hash it belongs to and its value), the claim's own
/// pointer, and whether the claim is internally valid.
#[derive(Clone, Debug, PartialEq, Eq)]
pub struct ClaimEvidence {
    pub lowest_pointer: Option<(String, u128)>,
    pub claim_pointer: Option<u128>,
    pub claim_valid: bool,
}

/// The last hash every genesis block carries.
pub open spec fn genesis_last_hash() -> Seq<char> {
    sha256_hex("Genesis_Last_Hash"@)
}

/// The state hash every genesis block carries.
pub open spec fn genesis_state_hash() -> Seq<char> {
    sha256_hex(genesis_last_hash() + ","@ + sha256_hex("Genesis_State_Hash"@))
}

/// The texts one after the other.
pub open spec fn joined(parts: Seq<Seq<char>>) -> Seq<char>
    decreases parts.len(),
{
    if parts.len() == 0 {
        Seq::empty()
    } else {
        joined(parts.drop_last()) + parts.last()
    }
}

pub open spec fn views(texts: Seq<String>) -> Seq<Seq<char>> {
    texts.map_values(|t: String| t@)
}

/// The digest of the texts one after the other.
pub open spec fn content_hash(texts: Seq<String>) -> Seq<char> {
    sha256_hex(joined(views(texts)))
}

/// The header that follows `prev`, with the values drawn afresh by the producer.
pub open spec fn next_header(
    prev: BlockHeader,
    prev_hash: Seq<char>,
    h: BlockHeader,
    claim: Claim,
    txn_hash: Seq<char>,
    claim_map_hash: Option<String>,
    neighbors_hash: Option<Seq<char>>,
    fresh: FreshHeaderFields,
) -> bool {
    &&& h.block_height == prev.block_height + 1
    &&& h.block_nonce == prev.next_block_nonce
    &&& h.next_block_nonce == fresh.next_block_nonce
    &&& h.last_hash@ == prev_hash
    &&& h.block_seed == prev.next_block_seed
    &&& h.next_block_seed == fresh.next_block_seed
    &&& h.block_reward == prev.next_block_reward
    &&& h.next_block_reward == fresh.next_block_reward
    &&& h.claim == claim
    &&& h.txn_hash@ == txn_hash
    &&& h.claim_map_hash == claim_map_hash
    &&& (match neighbors_hash {
        Some(n) => h.neighbors_hash is Some && h.neighbors_hash->0@ == n,
        None => h.neighbors_hash is None,
    })
    &&& h.timestamp == fresh.timestamp
    &&& h.signature == fresh.signature
}

/// A block may follow one whose header time is `prev` at time `now` when at
/// least one whole second lies between them.
pub open spec fn interval_ok(prev: u128, now: u128) -> bool {
    now >= prev + SECOND
}

/// Where the network state records a lowest pointer at the block's nonce, it
/// belongs to the block's claim and equals the claim's own pointer.
pub open spec fn pointers_agree(ev: ClaimEvidence, claim: Claim) -> bool {
    match ev.lowest_pointer {
        Some((hash, pointer)) => hash@ == claim.hash@ && ev.claim_pointer == Some(pointer),
        None => true,
    }
}

/// The first rule that `b` breaks as a successor of `prev`, in the order the
/// rules are checked.
pub open spec fn first_invalidity(
    b: Block,
    prev: Block,
    rewards: RewardState,
    ev: ClaimEvidence,
) -> Option<InvalidBlockErrorReason> {
    let h = b.header;
    let p = prev.header;
    if h.block_height > p.block_height + 1 {
        Some(InvalidBlockErrorReason::BlockOutOfSequence)
    } else if h.block_height <= p.block_height {
        Some(InvalidBlockErrorReason::NotTallestChain)
    } else if h.block_nonce != p.next_block_nonce {
        Some(InvalidBlockErrorReason::InvalidBlockNonce)
    } else if h.block_reward.category != p.next_block_reward.category {
        Some(InvalidBlockErrorReason::InvalidBlockReward)
    } else if h.block_reward.amount != p.next_block_reward.amount {
        Some(InvalidBlockErrorReason::InvalidBlockReward)
    } else if !pointers_agree(ev, h.claim) {
        Some(InvalidBlockErrorReason::InvalidClaimPointers)
    } else if !rewards.accepts(h.block_reward.category) {
        Some(InvalidBlockErrorReason::InvalidBlockReward)
    } else if !rewards.accepts(h.next_block_reward.category) {
        Some(InvalidBlockErrorReason::InvalidNextBlockReward)
    } else if h.last_hash@ != prev.hash@ {
        Some(InvalidBlockErrorReason::InvalidLastHash)
    } else if !ev.claim_valid {
        Some(InvalidBlockErrorReason::InvalidClaim)
    } else {
        None
    }
}

/// The first rule that `b` breaks as a genesis block.
pub open spec fn first_genesis_invalidity(
    b: Block,
    rewards: RewardState,
    claim_valid: bool,
    signature_valid: bool,
) -> Option<InvalidBlockErrorReason> {
    let h = b.header;
    if h.block_height != 0 {
        Some(InvalidBlockErrorReason::InvalidBlockHeight)
    } else if !rewards.accepts(h.block_reward.category) {
        Some(InvalidBlockErrorReason::InvalidBlockReward)
    } else if !rewards.accepts(h.next_block_reward.category) {
        Some(InvalidBlockErrorReason::InvalidNextBlockReward)
    } else if h.last_hash@ != genesis_last_hash() {
        Some(InvalidBlockErrorReason::InvalidLastHash)
    } else if b.hash@ != genesis_state_hash() {
        Some(InvalidBlockErrorReason::InvalidStateHash)
    } else if !claim_valid {
        Some(InvalidBlockErrorReason::InvalidClaim)
    } else if !signature_valid {
        Some(InvalidBlockErrorReason::InvalidBlockSignature)
    } else if exists|i: int|
        0 <= i < txn_entries(b.txns).len() && !meets_validator_threshold(
            #[trigger] txn_entries(b.txns)[i].1.validators@,
        ) {
        Some(InvalidBlockErrorReason::InvalidTxns)
    } else {
        None
    }
}

/// Every block that passes the genesis rules has height 0 and carries the
/// genesis last hash and the genesis state hash.
pub proof fn lemma_valid_genesis_fields(
    b: Block,
    rewards: RewardState,
    claim_valid: bool,
    signature_valid: bool,
)
    requires
        first_genesis_invalidity(b, rewards, claim_valid, signature_valid) is None,
    ensures
        b.header.block_height == 0,
        b.header.last_hash@ == genesis_last_hash(),
        b.hash@ == genesis_state_hash(),
{
}

/// A block whose header follows `prev` as `Block::mine` builds it passes the
/// successor rules whenever the reward state accepts both of its reward
/// classes and the claim evidence agrees.
pub proof fn lemma_mined_block_is_valid(
    b: Block,
    prev: Block,
    claim: Claim,
    txn_hash: Seq<char>,
    claim_map_hash: Option<String>,
    neighbors_hash: Option<Seq<char>>,
    fresh: FreshHeaderFields,
    rewards: RewardState,
    ev: ClaimEvidence,
)
    requires
        next_header(
            prev.header,
            prev.hash@,
            b.header,
            claim,
            txn_hash,
            claim_map_hash,
            neighbors_hash,
            fresh,
        ),
        pointers_agree(ev, claim),
        ev.claim_valid,
        rewards.accepts(b.header.block_reward.category),
        rewards.accepts(b.header.next_block_reward.category),
    ensures
        first_invalidity(b, prev, rewards, ev) is None,
{
}

pub open spec fn verdict(f: Option<InvalidBlockErrorReason>) -> Result<bool, InvalidBlockError> {
    match f {
        Some(reason) => Err(InvalidBlockError { details: reason }),
        None => Ok(true),
    }
}

fn reject(reason: InvalidBlockErrorReason) -> (r: Result<bool, InvalidBlockError>)
    ensures
        r == verdict(Some(reason)),
{
    Err(InvalidBlockError { details: reason })
}

/// The texts one after the other, as one string.
pub fn join_texts(texts: &Vec<String>) -> (r: String)
    ensures
        r@ == joined(views(texts@)),
{
    let mut out = String::new();
    let mut i: usize = 0;
    while i < texts.len()
        invariant
            i <= texts@.len(),
            out@ == joined(views(texts@.subrange(0, i as int))),
        decreases texts@.len() - i,
    {
        proof {
            assert(views(texts@.subrange(0, i + 1)).drop_last() =~= views(
                texts@.subrange(0, i as int),
            ));
        }
        out.append(texts[i].as_str());
        i = i + 1;
    }
    assert(texts@.subrange(0, i as int) =~= texts@);
    out
}

/// The digest of the texts one after the other.
pub fn hash_texts(texts: &Vec<String>) -> (r: String)
    ensures
        r@ == content_hash(texts@),
{
    let all = join_texts(texts);
    sha256_digest(all.as_str())
}

impl Block {
    /// Builds the height-0 block whose single claim is the founder's.
    pub fn genesis(claim: Claim, genesis_reward: Reward, fresh: FreshHeaderFields) -> (r: Option<
        Block,
    >)
        ensures
            r is Some,
            ({
                let b = r->0;
                &&& b.height == 0
                &&& b.header.block_height == 0
                &&& b.header.block_nonce == 0
                &&& b.header.block_seed == 0
                &&& b.header.last_hash@ == genesis_last_hash()
                &&& b.hash@ == genesis_state_hash()
                &&& b.header.block_reward == genesis_reward
                &&& b.header.next_block_nonce == fresh.next_block_nonce
                &&& b.header.next_block_seed == fresh.next_block_seed
                &&& b.header.next_block_reward == fresh.next_block_reward
                &&& b.header.timestamp == fresh.timestamp
                &&& b.header.signature == fresh.signature
                &&& b.header.claim == claim
                &&& b.header.txn_hash@ == content_hash(Seq::empty())
                &&& b.header.claim_map_hash is None
                &&& b.header.neighbors_hash is None
                &&& txn_entries(b.txns) == Seq::<(Seq<char>, Txn)>::empty()
                &&& claim_entries(b.claims) == seq![(claim.pubkey@, claim)]
                &&& b.neighbors is None
                &&& b.received_at is None
                &&& b.received_from is None
                &&& b.abandoned_claim is None
            }),
    {
        let last_hash = sha256_digest("Genesis_Last_Hash");
        let state_seed = sha256_digest("Genesis_State_Hash");
        let mut state_text = last_hash.clone();
        state_text.append(",");
        state_text.append(state_seed.as_str());
        let state_hash = sha256_digest(state_text.as_str());
        let no_txns: Vec<String> = Vec::new();
        let txn_hash = hash_texts(&no_txns);
        let header = BlockHeader {
            block_height: 0,
            block_nonce: 0,
            next_block_nonce: fresh.next_block_nonce,
            last_hash,
            block_seed: 0,
            next_block_seed: fresh.next_block_seed,
            block_reward: genesis_reward,
            next_block_reward: fresh.next_block_reward,
            claim: claim.duplicate(),
            txn_hash,
            claim_map_hash: None,
            neighbors_hash: None,
            timestamp: fresh.timestamp,
            signature: fresh.signature,
        };
        let mut claims = new_claim_map();
        let key = claim.pubkey.clone();
        claim_map_insert(&mut claims, key, claim);
        proof {
            let e = Seq::<(Seq<char>, Claim)>::empty();
            assert(e.filter(|x: (Seq<char>, Claim)| x.0 != key@) =~= e) by {
                e.lemma_filter_len(|x: (Seq<char>, Claim)| x.0 != key@);
            }
            assert(no_txns@ =~= Seq::<String>::empty());
        }
        let txns = crate::linked::new_txn_map();
        Some(
            Block {
                header,
                neighbors: None,
                height: 0,
                txns,
                claims,
                hash: state_hash,
                received_at: None,
                received_from: None,
                abandoned_claim: None,
            },
        )
    }

    /// Produces the block that follows `last_block`, or `None` when less than
    /// one whole second has passed since it. `txn_texts` are the serialized
    /// transactions in the order of `txns`, and `neighbor_texts` the serialized
    /// neighbor headers; `network_state_hash` is the hash of the network state
    /// folded with these transactions and the block reward.
    pub fn mine(
        claim: Claim,
        last_block: Block,
        txns: TxnMap,
        claims: ClaimMap,
        claim_map_hash: Option<String>,
        txn_texts: &Vec<String>,
        neighbors: Option<Vec<BlockHeader>>,
        neighbor_texts: &Option<Vec<String>>,
        abandoned_claim: Option<Claim>,
        fresh: FreshHeaderFields,
        network_state_hash: String,
    ) -> (r: Option<Block>)
        requires
            last_block.height < u128::MAX,
            last_block.header.block_height < u128::MAX,
        ensures
            r is Some <==> interval_ok(last_block.header.timestamp, fresh.timestamp),
            r is Some ==> ({
                let b = r->0;
                &&& b.height == last_block.height + 1
                &&& next_header(
                    last_block.header,
                    last_block.hash@,
                    b.header,
                    claim,
                    content_hash(txn_texts@),
                    claim_map_hash,
                    match neighbor_texts {
                        Some(t) => Some(content_hash(t@)),
                        None => None,
                    },
                    fresh,
                )
                &&& b.neighbors == neighbors
                &&& b.txns == txns
                &&& b.claims == claims
                &&& b.hash == network_state_hash
                &&& b.received_at is None
                &&& b.received_from is None
                &&& b.abandoned_claim == abandoned_claim
            }),
    {
        let txn_hash = hash_texts(txn_texts);
        let neighbors_hash = match neighbor_texts {
            Some(t) => Some(hash_texts(t)),
            None => None,
        };
        if fresh.timestamp < last_block.header.timestamp {
            return None;
        }
        if (fresh.timestamp - last_block.header.timestamp) / SECOND < 1 {
            return None;
        }
        let prev = last_block.header;
        let header = BlockHeader {
            block_height: prev.block_height + 1,
            block_nonce: prev.next_block_nonce,
            next_block_nonce: fresh.next_block_nonce,
            last_hash: last_block.hash,
            block_seed: prev.next_block_seed,
            next_block_seed: fresh.next_block_seed,
            block_reward: prev.next_block_reward,
            next_block_reward: fresh.next_block_reward,
            claim,
            txn_hash,
            claim_map_hash,
            neighbors_hash,
            timestamp: fresh.timestamp,
            signature: fresh.signature,
        };
        Some(
            Block {
                header,
                neighbors,
                height: last_block.height + 1,
                txns,
                claims,
                hash: network_state_hash,
                received_at: None,
                received_from: None,
                abandoned_claim,
            },
        )
    }

    /// Blocks can always be checked.
    pub fn verifiable(&self) -> (r: bool)
        ensures
            r,
    {
        true
    }

    /// Checks this block as the successor of `prev` and returns the first
    /// rule it breaks.
    pub fn valid(&self, prev: &Block, rewards: &RewardState, evidence: &ClaimEvidence) -> (r: Result<
        bool,
        InvalidBlockError,
    >)
        ensures
            r == verdict(first_invalidity(*self, *prev, *rewards, *evidence)),
    {
        let h = &self.header;
        let p = &prev.header;
        if h.block_height > p.block_height && h.block_height - p.block_height > 1 {
            return reject(InvalidBlockErrorReason::BlockOutOfSequence);
        }
        if h.block_height <= p.block_height {
            return reject(InvalidBlockErrorReason::NotTallestChain);
        }
        if h.block_nonce != p.next_block_nonce {
            return reject(InvalidBlockErrorReason::InvalidBlockNonce);
        }
        if h.block_reward.category != p.next_block_reward.category {
            return reject(InvalidBlockErrorReason::InvalidBlockReward);
        }
        if h.block_reward.get_amount() != p.next_block_reward.get_amount() {
            return reject(InvalidBlockErrorReason::InvalidBlockReward);
        }
        match &evidence.lowest_pointer {
            Some((hash, pointer)) => {
                if *hash != h.claim.hash {
                    return reject(InvalidBlockErrorReason::InvalidClaimPointers);
                }
                match evidence.claim_pointer {
                    Some(own) => {
                        if own != *pointer {
                            return reject(InvalidBlockErrorReason::InvalidClaimPointers);
                        }
                    },
                    None => {
                        return reject(InvalidBlockErrorReason::InvalidClaimPointers);
                    },
                }
            },
            None => {},
        }
        if !rewards.valid_reward(h.block_reward.category) {
            return reject(InvalidBlockErrorReason::InvalidBlockReward);
        }
        if !rewards.valid_reward(h.next_block_reward.category) {
            return reject(InvalidBlockErrorReason::InvalidNextBlockReward);
        }
        if h.last_hash != prev.hash {
            return reject(InvalidBlockErrorReason::InvalidLastHash);
        }
        if !evidence.claim_valid {
            return reject(InvalidBlockErrorReason::InvalidClaim);
        }
        Ok(true)
    }

    /// Checks this block as a genesis block and returns the first rule it
    /// breaks. `claim_valid` and `signature_valid` say whether the header's
    /// claim is internally valid and whether its signature verifies.
    pub fn valid_genesis(&self, rewards: &RewardState, claim_valid: bool, signature_valid: bool) -> (r:
        Result<bool, InvalidBlockError>)
        ensures
            r == verdict(first_genesis_invalidity(*self, *rewards, claim_valid, signature_valid)),
    {
        let genesis_last = sha256_digest("Genesis_Last_Hash");
        let state_seed = sha256_digest("Genesis_State_Hash");
        let mut state_text = genesis_last.clone();
        state_text.append(",");
        state_text.append(state_seed.as_str());
        let genesis_state = sha256_digest(state_text.as_str());
        let h = &self.header;
        if h.block_height != 0 {
            return reject(InvalidBlockErrorReason::InvalidBlockHeight);
        }
        if !rewards.valid_reward(h.block_reward.category) {
            return reject(InvalidBlockErrorReason::InvalidBlockReward);
        }
        if !rewards.valid_reward(h.next_block_reward.category) {
            return reject(InvalidBlockErrorReason::InvalidNextBlockReward);
        }
        if h.last_hash != genesis_last {
            return reject(InvalidBlockErrorReason::InvalidLastHash);
        }
        if self.hash != genesis_state {
            return reject(InvalidBlockErrorReason::InvalidStateHash);
        }
        if !claim_valid {
            return reject(InvalidBlockErrorReason::InvalidClaim);
        }
        if !signature_valid {
            return reject(InvalidBlockErrorReason::InvalidBlockSignature);
        }
        let txns = txn_map_values(&self.txns);
        let ghost entries = txn_entries(self.txns);
        let mut i: usize = 0;
        while i < txns.len()
            invariant
                entries == txn_entries(self.txns),
                self.header.block_height == 0,
                rewards.accepts(self.header.block_reward.category),
                rewards.accepts(self.header.next_block_reward.category),
                self.header.last_hash@ == genesis_last_hash(),
                self.hash@ == genesis_state_hash(),
                claim_valid,
                signature_valid,
                txns@ == entries.map_values(|e: (Seq<char>, Txn)| e.1),
                i <= txns@.len(),
                forall|j: int|
                    0 <= j < i ==> meets_validator_threshold(
                        #[trigger] entries[j].1.validators@,
                    ),
            decreases txns@.len() - i,
        {
            if !txns[i].has_validator_quorum() {
                proof {
                    assert(txns@[i as int] == entries[i as int].1);
                    assert(i < txn_entries(self.txns).len());
                    assert(!meets_validator_threshold(
                        txn_entries(self.txns)[i as int].1.validators@,
                    ));
                    assert(exists|j: int|
                        0 <= j < txn_entries(self.txns).len() && !meets_validator_threshold(
                            #[trigger] txn_entries(self.txns)[j].1.validators@,
                        ));
                }
                return reject(InvalidBlockErrorReason::InvalidTxns);
            }
            proof {
                assert(txns@[i as int] == entries[i as int].1);
            }
            i = i + 1;
        }
        Ok(true)
    }
}

} // verus!

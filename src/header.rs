use vstd::prelude::*;
use crate::claim::Claim;
use crate::reward::Reward;

verus! {

/// The header of a block: what links it to its predecessor and what the
/// next block must carry.
#[derive(Clone, Debug, PartialEq, Eq)]
pub struct BlockHeader {
    pub block_height: u128,
    pub block_nonce: u64,
    pub next_block_nonce: u64,
    pub last_hash: String,
    pub block_seed: u64,
    pub next_block_seed: u64,
    pub block_reward: Reward,
    pub next_block_reward: Reward,
    pub claim: Claim,
    pub txn_hash: String,
    pub claim_map_hash: Option<String>,
    pub neighbors_hash: Option<String>,
    pub timestamp: u128,
    pub signature: String,
}

/// The values of a new header that are drawn afresh by its producer: the
/// clock, the next nonce and seed, the next reward and the producer's
/// signature.
#[derive(Clone, Debug, PartialEq, Eq)]
pub struct FreshHeaderFields {
    pub timestamp: u128,
    pub next_block_nonce: u64,
    pub next_block_seed: u64,
    pub next_block_reward: Reward,
    pub signature: String,
}

} // verus!

use ritelinked::LinkedHashMap;
use vrrb_core_chain::block::{Block, ClaimEvidence, SECOND};
use vrrb_core_chain::claim::{Claim, Eligibility};
use vrrb_core_chain::header::FreshHeaderFields;
use vrrb_core_chain::invalid::{InvalidBlockError, InvalidBlockErrorReason};
use vrrb_core_chain::reward::{Category, Reward, RewardState};
use vrrb_core_chain::txn::Txn;

fn founder() -> Claim {
    Claim {
        pubkey: String::from("founder-pubkey"),
        address: String::from("founder-address"),
        hash: String::from("abc123"),
        eligibility: Eligibility::Miner,
    }
}

fn rewards() -> RewardState {
    RewardState { flakes: 10, grains: 10, nuggets: 10, veins: 10, motherlodes: 10, genesis: 1 }
}

fn fresh(timestamp: u128, nonce: u64) -> FreshHeaderFields {
    FreshHeaderFields {
        timestamp,
        next_block_nonce: nonce,
        next_block_seed: 77,
        next_block_reward: Reward { category: Category::Flake, amount: 20 },
        signature: String::from("sig"),
    }
}

fn genesis_block() -> Block {
    Block::genesis(founder(), Reward { category: Category::Genesis, amount: 1000 }, fresh(1_000 * SECOND, 5))
        .unwrap()
}

fn good_evidence() -> ClaimEvidence {
    ClaimEvidence { lowest_pointer: None, claim_pointer: None, claim_valid: true }
}

fn mine_after(prev: Block, elapsed: u128) -> Option<Block> {
    let start = prev.header.timestamp;
    Block::mine(
        founder(),
        prev,
        LinkedHashMap::new(),
        LinkedHashMap::new(),
        None,
        &vec![],
        None,
        &None,
        None,
        fresh(start + elapsed, 9),
        String::from("state-hash-1"),
    )
}

fn txn_with_votes(id: &str, yes: usize, no: usize) -> Txn {
    let mut validators = vec![];
    for i in 0..yes {
        validators.push((format!("yes{}", i), true));
    }
    for i in 0..no {
        validators.push((format!("no{}", i), false));
    }
    Txn {
        txn_id: String::from(id),
        txn_timestamp: 0,
        sender_address: String::from("aaa1"),
        sender_public_key: String::from("RSA"),
        receiver_address: String::from("bbb1"),
        txn_token: None,
        txn_amount: 0,
        txn_payload: String::from("x"),
        txn_signature: String::from("x"),
        validators,
        nonce: 0,
    }
}

#[test]
fn genesis_acceptance() {
    let g = genesis_block();
    assert_eq!(g.height, 0);
    assert_eq!(g.claims.len(), 1);
    assert_eq!(g.claims.get("founder-pubkey").unwrap().hash, "abc123");
    assert_eq!(g.valid_genesis(&rewards(), true, true), Ok(true));
}

#[test]
fn genesis_hashes_are_the_fixed_digests() {
    let g = genesis_block();
    let last = sha256::digest("Genesis_Last_Hash");
    let state = sha256::digest(format!("{},{}", last, sha256::digest("Genesis_State_Hash")));
    assert_eq!(g.header.last_hash, last);
    assert_eq!(g.hash, state);
    assert_eq!(
        g.header.txn_hash,
        "e3b0c44298fc1c149afbf4c8996fb92427ae41e4649b934ca495991b7852b855"
    );
}

#[test]
fn genesis_rejections() {
    let g = genesis_block();
    let err = |d| Err(InvalidBlockError { details: d });
    assert_eq!(g.valid_genesis(&rewards(), false, true), err(InvalidBlockErrorReason::InvalidClaim));
    assert_eq!(g.valid_genesis(&rewards(), true, false), err(InvalidBlockErrorReason::InvalidBlockSignature));
    let mut no_genesis = rewards();
    no_genesis.genesis = 0;
    assert_eq!(g.valid_genesis(&no_genesis, true, true), err(InvalidBlockErrorReason::InvalidBlockReward));
    let mut no_flakes = rewards();
    no_flakes.flakes = 0;
    assert_eq!(g.valid_genesis(&no_flakes, true, true), err(InvalidBlockErrorReason::InvalidNextBlockReward));
    let mut moved = genesis_block();
    moved.header.block_height = 1;
    assert_eq!(moved.valid_genesis(&rewards(), true, true), err(InvalidBlockErrorReason::InvalidBlockHeight));
    let mut relinked = genesis_block();
    relinked.header.last_hash = String::from("other");
    assert_eq!(relinked.valid_genesis(&rewards(), true, true), err(InvalidBlockErrorReason::InvalidLastHash));
    let mut rehashed = genesis_block();
    rehashed.hash = String::from("other");
    assert_eq!(rehashed.valid_genesis(&rewards(), true, true), err(InvalidBlockErrorReason::InvalidStateHash));
}

#[test]
fn genesis_txn_threshold() {
    let mut g = genesis_block();
    g.txns.insert(String::from("t1"), txn_with_votes("t1", 1, 2));
    assert_eq!(
        g.valid_genesis(&rewards(), true, true),
        Err(InvalidBlockError { details: InvalidBlockErrorReason::InvalidTxns })
    );
    let mut g = genesis_block();
    g.txns.insert(String::from("t1"), txn_with_votes("t1", 2, 1));
    assert_eq!(g.valid_genesis(&rewards(), true, true), Ok(true));
    let mut g = genesis_block();
    g.txns.insert(String::from("t1"), txn_with_votes("t1", 3, 2));
    assert_eq!(g.valid_genesis(&rewards(), true, true), Ok(true));
}

#[test]
fn approval_counts() {
    assert_eq!(txn_with_votes("a", 2, 1).approval_count(), 2);
    assert!(txn_with_votes("a", 0, 0).has_validator_quorum());
    assert!(!txn_with_votes("a", 1, 1).has_validator_quorum());
}

#[test]
fn mine_then_verify() {
    let g = genesis_block();
    let prev_hash = g.hash.clone();
    let prev_next_nonce = g.header.next_block_nonce;
    let b1 = mine_after(genesis_block(), SECOND).unwrap();
    assert_eq!(b1.height, 1);
    assert_eq!(b1.header.block_height, 1);
    assert_eq!(b1.header.last_hash, prev_hash);
    assert_eq!(b1.header.block_nonce, prev_next_nonce);
    assert_eq!(b1.hash, "state-hash-1");
    assert_eq!(b1.valid(&g, &rewards(), &good_evidence()), Ok(true));
    assert!(mine_after(genesis_block(), SECOND / 2).is_none());
}

#[test]
fn mined_txn_hash_covers_texts_in_order() {
    let g = genesis_block();
    let texts = vec![String::from("{\"a\":1}"), String::from("{\"b\":2}")];
    let b1 = Block::mine(
        founder(),
        g,
        LinkedHashMap::new(),
        LinkedHashMap::new(),
        Some(String::from("cm")),
        &texts,
        None,
        &Some(vec![String::from("n1")]),
        None,
        fresh(2_000 * SECOND, 3),
        String::from("s"),
    )
    .unwrap();
    assert_eq!(b1.header.txn_hash, sha256::digest("{\"a\":1}{\"b\":2}"));
    assert_eq!(b1.header.neighbors_hash, Some(sha256::digest("n1")));
    assert_eq!(b1.header.claim_map_hash, Some(String::from("cm")));
}

#[test]
fn reject_height_equal_proposal() {
    let g = genesis_block();
    let mut b1 = mine_after(genesis_block(), SECOND).unwrap();
    b1.header.block_height = g.header.block_height;
    assert_eq!(
        b1.valid(&g, &rewards(), &good_evidence()),
        Err(InvalidBlockError { details: InvalidBlockErrorReason::NotTallestChain })
    );
    b1.header.block_height = 2;
    assert_eq!(
        b1.valid(&g, &rewards(), &good_evidence()),
        Err(InvalidBlockError { details: InvalidBlockErrorReason::BlockOutOfSequence })
    );
}

#[test]
fn reject_stale_nonce() {
    let g = genesis_block();
    let mut b1 = mine_after(genesis_block(), 2 * SECOND).unwrap();
    b1.header.block_nonce = g.header.next_block_nonce + 1;
    assert_eq!(
        b1.valid(&g, &rewards(), &good_evidence()),
        Err(InvalidBlockError { details: InvalidBlockErrorReason::InvalidBlockNonce })
    );
}

#[test]
fn successor_rejections() {
    let g = genesis_block();
    let err = |d| Err(InvalidBlockError { details: d });
    let b1 = mine_after(genesis_block(), SECOND).unwrap();
    let wrong_owner = ClaimEvidence {
        lowest_pointer: Some((String::from("someone-else"), 4)),
        claim_pointer: Some(4),
        claim_valid: true,
    };
    assert_eq!(b1.valid(&g, &rewards(), &wrong_owner), err(InvalidBlockErrorReason::InvalidClaimPointers));
    let wrong_pointer = ClaimEvidence {
        lowest_pointer: Some((String::from("abc123"), 4)),
        claim_pointer: Some(5),
        claim_valid: true,
    };
    assert_eq!(b1.valid(&g, &rewards(), &wrong_pointer), err(InvalidBlockErrorReason::InvalidClaimPointers));
    let agreeing = ClaimEvidence {
        lowest_pointer: Some((String::from("abc123"), 4)),
        claim_pointer: Some(4),
        claim_valid: true,
    };
    assert_eq!(b1.valid(&g, &rewards(), &agreeing), Ok(true));
    let bad_claim = ClaimEvidence { lowest_pointer: None, claim_pointer: None, claim_valid: false };
    assert_eq!(b1.valid(&g, &rewards(), &bad_claim), err(InvalidBlockErrorReason::InvalidClaim));
    let mut no_genesis = rewards();
    no_genesis.genesis = 0;
    let mut b2 = mine_after(genesis_block(), SECOND).unwrap();
    b2.header.block_reward.amount = 1;
    assert_eq!(b2.valid(&g, &rewards(), &good_evidence()), err(InvalidBlockErrorReason::InvalidBlockReward));
    let mut b3 = mine_after(genesis_block(), SECOND).unwrap();
    b3.header.last_hash = String::from("elsewhere");
    assert_eq!(b3.valid(&g, &rewards(), &good_evidence()), err(InvalidBlockErrorReason::InvalidLastHash));
    let mut no_flakes = rewards();
    no_flakes.flakes = 0;
    assert_eq!(b1.valid(&g, &no_flakes, &good_evidence()), err(InvalidBlockErrorReason::InvalidBlockReward));
    let mut b4 = mine_after(genesis_block(), SECOND).unwrap();
    b4.header.next_block_reward.category = Category::Grain;
    let mut no_grains = rewards();
    no_grains.grains = 0;
    assert_eq!(b4.valid(&g, &no_grains, &good_evidence()), err(InvalidBlockErrorReason::InvalidNextBlockReward));
    assert_eq!(b1.valid(&g, &no_genesis, &good_evidence()), Ok(true));
}

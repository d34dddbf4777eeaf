use vrrb_core_chain::claim::{Claim, Eligibility};
use vrrb_core_chain::election::{
    elect_miner, get_winner, run_miner_election, text_precedes, ElectionError, ElectionScore,
};

fn claim(hash: &str, eligibility: Eligibility) -> Claim {
    Claim {
        pubkey: format!("pk-{}", hash),
        address: format!("addr-{}", hash),
        hash: String::from(hash),
        eligibility,
    }
}

fn score(v: u128) -> ElectionScore {
    ElectionScore { high: 0, low: v }
}

#[test]
fn miner_election() {
    // Results of get_election_result(0xDEAD_BEEF) for each of the four claims.
    let claims = vec![
        claim("c1", Eligibility::Miner),
        claim("c2", Eligibility::Miner),
        claim("c3", Eligibility::Miner),
        claim("c4", Eligibility::Miner),
    ];
    let scores = vec![score(900), score(40), ElectionScore { high: 1, low: 0 }, score(41)];
    let winner = get_winner(&elect_miner(&claims, &scores)).unwrap();
    assert_eq!(winner.1.hash, "c2");
    assert_eq!(winner.0, score(40));

    let permuted_claims = vec![claims[3].clone(), claims[2].clone(), claims[1].clone(), claims[0].clone()];
    let permuted_scores = vec![scores[3], scores[2], scores[1], scores[0]];
    let again = get_winner(&elect_miner(&permuted_claims, &permuted_scores)).unwrap();
    assert_eq!(again, winner);
}

#[test]
fn only_miners_stand() {
    let claims = vec![claim("h", Eligibility::Harvester), claim("m", Eligibility::Miner)];
    let scores = vec![score(1), score(5)];
    let candidates = elect_miner(&claims, &scores);
    assert_eq!(candidates.len(), 1);
    assert_eq!(candidates[0].1.hash, "m");
    assert_eq!(get_winner(&candidates).unwrap().0, score(5));
}

#[test]
fn no_eligible_miner() {
    let claims = vec![claim("f", Eligibility::Farmer)];
    assert!(get_winner(&elect_miner(&claims, &vec![score(1)])).is_none());
    assert!(get_winner(&vec![]).is_none());
}

#[test]
fn ties_go_to_smaller_hash() {
    let candidates = vec![(score(7), claim("bb", Eligibility::Miner)), (score(7), claim("ba", Eligibility::Miner))];
    assert_eq!(get_winner(&candidates).unwrap().1.hash, "ba");
    let reversed = vec![candidates[1].clone(), candidates[0].clone()];
    assert_eq!(get_winner(&reversed).unwrap().1.hash, "ba");
}

#[test]
fn text_order() {
    assert!(text_precedes(&String::from("ab"), &String::from("b")));
    assert!(text_precedes(&String::from("a"), &String::from("ab")));
    assert!(!text_precedes(&String::from("ab"), &String::from("ab")));
    assert!(!text_precedes(&String::from("b"), &String::from("a")));
}

#[test]
fn score_order_uses_high_half_first() {
    let a = ElectionScore { high: 1, low: 0 };
    let b = ElectionScore { high: 0, low: u128::MAX };
    assert!(b.lt(&a));
    assert!(!a.lt(&b));
}

#[test]
fn election_reports_no_eligible_miner() {
    let claims = vec![claim("f", Eligibility::Farmer), claim("h", Eligibility::Harvester)];
    assert_eq!(run_miner_election(&claims, &vec![score(1), score(2)]), Err(ElectionError::NoEligibleMiner));
    let claims = vec![claim("f", Eligibility::Farmer), claim("m", Eligibility::Miner)];
    assert_eq!(run_miner_election(&claims, &vec![score(1), score(2)]).unwrap().1.hash, "m");
}

#[test]
fn full_ties_go_to_the_earliest_candidate() {
    let mut first = claim("same", Eligibility::Miner);
    first.address = String::from("first-address");
    let mut second = claim("same", Eligibility::Miner);
    second.address = String::from("second-address");
    let candidates = vec![(score(4), first), (score(4), second)];
    assert_eq!(get_winner(&candidates).unwrap().1.address, "first-address");
}

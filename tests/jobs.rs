use vrrb_core_chain::scheduler::{
    certify_decision, collect_sig_shares, farm_votes, is_validated, CertifyDecision, Vote,
    VOTE_QUORUM_THRESHOLD,
};
use vrrb_core_chain::txn::Txn;

fn txn(id: &str) -> Txn {
    Txn {
        txn_id: String::from(id),
        txn_timestamp: 0,
        sender_address: String::from("aaa1"),
        sender_public_key: String::from("RSA"),
        receiver_address: String::from("bbb1"),
        txn_token: None,
        txn_amount: 3,
        txn_payload: String::from("x"),
        txn_signature: String::from("x"),
        validators: vec![],
        nonce: 0,
    }
}

fn vote(node: u16, sig: u8, id: &str) -> Vote {
    Vote {
        farmer_id: vec![1],
        farmer_node_id: node,
        signature: vec![sig],
        txn: txn(id),
        quorum_public_key: vec![9],
        quorum_threshold: VOTE_QUORUM_THRESHOLD,
        execution_result: None,
    }
}

#[test]
fn farm_votes_leave_holes() {
    let votes = farm_votes(
        vec![txn("a"), txn("b"), txn("c")],
        vec![Some(vec![1, 2]), None, Some(vec![3])],
        &vec![7],
        5,
        &vec![8, 8],
    );
    assert_eq!(votes.len(), 3);
    let first = votes[0].as_ref().unwrap();
    assert_eq!(first.txn.txn_id, "a");
    assert_eq!(first.signature, vec![1, 2]);
    assert_eq!(first.farmer_id, vec![7]);
    assert_eq!(first.farmer_node_id, 5);
    assert_eq!(first.quorum_public_key, vec![8, 8]);
    assert_eq!(first.quorum_threshold, 2);
    assert!(votes[1].is_none());
    assert_eq!(votes[2].as_ref().unwrap().txn.txn_id, "c");
}

#[test]
fn later_vote_of_a_node_wins() {
    let shares = collect_sig_shares(&vec![vote(2, 10, "t"), vote(1, 11, "t"), vote(2, 12, "t")]);
    assert_eq!(shares.len(), 2);
    assert_eq!(shares[&1], vec![11]);
    assert_eq!(shares[&2], vec![12]);
}

#[test]
fn certify_validated_or_penalize() {
    let votes = vec![vote(0, 1, "t"), vote(3, 4, "t")];
    assert!(is_validated(&vec![txn("s"), txn("t")], &txn("t")));
    match certify_decision(&votes, &vec![txn("t")], &txn("t")) {
        CertifyDecision::Aggregate(shares) => {
            assert_eq!(shares.keys().copied().collect::<Vec<u16>>(), vec![0, 3]);
        },
        CertifyDecision::Penalize => panic!("a validated transaction is certified"),
    }
    assert_eq!(certify_decision(&votes, &vec![txn("s")], &txn("t")), CertifyDecision::Penalize);
    assert_eq!(certify_decision(&votes, &vec![], &txn("t")), CertifyDecision::Penalize);
}

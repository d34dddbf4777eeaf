use std::collections::BTreeMap;
use vrrb_core_chain::dkg::{
    acks_verdict, generate_dkg_engine_with_states, generate_dkg_engines, generate_key_sets, AckHandling,
    DkgError, DkgResult,
};

#[test]
fn key_sets_cover_every_node() {
    let (secret_keys, public_keys) = generate_key_sets(4);
    assert_eq!(secret_keys.len(), 4);
    assert_eq!(public_keys.keys().copied().collect::<Vec<u16>>(), vec![0, 1, 2, 3]);
    assert_eq!(public_keys[&2], secret_keys[2].public_key());
}

#[test]
fn fresh_engines_are_empty() {
    let engines = generate_dkg_engines(4);
    assert_eq!(engines.len(), 4);
    for (i, e) in engines.iter().enumerate() {
        assert_eq!(e.node_idx as usize, i);
        assert!(e.dkg_state.part_message_store.is_empty());
        assert!(e.dkg_state.ack_message_store.is_empty());
        assert_eq!(e.dkg_state.peer_public_keys.len(), 4);
    }
}

#[test]
fn missing_part_and_missing_instance() {
    let mut engines = generate_dkg_engines(4);
    let mut e = engines.remove(0);
    assert_eq!(e.ack_partial_commitment(1).err(), Some(DkgError::MissingPart));
    assert_eq!(e.handle_ack_messages().err(), Some(DkgError::SyncKeyGenInstanceNotCreated));
    assert_eq!(e.generate_key_sets().err(), Some(DkgError::SyncKeyGenInstanceNotCreated));
    e.threshold_config.threshold = 5;
    assert_eq!(e.generate_sync_keygen_instance().err(), Some(DkgError::ThresholdMisconfigured));
}

#[test]
fn dkg_four_of_four() {
    let engines = generate_dkg_engine_with_states().expect("the session runs to the end");
    assert_eq!(engines.len(), 4);
    for e in engines.iter() {
        assert_eq!(e.dkg_state.part_message_store.len() + 1, 4);
        assert_eq!(e.dkg_state.ack_message_store.len(), 4 * 3);
        assert!(e.dkg_state.part_message_store.iter().all(|(s, _)| *s != e.node_idx));
        let keys: Vec<(u16, u16)> = e.dkg_state.ack_message_store.iter().map(|(k, _)| *k).collect();
        assert!(keys.iter().all(|(s, a)| s != a && *s < 4 && *a < 4));
    }
    let pk_set = engines[0].dkg_state.public_key_set.clone().unwrap();
    for e in engines.iter() {
        assert_eq!(e.dkg_state.public_key_set.clone().unwrap(), pk_set);
    }
    let msg = b"certify this transaction";
    let mut shares = BTreeMap::new();
    for e in engines.iter().skip(1) {
        let share = e.dkg_state.secret_key_share.as_ref().unwrap();
        let sig_share = share.sign(msg);
        assert!(pk_set.public_key_share(e.node_idx as usize).verify(&sig_share, msg));
        shares.insert(e.node_idx as usize, sig_share);
    }
    let sig = pk_set.combine_signatures(&shares).unwrap();
    assert!(pk_set.public_key().verify(&sig, msg));
}

#[test]
fn ack_verdicts_report_the_first_failure() {
    assert!(matches!(acks_verdict(&vec![AckHandling::Valid, AckHandling::Valid]), Ok(DkgResult::AllAcksHandled)));
    assert!(matches!(acks_verdict(&vec![]), Ok(DkgResult::AllAcksHandled)));
    assert_eq!(
        acks_verdict(&vec![AckHandling::Valid, AckHandling::Failed, AckHandling::Faulty]).err(),
        Some(DkgError::KeyGenFailed)
    );
    assert_eq!(acks_verdict(&vec![AckHandling::Faulty, AckHandling::Failed]).err(), Some(DkgError::MalformedMessage));
}

#[test]
fn keys_step_outcomes() {
    let mut engines = generate_dkg_engines(4);
    let mut e = engines.remove(0);
    assert_eq!(e.keys_step(false, None).err(), Some(DkgError::MissingAck));
    assert_eq!(e.keys_step(true, None).err(), Some(DkgError::KeyGenFailed));
    assert!(e.dkg_state.public_key_set.is_none());
}

use vstd::prelude::*;
use std::collections::BTreeMap;
use hbbft::crypto::{PublicKey, PublicKeySet, SecretKey, SecretKeyShare};
use hbbft::sync_key_gen::{Ack, AckOutcome, Part, PartOutcome, SyncKeyGen};

verus! {

broadcast use vstd::laws_cmp::group_laws_cmp;

/// Committee size and fault threshold of a key-generation session.
#[derive(Clone, Copy, Debug, PartialEq, Eq, Structural)]
pub struct ThresholdConfig {
    pub upper_bound: u16,
    pub threshold: u16,
}

impl ThresholdConfig {
    /// A configuration is usable when `0 < threshold < upper_bound`.
    pub open spec fn spec_is_valid(self) -> bool {
        0 < self.threshold < self.upper_bound
    }

    pub fn is_valid(&self) -> (r: bool)
        ensures
            r == self.spec_is_valid(),
    {
        0 < self.threshold && self.threshold < self.upper_bound
    }
}

/// A four-node committee that tolerates one faulty member.
pub fn valid_threshold_config() -> (r: ThresholdConfig)
    ensures
        r.upper_bound == 4,
        r.threshold == 1,
        r.spec_is_valid(),
{
    ThresholdConfig { upper_bound: 4, threshold: 1 }
}

/// A four-node committee whose threshold exceeds its size.
pub fn invalid_threshold_config() -> (r: ThresholdConfig)
    ensures
        r.upper_bound == 4,
        r.threshold == 5,
        !r.spec_is_valid(),
{
    ThresholdConfig { upper_bound: 4, threshold: 5 }
}

#[verifier::external_type_specification]
#[verifier::external_body]
pub struct ExSecretKey(SecretKey);

#[verifier::external_type_specification]
#[verifier::external_body]
pub struct ExPublicKey(PublicKey);

#[verifier::external_type_specification]
#[verifier::external_body]
pub struct ExPublicKeySet(PublicKeySet);

#[verifier::external_type_specification]
#[verifier::external_body]
pub struct ExSecretKeyShare(SecretKeyShare);

#[verifier::external_type_specification]
#[verifier::external_body]
pub struct ExPart(Part);

#[verifier::external_type_specification]
#[verifier::external_body]
pub struct ExAck(Ack);

#[verifier::external_type_specification]
#[verifier::external_body]
#[verifier::reject_recursive_types(N)]
pub struct ExSyncKeyGen<N>(SyncKeyGen<N>);

/// Relies on the derived `Clone` of `hbbft::sync_key_gen::Part`: the copy is
/// the same message.
pub assume_specification[ <Part as Clone>::clone ](p: &Part) -> (r: Part)
    ensures
        r == *p,
;

/// Relies on the derived `Clone` of `hbbft::sync_key_gen::Ack`: the copy is
/// the same message.
pub assume_specification[ <Ack as Clone>::clone ](a: &Ack) -> (r: Ack)
    ensures
        r == *a,
;

/// What happened to a part handed to the key generator.
pub enum PartHandling {
    /// The part is valid and this is our acknowledgement of it.
    Acked(Ack),
    /// The part is valid but yields no acknowledgement (already handled).
    NoAck,
    /// The part is faulty.
    Faulty,
    /// The key generator failed.
    Failed,
}

/// What happened to an acknowledgement handed to the key generator.
#[derive(Clone, Copy, Debug, PartialEq, Eq, Structural)]
pub enum AckHandling {
    Valid,
    Faulty,
    Failed,
}

/// Relies on `rand::random` with threshold_crypto's distribution of secret keys.
#[verifier::external_body]
fn random_secret_key() -> (r: SecretKey) {
    rand::random()
}

/// Relies on `SecretKey::public_key`.
#[verifier::external_body]
fn public_key_of(sk: &SecretKey) -> (r: PublicKey) {
    sk.public_key()
}

/// Relies on `SecretKey`'s `Clone`.
#[verifier::external_body]
fn copy_secret_key(sk: &SecretKey) -> (r: SecretKey) {
    sk.clone()
}

/// Relies on `SyncKeyGen::new`, drawing its randomness from the thread's
/// generator: a node listed among the public keys gets a part to multicast.
/// It fails only when a row cannot be serialized.
#[verifier::external_body]
fn start_key_gen(
    our_id: u16,
    sec_key: SecretKey,
    pub_keys: &BTreeMap<u16, PublicKey>,
    threshold: usize,
) -> (r: Option<(SyncKeyGen<u16>, Option<Part>)>)
    ensures
        pub_keys@.dom().contains(our_id) ==> match r {
            Some((_, part)) => part is Some,
            None => true,
        },
{
    SyncKeyGen::new(our_id, sec_key, pub_keys.clone(), threshold, &mut rand::thread_rng()).ok()
}

/// Relies on `SyncKeyGen::handle_part`, drawing its randomness from the
/// thread's generator.
#[verifier::external_body]
fn key_gen_handle_part(kg: &mut SyncKeyGen<u16>, sender: u16, part: Part) -> (r: PartHandling) {
    match kg.handle_part(&sender, part, &mut rand::thread_rng()) {
        Ok(PartOutcome::Valid(Some(ack))) => PartHandling::Acked(ack),
        Ok(PartOutcome::Valid(None)) => PartHandling::NoAck,
        Ok(PartOutcome::Invalid(_)) => PartHandling::Faulty,
        Err(_) => PartHandling::Failed,
    }
}

/// Relies on `SyncKeyGen::handle_ack`.
#[verifier::external_body]
fn key_gen_handle_ack(kg: &mut SyncKeyGen<u16>, sender: u16, ack: Ack) -> (r: AckHandling) {
    match kg.handle_ack(&sender, ack) {
        Ok(AckOutcome::Valid) => AckHandling::Valid,
        Ok(AckOutcome::Invalid(_)) => AckHandling::Faulty,
        Err(_) => AckHandling::Failed,
    }
}

/// Relies on `SyncKeyGen::is_ready`: more than `threshold` parts are complete.
#[verifier::external_body]
fn key_gen_is_ready(kg: &SyncKeyGen<u16>) -> (r: bool) {
    kg.is_ready()
}

/// Relies on `SyncKeyGen::generate`.
#[verifier::external_body]
fn key_gen_generate(kg: &SyncKeyGen<u16>) -> (r: Option<(PublicKeySet, Option<SecretKeyShare>)>) {
    kg.generate().ok()
}

/// What a step of the session produced.
pub enum DkgResult {
    PartMessageGenerated(u16, Part),
    PartMessageAcknowledged,
    AllAcksHandled,
    KeySetsGenerated,
}

/// Why a step of the session failed.
#[derive(Clone, Copy, Debug, PartialEq, Eq, Structural)]
pub enum DkgError {
    MissingPart,
    MissingAck,
    MalformedMessage,
    ThresholdMisconfigured,
    KeyGenFailed,
    SyncKeyGenInstanceNotCreated,
}

/// One node's view of a key-generation session.
pub struct DkgState {
    /// The parts received from the other nodes, by sender index.
    pub part_message_store: Vec<(u16, Part)>,
    /// The acknowledgements known to this node, by (part sender, acker).
    pub ack_message_store: Vec<((u16, u16), Ack)>,
    pub peer_public_keys: BTreeMap<u16, PublicKey>,
    pub public_key_set: Option<PublicKeySet>,
    pub secret_key_share: Option<SecretKeyShare>,
    pub sync_key_gen: Option<SyncKeyGen<u16>>,
    pub secret_key: SecretKey,
}

/// A node taking part in key generation.
pub struct DkgEngine {
    pub node_idx: u16,
    pub threshold_config: ThresholdConfig,
    pub dkg_state: DkgState,
}

pub open spec fn part_senders(store: Seq<(u16, Part)>) -> Seq<u16> {
    store.map_values(|e: (u16, Part)| e.0)
}

pub open spec fn ack_keys(store: Seq<((u16, u16), Ack)>) -> Seq<(u16, u16)> {
    store.map_values(|e: ((u16, u16), Ack)| e.0)
}

/// Adds an acknowledgement to a store unless one with the same key is there.
fn push_ack(store: &mut Vec<((u16, u16), Ack)>, key: (u16, u16), ack: Ack) -> (r: bool)
    requires
        ack_keys(old(store)@).no_duplicates(),
    ensures
        r == !ack_keys(old(store)@).contains(key),
        r ==> final(store)@ == old(store)@.push((key, ack)),
        !r ==> final(store)@ == old(store)@,
        ack_keys(final(store)@).no_duplicates(),
{
    let mut i: usize = 0;
    while i < store.len()
        invariant
            i <= store@.len(),
            store@ == old(store)@,
            ack_keys(old(store)@).no_duplicates(),
            forall|j: int| 0 <= j < i ==> store@[j].0 != key,
        decreases store@.len() - i,
    {
        if store[i].0.0 == key.0 && store[i].0.1 == key.1 {
            proof {
                assert(ack_keys(store@)[i as int] == key);
            }
            return false;
        }
        i = i + 1;
    }
    proof {
        assert(!ack_keys(store@).contains(key)) by {
            if ack_keys(store@).contains(key) {
                let j = choose|j: int| 0 <= j < ack_keys(store@).len() && ack_keys(store@)[j] == key;
                assert(store@[j].0 == key);
            }
        }
    }
    let ghost before = store@;
    store.push((key, ack));
    proof {
        assert(ack_keys(store@) =~= ack_keys(before).push(key));
    }
    true
}

impl DkgEngine {
    /// No sender is stored twice and a node never stores its own part.
    pub open spec fn wf(self) -> bool {
        &&& part_senders(self.dkg_state.part_message_store@).no_duplicates()
        &&& !part_senders(self.dkg_state.part_message_store@).contains(self.node_idx)
        &&& ack_keys(self.dkg_state.ack_message_store@).no_duplicates()
    }

    /// Stores the part that `sender` multicast. A node's own part, and a
    /// second part from the same sender, are refused.
    pub fn store_part(&mut self, sender: u16, part: Part) -> (r: bool)
        requires
            old(self).wf(),
        ensures
            final(self).wf(),
            r == (sender != old(self).node_idx && !part_senders(
                old(self).dkg_state.part_message_store@,
            ).contains(sender)),
            r ==> final(self).dkg_state.part_message_store@
                == old(self).dkg_state.part_message_store@.push((sender, part)),
            !r ==> final(self).dkg_state.part_message_store@
                == old(self).dkg_state.part_message_store@,
            final(self).dkg_state.ack_message_store@ == old(self).dkg_state.ack_message_store@,
            final(self).node_idx == old(self).node_idx,
            final(self).threshold_config == old(self).threshold_config,
            final(self).dkg_state.sync_key_gen == old(self).dkg_state.sync_key_gen,
    {
        if sender == self.node_idx {
            return false;
        }
        match self.find_part(sender) {
            Some(_) => false,
            None => {
                let ghost before = self.dkg_state.part_message_store@;
                self.dkg_state.part_message_store.push((sender, part));
                proof {
                    assert(part_senders(self.dkg_state.part_message_store@) =~= part_senders(
                        before,
                    ).push(sender));
                }
                true
            },
        }
    }

    /// The part stored for `sender`, if any.
    pub fn find_part(&self, sender: u16) -> (r: Option<Part>)
        ensures
            r is Some <==> part_senders(self.dkg_state.part_message_store@).contains(sender),
            r is Some ==> self.dkg_state.part_message_store@.contains((sender, r->0)),
    {
        let store = &self.dkg_state.part_message_store;
        let mut i: usize = 0;
        while i < store.len()
            invariant
                i <= store@.len(),
                store@ == self.dkg_state.part_message_store@,
                forall|j: int| 0 <= j < i ==> store@[j].0 != sender,
            decreases store@.len() - i,
        {
            if store[i].0 == sender {
                let p = store[i].1.clone();
                proof {
                    assert(part_senders(store@)[i as int] == sender);
                    assert(store@[i as int] == (sender, p));
                    assert(store@.contains((sender, p)));
                    assert(part_senders(store@).contains(sender));
                }
                return Some(p);
            }
            i = i + 1;
        }
        proof {
            if part_senders(store@).contains(sender) {
                let j = choose|j: int| 0 <= j < part_senders(store@).len() && part_senders(store@)[j] == sender;
                assert(store@[j].0 == sender);
            }
        }
        None
    }

    /// Stores an acknowledgement by `acker` of the part of `sender`, unless
    /// one is already stored for that pair.
    pub fn store_ack(&mut self, sender: u16, acker: u16, ack: Ack) -> (r: bool)
        requires
            old(self).wf(),
        ensures
            final(self).wf(),
            r == !ack_keys(old(self).dkg_state.ack_message_store@).contains((sender, acker)),
            r ==> final(self).dkg_state.ack_message_store@
                == old(self).dkg_state.ack_message_store@.push(((sender, acker), ack)),
            !r ==> final(self).dkg_state.ack_message_store@
                == old(self).dkg_state.ack_message_store@,
            final(self).dkg_state.part_message_store@ == old(self).dkg_state.part_message_store@,
            final(self).node_idx == old(self).node_idx,
            final(self).threshold_config == old(self).threshold_config,
            final(self).dkg_state.sync_key_gen == old(self).dkg_state.sync_key_gen,
    {
        push_ack(&mut self.dkg_state.ack_message_store, (sender, acker), ack)
    }

    /// Keeps the key generator `kg`, whose part is `part`, once it has
    /// accepted the node's own part and acknowledgement. `own_ack` is what
    /// the generator said of that acknowledgement, or `None` when the own part
    /// yielded none. The generator is kept exactly when it said `Valid`.
    pub fn install_key_gen(&mut self, kg: SyncKeyGen<u16>, part: Part, own_ack: Option<AckHandling>) -> (r:
        Result<DkgResult, DkgError>)
        requires
            old(self).wf(),
        ensures
            final(self).wf(),
            final(self).node_idx == old(self).node_idx,
            final(self).threshold_config == old(self).threshold_config,
            final(self).dkg_state.part_message_store@ == old(self).dkg_state.part_message_store@,
            final(self).dkg_state.ack_message_store@ == old(self).dkg_state.ack_message_store@,
            own_ack == Some(AckHandling::Valid) ==> r == Ok::<DkgResult, DkgError>(
                DkgResult::PartMessageGenerated(old(self).node_idx, part),
            ) && final(self).dkg_state.sync_key_gen == Some(kg),
            own_ack != Some(AckHandling::Valid) ==> r == Err::<DkgResult, DkgError>(
                DkgError::KeyGenFailed,
            ) && final(self).dkg_state.sync_key_gen == old(self).dkg_state.sync_key_gen,
    {
        match own_ack {
            Some(AckHandling::Valid) => {
                self.dkg_state.sync_key_gen = Some(kg);
                Ok(DkgResult::PartMessageGenerated(self.node_idx, part))
            },
            _ => Err(DkgError::KeyGenFailed),
        }
    }

    /// Starts this node's key generator, from its index, its secret key, the
    /// peers' public keys and the configured threshold, and returns the part
    /// it multicasts. The node's own part is handled, and acknowledged, at once.
    pub fn generate_sync_keygen_instance(&mut self) -> (r: Result<DkgResult, DkgError>)
        requires
            old(self).wf(),
        ensures
            final(self).wf(),
            final(self).node_idx == old(self).node_idx,
            final(self).threshold_config == old(self).threshold_config,
            final(self).dkg_state.part_message_store@ == old(self).dkg_state.part_message_store@,
            final(self).dkg_state.ack_message_store@ == old(self).dkg_state.ack_message_store@,
            r is Err ==> final(self).dkg_state.sync_key_gen == old(self).dkg_state.sync_key_gen,
            !old(self).threshold_config.spec_is_valid() ==> r == Err::<DkgResult, DkgError>(
                DkgError::ThresholdMisconfigured,
            ),
            old(self).threshold_config.spec_is_valid() ==> match r {
                Ok(DkgResult::PartMessageGenerated(idx, _)) => idx == old(self).node_idx
                    && final(self).dkg_state.sync_key_gen is Some,
                Ok(_) => false,
                Err(e) => e == DkgError::KeyGenFailed,
            },
    {
        if !self.threshold_config.is_valid() {
            return Err(DkgError::ThresholdMisconfigured);
        }
        let sk = copy_secret_key(&self.dkg_state.secret_key);
        let started = start_key_gen(
            self.node_idx,
            sk,
            &self.dkg_state.peer_public_keys,
            self.threshold_config.threshold as usize,
        );
        match started {
            Some((mut kg, Some(part))) => {
                let own_ack = match key_gen_handle_part(&mut kg, self.node_idx, part.clone()) {
                    PartHandling::Acked(ack) => Some(key_gen_handle_ack(&mut kg, self.node_idx, ack)),
                    _ => None,
                };
                self.install_key_gen(kg, part, own_ack)
            },
            _ => Err(DkgError::KeyGenFailed),
        }
    }

    /// Records what the key generator said of the stored part of `sender`:
    /// an acknowledgement is stored under `(sender, node_idx)` unless one is
    /// there; a faulty part is malformed; anything else is a failure.
    pub fn ack_step(&mut self, sender: u16, outcome: PartHandling) -> (r: Result<DkgResult, DkgError>)
        requires
            old(self).wf(),
        ensures
            final(self).wf(),
            final(self).node_idx == old(self).node_idx,
            final(self).threshold_config == old(self).threshold_config,
            final(self).dkg_state.part_message_store@ == old(self).dkg_state.part_message_store@,
            final(self).dkg_state.sync_key_gen == old(self).dkg_state.sync_key_gen,
            match outcome {
                PartHandling::Acked(a) => r == Ok::<DkgResult, DkgError>(
                    DkgResult::PartMessageAcknowledged,
                ) && final(self).dkg_state.ack_message_store@ == if ack_keys(
                    old(self).dkg_state.ack_message_store@,
                ).contains((sender, old(self).node_idx)) {
                    old(self).dkg_state.ack_message_store@
                } else {
                    old(self).dkg_state.ack_message_store@.push(((sender, old(self).node_idx), a))
                },
                PartHandling::Faulty => r == Err::<DkgResult, DkgError>(DkgError::MalformedMessage)
                    && final(self).dkg_state.ack_message_store@
                    == old(self).dkg_state.ack_message_store@,
                _ => r == Err::<DkgResult, DkgError>(DkgError::KeyGenFailed)
                    && final(self).dkg_state.ack_message_store@
                    == old(self).dkg_state.ack_message_store@,
            },
    {
        match outcome {
            PartHandling::Acked(ack) => {
                let idx = self.node_idx;
                self.store_ack(sender, idx, ack);
                Ok(DkgResult::PartMessageAcknowledged)
            },
            PartHandling::Faulty => Err(DkgError::MalformedMessage),
            _ => Err(DkgError::KeyGenFailed),
        }
    }

    /// Hands the stored part of `sender` to the key generator and stores this
    /// node's acknowledgement of it.
    pub fn ack_partial_commitment(&mut self, sender: u16) -> (r: Result<DkgResult, DkgError>)
        requires
            old(self).wf(),
        ensures
            final(self).dkg_state.sync_key_gen is Some <==> old(self).dkg_state.sync_key_gen is Some,
            final(self).wf(),
            final(self).node_idx == old(self).node_idx,
            final(self).threshold_config == old(self).threshold_config,
            final(self).dkg_state.part_message_store@ == old(self).dkg_state.part_message_store@,
            !part_senders(old(self).dkg_state.part_message_store@).contains(sender) ==> r == Err::<
                DkgResult,
                DkgError,
            >(DkgError::MissingPart),
            part_senders(old(self).dkg_state.part_message_store@).contains(sender)
                && old(self).dkg_state.sync_key_gen is None ==> r == Err::<DkgResult, DkgError>(
                DkgError::SyncKeyGenInstanceNotCreated,
            ),
            match r {
                Ok(DkgResult::PartMessageAcknowledged) => ack_keys(
                    final(self).dkg_state.ack_message_store@,
                ) == if ack_keys(old(self).dkg_state.ack_message_store@).contains(
                    (sender, old(self).node_idx),
                ) {
                    ack_keys(old(self).dkg_state.ack_message_store@)
                } else {
                    ack_keys(old(self).dkg_state.ack_message_store@).push(
                        (sender, old(self).node_idx),
                    )
                },
                Ok(_) => false,
                Err(e) => final(self).dkg_state.ack_message_store@
                    == old(self).dkg_state.ack_message_store@ && (e == DkgError::MissingPart || e
                    == DkgError::SyncKeyGenInstanceNotCreated || e == DkgError::MalformedMessage
                    || e == DkgError::KeyGenFailed),
            },
    {
        let part = match self.find_part(sender) {
            Some(p) => p,
            None => {
                return Err(DkgError::MissingPart);
            },
        };
        let outcome = match &mut self.dkg_state.sync_key_gen {
            Some(kg) => key_gen_handle_part(kg, sender, part),
            None => {
                return Err(DkgError::SyncKeyGenInstanceNotCreated);
            },
        };
        let ghost before = self.dkg_state.ack_message_store@;
        let r = self.ack_step(sender, outcome);
        proof {
            let idx = self.node_idx;
            if r is Ok && !ack_keys(before).contains((sender, idx)) {
                let a = self.dkg_state.ack_message_store@.last().1;
                assert(self.dkg_state.ack_message_store@ == before.push(((sender, idx), a)));
                assert(ack_keys(self.dkg_state.ack_message_store@) =~= ack_keys(before).push(
                    (sender, idx),
                ));
            }
        }
        r
    }

    /// Hands every stored acknowledgement, with its acker, to the key
    /// generator in store order, then judges what it said of them.
    pub fn handle_ack_messages(&mut self) -> (r: Result<DkgResult, DkgError>)
        requires
            old(self).wf(),
        ensures
            final(self).dkg_state.sync_key_gen is Some <==> old(self).dkg_state.sync_key_gen is Some,
            final(self).wf(),
            final(self).node_idx == old(self).node_idx,
            final(self).threshold_config == old(self).threshold_config,
            final(self).dkg_state.part_message_store@ == old(self).dkg_state.part_message_store@,
            final(self).dkg_state.ack_message_store@ == old(self).dkg_state.ack_message_store@,
            final(self).dkg_state.public_key_set == old(self).dkg_state.public_key_set,
            old(self).dkg_state.sync_key_gen is None ==> r == Err::<DkgResult, DkgError>(
                DkgError::SyncKeyGenInstanceNotCreated,
            ),
            match r {
                Ok(DkgResult::AllAcksHandled) => true,
                Ok(_) => false,
                Err(e) => e == DkgError::SyncKeyGenInstanceNotCreated || e
                    == DkgError::MalformedMessage || e == DkgError::KeyGenFailed,
            },
    {
        let mut kg = match self.dkg_state.sync_key_gen.take() {
            Some(kg) => kg,
            None => {
                return Err(DkgError::SyncKeyGenInstanceNotCreated);
            },
        };
        let mut outcomes: Vec<AckHandling> = Vec::new();
        let mut i: usize = 0;
        while i < self.dkg_state.ack_message_store.len()
            invariant
                i <= self.dkg_state.ack_message_store@.len(),
            decreases self.dkg_state.ack_message_store@.len() - i,
        {
            let acker = self.dkg_state.ack_message_store[i].0.1;
            let ack = self.dkg_state.ack_message_store[i].1.clone();
            outcomes.push(key_gen_handle_ack(&mut kg, acker, ack));
            i = i + 1;
        }
        self.dkg_state.sync_key_gen = Some(kg);
        proof {
            lemma_first_ack_failure_kinds(outcomes@);
        }
        acks_verdict(&outcomes)
    }

    /// Records the outcome of key derivation: `ready` is whether enough parts
    /// were complete, and `generated` what derivation returned. Not ready
    /// means acknowledgements are missing and nothing changes; a failed
    /// derivation changes nothing either; otherwise the keys are kept.
    pub fn keys_step(
        &mut self,
        ready: bool,
        generated: Option<(PublicKeySet, Option<SecretKeyShare>)>,
    ) -> (r: Result<DkgResult, DkgError>)
        requires
            old(self).wf(),
        ensures
            final(self).wf(),
            final(self).node_idx == old(self).node_idx,
            final(self).threshold_config == old(self).threshold_config,
            final(self).dkg_state.part_message_store@ == old(self).dkg_state.part_message_store@,
            final(self).dkg_state.ack_message_store@ == old(self).dkg_state.ack_message_store@,
            final(self).dkg_state.sync_key_gen == old(self).dkg_state.sync_key_gen,
            !ready ==> r == Err::<DkgResult, DkgError>(DkgError::MissingAck),
            ready && generated is None ==> r == Err::<DkgResult, DkgError>(DkgError::KeyGenFailed),
            r is Err ==> final(self).dkg_state.public_key_set == old(self).dkg_state.public_key_set
                && final(self).dkg_state.secret_key_share == old(self).dkg_state.secret_key_share,
            ready ==> match generated {
                Some((p, s)) => r == Ok::<DkgResult, DkgError>(DkgResult::KeySetsGenerated)
                    && final(self).dkg_state.public_key_set == Some(p)
                    && final(self).dkg_state.secret_key_share == s,
                None => true,
            },
    {
        if !ready {
            return Err(DkgError::MissingAck);
        }
        match generated {
            Some((pks, sks)) => {
                self.dkg_state.public_key_set = Some(pks);
                self.dkg_state.secret_key_share = sks;
                Ok(DkgResult::KeySetsGenerated)
            },
            None => Err(DkgError::KeyGenFailed),
        }
    }

    /// Derives this node's key share and the common public key set, once
    /// enough parts are complete.
    pub fn generate_key_sets(&mut self) -> (r: Result<DkgResult, DkgError>)
        requires
            old(self).wf(),
        ensures
            final(self).dkg_state.sync_key_gen is Some <==> old(self).dkg_state.sync_key_gen is Some,
            final(self).wf(),
            final(self).node_idx == old(self).node_idx,
            final(self).threshold_config == old(self).threshold_config,
            final(self).dkg_state.part_message_store@ == old(self).dkg_state.part_message_store@,
            final(self).dkg_state.ack_message_store@ == old(self).dkg_state.ack_message_store@,
            old(self).dkg_state.sync_key_gen is None ==> r == Err::<DkgResult, DkgError>(
                DkgError::SyncKeyGenInstanceNotCreated,
            ),
            match r {
                Ok(DkgResult::KeySetsGenerated) => final(self).dkg_state.public_key_set is Some,
                Ok(_) => false,
                Err(e) => e == DkgError::SyncKeyGenInstanceNotCreated || e == DkgError::MissingAck
                    || e == DkgError::KeyGenFailed,
            },
    {
        let (ready, generated) = match &self.dkg_state.sync_key_gen {
            Some(kg) => {
                let ready = key_gen_is_ready(kg);
                let generated = if ready {
                    key_gen_generate(kg)
                } else {
                    None
                };
                (ready, generated)
            },
            None => {
                return Err(DkgError::SyncKeyGenInstanceNotCreated);
            },
        };
        self.keys_step(ready, generated)
    }
}

/// The first failure among the key generator's verdicts on a run of
/// acknowledgements: a faulty one is malformed, a failed one a failure.
pub open spec fn first_ack_failure(outcomes: Seq<AckHandling>) -> Option<DkgError>
    decreases outcomes.len(),
{
    if outcomes.len() == 0 {
        None
    } else {
        match outcomes[0] {
            AckHandling::Valid => first_ack_failure(outcomes.drop_first()),
            AckHandling::Faulty => Some(DkgError::MalformedMessage),
            AckHandling::Failed => Some(DkgError::KeyGenFailed),
        }
    }
}

proof fn lemma_first_ack_failure_kinds(outcomes: Seq<AckHandling>)
    ensures
        first_ack_failure(outcomes) is None || first_ack_failure(outcomes) == Some(
            DkgError::MalformedMessage,
        ) || first_ack_failure(outcomes) == Some(DkgError::KeyGenFailed),
    decreases outcomes.len(),
{
    if outcomes.len() > 0 {
        lemma_first_ack_failure_kinds(outcomes.drop_first());
    }
}

/// The result of handling a run of acknowledgements, from what the key
/// generator said of each, in order: all valid, or the first failure.
pub fn acks_verdict(outcomes: &Vec<AckHandling>) -> (r: Result<DkgResult, DkgError>)
    ensures
        r == match first_ack_failure(outcomes@) {
            Some(e) => Err::<DkgResult, DkgError>(e),
            None => Ok(DkgResult::AllAcksHandled),
        },
{
    let mut i: usize = 0;
    assert(outcomes@.subrange(0, outcomes@.len() as int) =~= outcomes@);
    while i < outcomes.len()
        invariant
            i <= outcomes@.len(),
            first_ack_failure(outcomes@) == first_ack_failure(
                outcomes@.subrange(i as int, outcomes@.len() as int),
            ),
        decreases outcomes@.len() - i,
    {
        proof {
            let rest = outcomes@.subrange(i as int, outcomes@.len() as int);
            assert(rest.drop_first() =~= outcomes@.subrange(i + 1, outcomes@.len() as int));
            assert(rest[0] == outcomes@[i as int]);
        }
        if outcomes[i] == AckHandling::Faulty {
            return Err(DkgError::MalformedMessage);
        }
        if outcomes[i] == AckHandling::Failed {
            return Err(DkgError::KeyGenFailed);
        }
        i = i + 1;
    }
    Ok(DkgResult::AllAcksHandled)
}

/// The senders a store holds after parts from `incoming` arrive in order at
/// node `idx`: a node's own part and repeated senders are left out.
pub open spec fn after_parts(senders: Seq<u16>, incoming: Seq<u16>, idx: u16) -> Seq<u16>
    decreases incoming.len(),
{
    if incoming.len() == 0 {
        senders
    } else {
        let prev = after_parts(senders, incoming.drop_last(), idx);
        let s = incoming.last();
        if s != idx && !prev.contains(s) {
            prev.push(s)
        } else {
            prev
        }
    }
}

/// The indices `0 .. n` in order.
pub open spec fn first_indices(n: nat) -> Seq<u16> {
    Seq::new(n, |i: int| i as u16)
}

proof fn lemma_after_first_indices(k: nat, idx: u16)
    requires
        k <= 65536,
    ensures
        forall|s: u16| #[trigger]
            after_parts(Seq::empty(), first_indices(k), idx).contains(s) <==> (s < k && s != idx),
        after_parts(Seq::empty(), first_indices(k), idx).len() == if idx < k {
            k - 1
        } else {
            k as int
        },
    decreases k,
{
    if k > 0 {
        let km = (k - 1) as nat;
        assert(first_indices(k).drop_last() =~= first_indices(km));
        lemma_after_first_indices(km, idx);
        let prev = after_parts(Seq::empty(), first_indices(km), idx);
        let last = first_indices(k).last();
        assert(last == km as u16);
        assert forall|s: u16| #[trigger]
            after_parts(Seq::empty(), first_indices(k), idx).contains(s) <==> (s < k && s != idx) by {
            if last != idx && !prev.contains(last) {
                assert(prev.push(last).contains(s) <==> (prev.contains(s) || s == last)) by {
                    if prev.push(last).contains(s) {
                        let j = choose|j: int| 0 <= j < prev.push(last).len() && prev.push(last)[j] == s;
                        if j < prev.len() {
                            assert(prev[j] == s);
                        }
                    }
                    if prev.contains(s) {
                        let j = choose|j: int| 0 <= j < prev.len() && prev[j] == s;
                        assert(prev.push(last)[j] == s);
                    }
                    if s == last {
                        assert(prev.push(last)[prev.len() as int] == s);
                    }
                }
            }
        }
    }
}

/// Once every node of a committee of `n` has multicast its part, each node
/// holds the parts of the `n - 1` others: the size of its part store plus
/// one is `n`.
pub proof fn lemma_part_store_complete(n: nat, idx: u16)
    requires
        n <= 65536,
        idx < n,
    ensures
        after_parts(Seq::empty(), first_indices(n), idx).len() + 1 == n,
{
    lemma_after_first_indices(n, idx);
}

proof fn lemma_after_parts_step(senders: Seq<u16>, incoming: Seq<u16>, idx: u16, i: int)
    requires
        0 <= i < incoming.len(),
    ensures
        after_parts(senders, incoming.subrange(0, i + 1), idx) == ({
            let prev = after_parts(senders, incoming.subrange(0, i), idx);
            let s = incoming[i];
            if s != idx && !prev.contains(s) {
                prev.push(s)
            } else {
                prev
            }
        }),
{
    assert(incoming.subrange(0, i + 1).drop_last() =~= incoming.subrange(0, i));
}

/// Stores, in order, the parts multicast by the other nodes.
pub fn receive_parts(engine: &mut DkgEngine, parts: &Vec<(u16, Part)>)
    requires
        old(engine).wf(),
    ensures
        final(engine).wf(),
        part_senders(final(engine).dkg_state.part_message_store@) == after_parts(
            part_senders(old(engine).dkg_state.part_message_store@),
            part_senders(parts@),
            old(engine).node_idx,
        ),
        final(engine).dkg_state.ack_message_store@ == old(engine).dkg_state.ack_message_store@,
        final(engine).node_idx == old(engine).node_idx,
        final(engine).threshold_config == old(engine).threshold_config,
        final(engine).dkg_state.sync_key_gen == old(engine).dkg_state.sync_key_gen,
{
    let ghost start = part_senders(engine.dkg_state.part_message_store@);
    let mut i: usize = 0;
    while i < parts.len()
        invariant
            i <= parts@.len(),
            engine.wf(),
            part_senders(engine.dkg_state.part_message_store@) == after_parts(
                start,
                part_senders(parts@).subrange(0, i as int),
                old(engine).node_idx,
            ),
            engine.dkg_state.ack_message_store@ == old(engine).dkg_state.ack_message_store@,
            engine.node_idx == old(engine).node_idx,
            engine.threshold_config == old(engine).threshold_config,
            engine.dkg_state.sync_key_gen == old(engine).dkg_state.sync_key_gen,
        decreases parts@.len() - i,
    {
        let ghost before = engine.dkg_state.part_message_store@;
        proof {
            lemma_after_parts_step(start, part_senders(parts@), old(engine).node_idx, i as int);
        }
        let sender = parts[i].0;
        let accepted = engine.store_part(sender, parts[i].1.clone());
        proof {
            if accepted {
                assert(part_senders(engine.dkg_state.part_message_store@) =~= part_senders(
                    before,
                ).push(sender));
            }
        }
        i = i + 1;
    }
    assert(part_senders(parts@).subrange(0, i as int) =~= part_senders(parts@));
}

/// No key of `store` is in `merged`, and `store` repeats no key.
pub open spec fn disjoint_keys(merged: Seq<((u16, u16), Ack)>, store: Seq<((u16, u16), Ack)>) -> bool {
    &&& ack_keys(store).no_duplicates()
    &&& forall|k: (u16, u16)| ack_keys(store).contains(k) ==> !ack_keys(merged).contains(k)
}

/// Adds to `merged` each acknowledgement of `store` whose key it lacks.
fn absorb_acks(merged: &mut Vec<((u16, u16), Ack)>, store: &Vec<((u16, u16), Ack)>)
    requires
        ack_keys(old(merged)@).no_duplicates(),
    ensures
        ack_keys(final(merged)@).no_duplicates(),
        forall|k: (u16, u16)| #[trigger]
            ack_keys(final(merged)@).contains(k) <==> (ack_keys(old(merged)@).contains(k)
                || ack_keys(store@).contains(k)),
        disjoint_keys(old(merged)@, store@) ==> final(merged)@ == old(merged)@ + store@,
{
    let mut i: usize = 0;
    while i < store.len()
        invariant
            i <= store@.len(),
            ack_keys(merged@).no_duplicates(),
            forall|k: (u16, u16)| #[trigger]
                ack_keys(merged@).contains(k) <==> (ack_keys(old(merged)@).contains(k)
                    || ack_keys(store@.subrange(0, i as int)).contains(k)),
            disjoint_keys(old(merged)@, store@) ==> merged@ == old(merged)@ + store@.subrange(
                0,
                i as int,
            ),
        decreases store@.len() - i,
    {
        let ghost before = merged@;
        let key = store[i].0;
        proof {
            if disjoint_keys(old(merged)@, store@) {
                assert(ack_keys(store@)[i as int] == key);
                assert(!ack_keys(old(merged)@).contains(key));
                if ack_keys(store@.subrange(0, i as int)).contains(key) {
                    let j = choose|j: int|
                        0 <= j < ack_keys(store@.subrange(0, i as int)).len() && ack_keys(
                            store@.subrange(0, i as int),
                        )[j] == key;
                    assert(ack_keys(store@)[j] == key);
                }
                assert(!ack_keys(merged@).contains(key));
            }
        }
        push_ack(merged, key, store[i].1.clone());
        proof {
            if disjoint_keys(old(merged)@, store@) {
                assert(merged@ =~= old(merged)@ + store@.subrange(0, i + 1));
            }
            assert(ack_keys(store@.subrange(0, i + 1)) =~= ack_keys(store@.subrange(0, i as int)).push(key));
            assert(ack_keys(before.push((key, store@[i as int].1))) =~= ack_keys(before).push(key));
            assert forall|k: (u16, u16)| #[trigger] ack_keys(merged@).contains(k) <==> (ack_keys(
                old(merged)@,
            ).contains(k) || ack_keys(store@.subrange(0, i + 1)).contains(k)) by {
                lemma_push_contains(ack_keys(before), key, k);
                lemma_push_contains(ack_keys(store@.subrange(0, i as int)), key, k);
            }
        }
        i = i + 1;
    }
    assert(store@.subrange(0, i as int) =~= store@);
}

proof fn lemma_push_contains<T>(s: Seq<T>, x: T, k: T)
    ensures
        s.push(x).contains(k) <==> (s.contains(k) || k == x),
{
    if s.push(x).contains(k) {
        let j = choose|j: int| 0 <= j < s.push(x).len() && s.push(x)[j] == k;
        if j < s.len() {
            assert(s[j] == k);
        }
    }
    if s.contains(k) {
        let j = choose|j: int| 0 <= j < s.len() && s[j] == k;
        assert(s.push(x)[j] == k);
    }
    if k == x {
        assert(s.push(x)[s.len() as int] == k);
    }
}

/// A copy of an acknowledgement store.
fn copy_acks(store: &Vec<((u16, u16), Ack)>) -> (r: Vec<((u16, u16), Ack)>)
    ensures
        r@ == store@,
{
    let mut out: Vec<((u16, u16), Ack)> = Vec::new();
    let mut i: usize = 0;
    while i < store.len()
        invariant
            i <= store@.len(),
            out@ == store@.subrange(0, i as int),
        decreases store@.len() - i,
    {
        out.push((store[i].0, store[i].1.clone()));
        i = i + 1;
        proof {
            assert(out@ =~= store@.subrange(0, i as int));
        }
    }
    assert(store@.subrange(0, i as int) =~= store@);
    out
}

/// The set of indices below `n`.
pub open spec fn indices_below(n: u16) -> Set<u16> {
    Set::new(|k: u16| k < n)
}

/// Fresh secret keys for `number_of_nodes` nodes, and their public keys by
/// node index.
pub fn generate_key_sets(number_of_nodes: u16) -> (r: (Vec<SecretKey>, BTreeMap<u16, PublicKey>))
    ensures
        r.0@.len() == number_of_nodes,
        r.1@.dom() == indices_below(number_of_nodes),
{
    let mut sec_keys: Vec<SecretKey> = Vec::new();
    let mut pub_keys: BTreeMap<u16, PublicKey> = BTreeMap::new();
    let mut i: u16 = 0;
    while i < number_of_nodes
        invariant
            i <= number_of_nodes,
            sec_keys@.len() == i,
            pub_keys@.dom() == indices_below(i),
        decreases number_of_nodes - i,
    {
        let sk = random_secret_key();
        let pk = public_key_of(&sk);
        pub_keys.insert(i, pk);
        sec_keys.push(sk);
        proof {
            assert(pub_keys@.dom() =~= indices_below((i + 1) as u16));
        }
        i = i + 1;
    }
    (sec_keys, pub_keys)
}

/// `total_nodes` fresh engines with the four-node configuration, each with
/// its own secret key and the public keys of all.
pub fn generate_dkg_engines(total_nodes: u16) -> (r: Vec<DkgEngine>)
    ensures
        r@.len() == total_nodes,
        forall|i: int|
            0 <= i < total_nodes ==> {
                let e = #[trigger] r@[i];
                &&& e.node_idx == i
                &&& e.threshold_config == ThresholdConfig { upper_bound: 4, threshold: 1 }
                &&& e.dkg_state.part_message_store@.len() == 0
                &&& e.dkg_state.ack_message_store@.len() == 0
                &&& e.dkg_state.peer_public_keys@.dom() == indices_below(total_nodes)
                &&& e.dkg_state.sync_key_gen is None
                &&& e.dkg_state.public_key_set is None
                &&& e.dkg_state.secret_key_share is None
                &&& e.wf()
            },
        forall|i: int, j: int|
            0 <= i < total_nodes && 0 <= j < total_nodes ==> (#[trigger] r@[i]).dkg_state.peer_public_keys@
                == (#[trigger] r@[j]).dkg_state.peer_public_keys@,
{
    let (sec_keys, pub_keys) = generate_key_sets(total_nodes);
    let mut engines: Vec<DkgEngine> = Vec::new();
    let mut i: u16 = 0;
    while i < total_nodes
        invariant
            i <= total_nodes,
            sec_keys@.len() == total_nodes,
            pub_keys@.dom() == indices_below(total_nodes),
            engines@.len() == i,
            forall|k: int|
                0 <= k < i ==> {
                    let e = #[trigger] engines@[k];
                    &&& e.node_idx == k
                    &&& e.threshold_config == ThresholdConfig { upper_bound: 4, threshold: 1 }
                    &&& e.dkg_state.part_message_store@.len() == 0
                    &&& e.dkg_state.ack_message_store@.len() == 0
                    &&& e.dkg_state.peer_public_keys@.dom() == indices_below(total_nodes)
                    &&& e.dkg_state.sync_key_gen is None
                    &&& e.dkg_state.public_key_set is None
                    &&& e.dkg_state.secret_key_share is None
                    &&& e.dkg_state.peer_public_keys@ == pub_keys@
                    &&& e.wf()
                },
        decreases total_nodes - i,
    {
        let engine = DkgEngine {
            node_idx: i,
            threshold_config: valid_threshold_config(),
            dkg_state: DkgState {
                part_message_store: Vec::new(),
                ack_message_store: Vec::new(),
                peer_public_keys: pub_keys.clone(),
                public_key_set: None,
                secret_key_share: None,
                sync_key_gen: None,
                secret_key: copy_secret_key(&sec_keys[i as usize]),
            },
        };
        proof {
            assert(part_senders(engine.dkg_state.part_message_store@) =~= Seq::<u16>::empty());
            assert(ack_keys(engine.dkg_state.ack_message_store@) =~= Seq::<(u16, u16)>::empty());
        }
        engines.push(engine);
        i = i + 1;
    }
    engines
}

/// The acknowledgement keys node `idx` makes for the parts of the other
/// senders below `n`, in sender order.
pub open spec fn foreign_acks(n: nat, idx: u16) -> Seq<(u16, u16)>
    decreases n,
{
    if n == 0 {
        Seq::empty()
    } else {
        let prev = foreign_acks((n - 1) as nat, idx);
        if (n - 1) as u16 != idx {
            prev.push((((n - 1) as u16), idx))
        } else {
            prev
        }
    }
}

/// Every acknowledgement key of a committee of `n`: a part sender and a
/// different acker, both below `n`.
pub open spec fn committee_ack(k: (u16, u16), n: nat) -> bool {
    k.0 < n && k.1 < n && k.0 != k.1
}

proof fn lemma_foreign_acks(n: nat, idx: u16)
    requires
        n <= 65536,
    ensures
        forall|k: (u16, u16)| #[trigger]
            foreign_acks(n, idx).contains(k) <==> (k.1 == idx && k.0 < n && k.0 != idx),
        foreign_acks(n, idx).no_duplicates(),
        foreign_acks(n, idx).len() == if idx < n {
            n - 1
        } else {
            n as int
        },
    decreases n,
{
    if n > 0 {
        let m = (n - 1) as nat;
        lemma_foreign_acks(m, idx);
        let prev = foreign_acks(m, idx);
        let x = ((m as u16), idx);
        assert forall|k: (u16, u16)| #[trigger]
            foreign_acks(n, idx).contains(k) <==> (k.1 == idx && k.0 < n && k.0 != idx) by {
            if m as u16 != idx {
                lemma_push_contains(prev, x, k);
            }
        }
        if m as u16 != idx {
            assert(!prev.contains(x));
            assert forall|i: int, j: int|
                0 <= i < prev.push(x).len() && 0 <= j < prev.push(x).len() && i != j implies prev.push(
                x,
            )[i] != prev.push(x)[j] by {
                if i < prev.len() && j < prev.len() {
                } else if i < prev.len() {
                    assert(prev.contains(prev[i]));
                } else {
                    assert(prev.contains(prev[j]));
                }
            }
        }
    }
}

/// Starts the engine's key generator and, when that succeeds, adds the part
/// it multicasts to `parts`; says whether it succeeded.
fn publish_part(engine: &mut DkgEngine, parts: &mut Vec<(u16, Part)>) -> (ok: bool)
    requires
        old(engine).wf(),
        old(engine).dkg_state.sync_key_gen is None,
    ensures
        final(engine).wf(),
        final(engine).node_idx == old(engine).node_idx,
        final(engine).dkg_state.part_message_store@ == old(engine).dkg_state.part_message_store@,
        final(engine).dkg_state.ack_message_store@ == old(engine).dkg_state.ack_message_store@,
        ok ==> part_senders(final(parts)@) == part_senders(old(parts)@).push(old(engine).node_idx),
        ok ==> final(engine).dkg_state.sync_key_gen is Some,
        !ok ==> final(parts)@ == old(parts)@,
        final(engine).threshold_config == old(engine).threshold_config,
{
    match engine.generate_sync_keygen_instance() {
        Ok(DkgResult::PartMessageGenerated(idx, part)) => {
            let ghost before = parts@;
            parts.push((idx, part));
            proof {
                assert(part_senders(parts@) =~= part_senders(before).push(idx));
            }
            true
        },
        _ => false,
    }
}

/// Has the engine acknowledge the stored part of each other sender below
/// `n`; says whether every acknowledgement succeeded.
fn acknowledge_parts(engine: &mut DkgEngine, n: u16) -> (ok: bool)
    requires
        old(engine).wf(),
        old(engine).dkg_state.ack_message_store@.len() == 0,
    ensures
        final(engine).wf(),
        final(engine).node_idx == old(engine).node_idx,
        final(engine).dkg_state.part_message_store@ == old(engine).dkg_state.part_message_store@,
        final(engine).dkg_state.sync_key_gen is Some <==> old(engine).dkg_state.sync_key_gen is Some,
        ok ==> ack_keys(final(engine).dkg_state.ack_message_store@) == foreign_acks(
            n as nat,
            old(engine).node_idx,
        ),
        final(engine).threshold_config == old(engine).threshold_config,
{
    let idx = engine.node_idx;
    let mut ok = true;
    let mut i: u16 = 0;
    assert(ack_keys(engine.dkg_state.ack_message_store@) =~= foreign_acks(0, idx));
    while i < n
        invariant
            i <= n,
            idx == old(engine).node_idx,
            engine.wf(),
            engine.node_idx == old(engine).node_idx,
            engine.threshold_config == old(engine).threshold_config,
            engine.dkg_state.part_message_store@ == old(engine).dkg_state.part_message_store@,
            engine.dkg_state.sync_key_gen is Some <==> old(engine).dkg_state.sync_key_gen is Some,
            ok ==> ack_keys(engine.dkg_state.ack_message_store@) == foreign_acks(i as nat, idx),
        decreases n - i,
    {
        if i != idx {
            proof {
                lemma_foreign_acks(i as nat, idx);
            }
            let r = engine.ack_partial_commitment(i);
            if r.is_err() {
                ok = false;
            }
        }
        i = i + 1;
    }
    ok
}

/// Engine `i` of a four-node session that ran to the end, holding `acks`:
/// the parts of the three others, all twelve acknowledgements, and keys.
pub open spec fn completed_session_engine(e: DkgEngine, i: u16, acks: Seq<((u16, u16), Ack)>) -> bool {
    &&& e.node_idx == i
    &&& e.wf()
    &&& e.threshold_config == ThresholdConfig { upper_bound: 4, threshold: 1 }
    &&& part_senders(e.dkg_state.part_message_store@) == after_parts(Seq::empty(), first_indices(4), i)
    &&& e.dkg_state.part_message_store@.len() + 1 == 4
    &&& !part_senders(e.dkg_state.part_message_store@).contains(i)
    &&& e.dkg_state.ack_message_store@ == acks
    &&& acks.len() == 4 * (4 - 1)
    &&& forall|k: (u16, u16)| #[trigger] ack_keys(acks).contains(k) <==> committee_ack(k, 4)
    &&& e.dkg_state.public_key_set is Some
}

/// Runs a whole session among four fresh engines: each multicasts its part,
/// stores the others' parts and acknowledges them; the acknowledgements are
/// pooled so that every engine holds all of them; then each engine handles
/// them and derives its keys. `None` when some step of the session failed.
pub fn generate_dkg_engine_with_states() -> (r: Option<Vec<DkgEngine>>)
    ensures
        r is Some ==> ({
            let v = r->0;
            &&& v@.len() == 4
            &&& forall|i: int|
                0 <= i < 4 ==> completed_session_engine(
                    #[trigger] v@[i],
                    i as u16,
                    v@[0].dkg_state.ack_message_store@,
                )
        }),
{
    let mut engines = generate_dkg_engines(4);
    assert(engines@[3].node_idx == 3);
    let mut e4 = engines.pop().unwrap();
    let mut e3 = engines.pop().unwrap();
    let mut e2 = engines.pop().unwrap();
    let mut e1 = engines.pop().unwrap();

    assert(part_senders(e1.dkg_state.part_message_store@) =~= Seq::<u16>::empty());
    assert(part_senders(e2.dkg_state.part_message_store@) =~= Seq::<u16>::empty());
    assert(part_senders(e3.dkg_state.part_message_store@) =~= Seq::<u16>::empty());
    assert(part_senders(e4.dkg_state.part_message_store@) =~= Seq::<u16>::empty());
    let mut parts: Vec<(u16, Part)> = Vec::new();
    assert(part_senders(parts@) =~= Seq::<u16>::empty());
    let p1 = publish_part(&mut e1, &mut parts);
    let p2 = publish_part(&mut e2, &mut parts);
    let p3 = publish_part(&mut e3, &mut parts);
    let p4 = publish_part(&mut e4, &mut parts);
    if !(p1 && p2 && p3 && p4) {
        return None;
    }
    assert(part_senders(parts@) =~= first_indices(4));

    receive_parts(&mut e1, &parts);
    receive_parts(&mut e2, &parts);
    receive_parts(&mut e3, &parts);
    receive_parts(&mut e4, &parts);
    proof {
        lemma_part_store_complete(4, 0);
        lemma_part_store_complete(4, 1);
        lemma_part_store_complete(4, 2);
        lemma_part_store_complete(4, 3);
        lemma_after_first_indices(4, 0);
        lemma_after_first_indices(4, 1);
        lemma_after_first_indices(4, 2);
        lemma_after_first_indices(4, 3);
    }

    let a1 = acknowledge_parts(&mut e1, 4);
    let a2 = acknowledge_parts(&mut e2, 4);
    let a3 = acknowledge_parts(&mut e3, 4);
    let a4 = acknowledge_parts(&mut e4, 4);
    if !(a1 && a2 && a3 && a4) {
        return None;
    }
    proof {
        lemma_foreign_acks(4, 0);
        lemma_foreign_acks(4, 1);
        lemma_foreign_acks(4, 2);
        lemma_foreign_acks(4, 3);
    }

    let mut merged: Vec<((u16, u16), Ack)> = Vec::new();
    assert(ack_keys(merged@) =~= Seq::<(u16, u16)>::empty());
    let ghost k1 = ack_keys(e1.dkg_state.ack_message_store@);
    let ghost k2 = ack_keys(e2.dkg_state.ack_message_store@);
    let ghost k3 = ack_keys(e3.dkg_state.ack_message_store@);
    let ghost k4 = ack_keys(e4.dkg_state.ack_message_store@);
    absorb_acks(&mut merged, &e1.dkg_state.ack_message_store);
    let ghost m1 = merged@;
    assert(ack_keys(m1) =~= k1);
    assert(disjoint_keys(m1, e2.dkg_state.ack_message_store@));
    absorb_acks(&mut merged, &e2.dkg_state.ack_message_store);
    let ghost m2 = merged@;
    assert(ack_keys(m2) =~= k1 + k2);
    assert forall|k: (u16, u16)| ack_keys(e3.dkg_state.ack_message_store@).contains(k) implies !ack_keys(
        m2,
    ).contains(k) by {
        lemma_concat_contains(k1, k2, k);
    }
    absorb_acks(&mut merged, &e3.dkg_state.ack_message_store);
    let ghost m3 = merged@;
    assert(ack_keys(m3) =~= k1 + k2 + k3);
    assert forall|k: (u16, u16)| ack_keys(e4.dkg_state.ack_message_store@).contains(k) implies !ack_keys(
        m3,
    ).contains(k) by {
        lemma_concat_contains(k1, k2, k);
        lemma_concat_contains(k1 + k2, k3, k);
    }
    absorb_acks(&mut merged, &e4.dkg_state.ack_message_store);
    let ghost m4 = merged@;
    assert(ack_keys(m4) =~= k1 + k2 + k3 + k4);
    assert(m4.len() == 12);
    assert forall|k: (u16, u16)| ack_keys(m4).contains(k) <==> committee_ack(k, 4) by {
        lemma_concat_contains(k1, k2, k);
        lemma_concat_contains(k1 + k2, k3, k);
        lemma_concat_contains(k1 + k2 + k3, k4, k);
    }
    e1.dkg_state.ack_message_store = copy_acks(&merged);
    e2.dkg_state.ack_message_store = copy_acks(&merged);
    e3.dkg_state.ack_message_store = copy_acks(&merged);
    e4.dkg_state.ack_message_store = merged;

    if e1.handle_ack_messages().is_err() || e2.handle_ack_messages().is_err()
        || e3.handle_ack_messages().is_err() || e4.handle_ack_messages().is_err() {
        return None;
    }
    if e1.generate_key_sets().is_err() || e2.generate_key_sets().is_err()
        || e3.generate_key_sets().is_err() || e4.generate_key_sets().is_err() {
        return None;
    }
    proof {
        assert(part_senders(e1.dkg_state.part_message_store@).len() == e1.dkg_state.part_message_store@.len());
        assert(part_senders(e2.dkg_state.part_message_store@).len() == e2.dkg_state.part_message_store@.len());
        assert(part_senders(e3.dkg_state.part_message_store@).len() == e3.dkg_state.part_message_store@.len());
        assert(part_senders(e4.dkg_state.part_message_store@).len() == e4.dkg_state.part_message_store@.len());
        assert(completed_session_engine(e1, 0, m4));
        assert(completed_session_engine(e2, 1, m4));
        assert(completed_session_engine(e3, 2, m4));
        assert(completed_session_engine(e4, 3, m4));
    }
    let r = vec![e1, e2, e3, e4];
    proof {
        assert(r@[0].dkg_state.ack_message_store@ == m4);
    }
    Some(r)
}

proof fn lemma_concat_contains<T>(a: Seq<T>, b: Seq<T>, k: T)
    ensures
        (a + b).contains(k) <==> (a.contains(k) || b.contains(k)),
{
    if (a + b).contains(k) {
        let j = choose|j: int| 0 <= j < (a + b).len() && (a + b)[j] == k;
        if j < a.len() {
            assert(a[j] == k);
        } else {
            assert(b[j - a.len()] == k);
        }
    }
    if a.contains(k) {
        let j = choose|j: int| 0 <= j < a.len() && a[j] == k;
        assert((a + b)[j] == k);
    }
    if b.contains(k) {
        let j = choose|j: int| 0 <= j < b.len() && b[j] == k;
        assert((a + b)[j + a.len()] == k);
    }
}

} // verus!

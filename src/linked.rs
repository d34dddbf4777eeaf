use vstd::prelude::*;
use ritelinked::{DefaultHashBuilder, LinkedHashMap};
use crate::claim::Claim;
use crate::txn::Txn;

verus! {

#[verifier::external_type_specification]
#[verifier::external_body]
#[verifier::reject_recursive_types(K)]
#[verifier::reject_recursive_types(V)]
#[verifier::reject_recursive_types(S)]
pub struct ExLinkedHashMap<K, V, S>(LinkedHashMap<K, V, S>);

#[verifier::external_type_specification]
#[verifier::external_body]
pub struct ExDefaultHashBuilder(DefaultHashBuilder);

/// Relies on `LinkedHashMap`'s `Clone`, which builds a new map entry by
/// entry; nothing is claimed of the copy.
pub assume_specification<K: core::hash::Hash + Eq + Clone, V: Clone, S: core::hash::BuildHasher + Clone>[
    <LinkedHashMap<K, V, S> as Clone>::clone
](m: &LinkedHashMap<K, V, S>) -> LinkedHashMap<K, V, S>;

/// Transactions keyed by id, in insertion order.
pub type TxnMap = LinkedHashMap<String, Txn>;

/// Claims keyed by public key, in insertion order.
pub type ClaimMap = LinkedHashMap<String, Claim>;

/// The entries of a transaction map, front to back.
pub uninterp spec fn txn_entries(m: TxnMap) -> Seq<(Seq<char>, Txn)>;

/// The entries of a claim map, front to back.
pub uninterp spec fn claim_entries(m: ClaimMap) -> Seq<(Seq<char>, Claim)>;

/// Inserting into an insertion-ordered map: an entry with the same key is
/// dropped from its place and the new entry goes to the back.
pub open spec fn linked_insert<V>(entries: Seq<(Seq<char>, V)>, key: Seq<char>, value: V) -> Seq<
    (Seq<char>, V),
> {
    entries.filter(|e: (Seq<char>, V)| e.0 != key).push((key, value))
}

/// Relies on `LinkedHashMap::new`: the map starts empty.
#[verifier::external_body]
pub(crate) fn new_claim_map() -> (r: ClaimMap)
    ensures
        claim_entries(r) == Seq::<(Seq<char>, Claim)>::empty(),
{
    LinkedHashMap::new()
}

/// Relies on `LinkedHashMap::new`: the map starts empty.
#[verifier::external_body]
pub(crate) fn new_txn_map() -> (r: TxnMap)
    ensures
        txn_entries(r) == Seq::<(Seq<char>, Txn)>::empty(),
{
    LinkedHashMap::new()
}

/// Relies on `LinkedHashMap::insert`: an existing entry for the key is moved to
/// the back and its value replaced; a new key is appended at the back.
#[verifier::external_body]
pub(crate) fn claim_map_insert(m: &mut ClaimMap, key: String, value: Claim)
    ensures
        claim_entries(*final(m)) == linked_insert(claim_entries(*old(m)), key@, value),
{
    m.insert(key, value);
}

/// Relies on `LinkedHashMap::values`: it walks the entries front to back.
#[verifier::external_body]
pub(crate) fn txn_map_values(m: &TxnMap) -> (r: Vec<Txn>)
    ensures
        r@ == txn_entries(*m).map_values(|e: (Seq<char>, Txn)| e.1),
{
    m.values().cloned().collect()
}

} // verus!

use vstd::prelude::*;

verus! {

/// The role a claim makes its holder eligible for.
#[derive(Clone, Copy, Debug, PartialEq, Eq, Structural)]
pub enum Eligibility {
    Harvester,
    Miner,
    Farmer,
    Validator,
    NoEligibility,
}

/// A staked identity record.
#[derive(Clone, Debug, PartialEq, Eq)]
pub struct Claim {
    pub pubkey: String,
    pub address: String,
    pub hash: String,
    pub eligibility: Eligibility,
}

impl Claim {
    /// A field-by-field copy.
    pub fn duplicate(&self) -> (r: Claim)
        ensures
            r == *self,
    {
        Claim {
            pubkey: self.pubkey.clone(),
            address: self.address.clone(),
            hash: self.hash.clone(),
            eligibility: self.eligibility,
        }
    }
}

} // verus!

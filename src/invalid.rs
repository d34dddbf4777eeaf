use vstd::prelude::*;

verus! {

/// Why a block was rejected.
#[derive(Clone, Copy, Debug, PartialEq, Eq, Structural)]
pub enum InvalidBlockErrorReason {
    BlockOutOfSequence,
    NotTallestChain,
    InvalidBlockNonce,
    InvalidBlockReward,
    InvalidNextBlockReward,
    InvalidClaimPointers,
    InvalidLastHash,
    InvalidBlockHeight,
    InvalidStateHash,
    InvalidClaim,
    InvalidBlockSignature,
    InvalidTxns,
}

#[derive(Clone, Copy, Debug, PartialEq, Eq, Structural)]
pub struct InvalidBlockError {
    pub details: InvalidBlockErrorReason,
}

} // verus!

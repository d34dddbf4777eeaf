//! Core consensus records of a proof-of-claim chain: blocks and their
//! validity rules, miner election, the replicated transaction pool, the
//! decisions of the scheduler's farm and certification jobs, and the
//! distributed generation of the harvester quorum's threshold keys.

pub mod digest;
pub mod linked;
pub mod txn;
pub mod claim;
pub mod reward;
pub mod header;
pub mod invalid;
pub mod block;
pub mod election;
pub mod mempool;
pub mod mempool_db;
pub mod scheduler;
pub mod dkg;

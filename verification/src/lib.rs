//! The block stage of a validator, as far as it decides anything: the
//! envelope that pairs a batch of raw transactions with its intended slot,
//! the account override overlay consulted ahead of canonical ledger state,
//! the decisions of the block consumption pipeline, and the ordering log's
//! rule for taking a submission.

pub mod account_overrides;
pub mod block_consumer;
pub mod harmonic_block;
pub mod ordering_log;

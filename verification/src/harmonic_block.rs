//! The envelope that pairs a batch of raw transactions with the slot it is
//! intended for.

use solana_clock::Slot;
use solana_perf::packet::PacketBatch;
use vstd::prelude::*;

verus! {

/// `solana_perf::packet::PacketBatch`, carried through as an opaque value.
#[verifier::external_type_specification]
#[verifier::external_body]
pub struct ExPacketBatch(solana_perf::packet::PacketBatch);

/// `PacketBatch::clone`, which the derived `Clone` of the envelope calls.
/// Nothing is claimed of the copy.
pub assume_specification[ <solana_perf::packet::PacketBatch as std::clone::Clone>::clone ](
    batch: &solana_perf::packet::PacketBatch,
) -> (copy: solana_perf::packet::PacketBatch)
;

/// A batch of raw transactions intended for a specific slot. The slot is not
/// validated here: it may be stale, and is checked downstream.
#[derive(Clone, Debug)]
pub struct HarmonicBlock {
    transactions: PacketBatch,
    intended_slot: Slot,
}

impl HarmonicBlock {
    /// The batch of the envelope, as a mathematical value.
    pub closed spec fn batch(&self) -> PacketBatch {
        self.transactions
    }

    /// The slot of the envelope, as a mathematical value.
    pub closed spec fn slot(&self) -> Slot {
        self.intended_slot
    }

    /// The envelope of `transactions` for `intended_slot`.
    pub fn new(transactions: PacketBatch, intended_slot: Slot) -> (block: Self)
        ensures
            block.batch() == transactions,
            block.slot() == intended_slot,
    {
        Self { transactions, intended_slot }
    }

    /// The batch of raw transactions.
    pub fn transactions(&self) -> (batch: &PacketBatch)
        ensures
            *batch == self.batch(),
    {
        &self.transactions
    }

    /// The slot that the batch is intended for.
    pub fn intended_slot(&self) -> (slot: Slot)
        ensures
            slot == self.slot(),
    {
        self.intended_slot
    }

    /// Hands the batch out and ends the envelope.
    pub fn take(self) -> (batch: PacketBatch)
        ensures
            batch == self.batch(),
    {
        self.transactions
    }
}

} // verus!

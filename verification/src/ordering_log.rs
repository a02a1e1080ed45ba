//! The ordering log's side of a submission: which slot is open, and what the
//! log holds after a submission was taken or refused.

use crate::block_consumer::{Mixin, RecordError};
use solana_clock::Slot;
use vstd::prelude::*;

verus! {

/// An in-memory ordering log. A fresh log is open for no slot and takes
/// nothing until it is restarted for one.
pub struct OrderingLog {
    active: Option<Slot>,
    recorded: Vec<(Slot, Mixin)>,
}

/// The mixins of one submission, each tagged with the submission's slot.
pub open spec fn tagged(slot: Slot, mixins: Seq<Mixin>) -> Seq<(Slot, Mixin)> {
    Seq::new(mixins.len(), |k: int| (slot, mixins[k]))
}

impl OrderingLog {
    /// The slot that the log is open for, if any.
    pub closed spec fn active_slot(&self) -> Option<Slot> {
        self.active
    }

    /// Everything recorded so far, in the order in which it was taken.
    pub closed spec fn entries(&self) -> Seq<(Slot, Mixin)> {
        self.recorded@
    }

    /// A fresh log: open for no slot, with nothing recorded.
    pub fn new() -> (log: OrderingLog)
        ensures
            log.active_slot() == None::<Slot>,
            log.entries().len() == 0,
    {
        OrderingLog { active: None, recorded: Vec::new() }
    }

    /// Opens the log for `slot` and closes it for every other slot. What was
    /// recorded stays.
    pub fn restart(&mut self, slot: Slot)
        ensures
            final(self).active_slot() == Some(slot),
            final(self).entries() == old(self).entries(),
    {
        self.active = Some(slot);
    }

    /// Whether a submission for `slot` would be taken: only the open slot is.
    pub fn admits(&self, slot: Slot) -> (admitted: Result<(), RecordError>)
        ensures
            admitted is Ok <==> self.active_slot() == Some(slot),
            admitted is Err ==> admitted == Err::<(), RecordError>(RecordError::SlotClosed),
    {
        match self.active {
            Some(open) => {
                if open == slot {
                    Ok(())
                } else {
                    Err(RecordError::SlotClosed)
                }
            },
            None => Err(RecordError::SlotClosed),
        }
    }

    /// Takes the mixins for `slot` if the log is open for that slot, and
    /// records them after everything taken before, in the order given. A
    /// submission for any other slot is refused and leaves the log as it was.
    pub fn submit(&mut self, slot: Slot, mixins: &Vec<Mixin>) -> (taken: Result<(), RecordError>)
        ensures
            taken is Ok <==> old(self).active_slot() == Some(slot),
            taken is Err ==> taken == Err::<(), RecordError>(RecordError::SlotClosed),
            final(self).active_slot() == old(self).active_slot(),
            final(self).entries() == if taken is Ok {
                old(self).entries() + tagged(slot, mixins@)
            } else {
                old(self).entries()
            },
    {
        match self.admits(slot) {
            Err(error) => Err(error),
            Ok(()) => {
                let mut k: usize = 0;
                while k < mixins.len()
                    invariant
                        k <= mixins@.len(),
                        self.active == old(self).active,
                        self.recorded@ == old(self).recorded@ + tagged(slot, mixins@).take(
                            k as int,
                        ),
                    decreases mixins@.len() - k,
                {
                    self.recorded.push((slot, mixins[k]));
                    assert(tagged(slot, mixins@).take(k as int + 1) =~= tagged(
                        slot,
                        mixins@,
                    ).take(k as int).push((slot, mixins@[k as int])));
                    assert(self.recorded@ =~= old(self).recorded@ + tagged(slot, mixins@).take(
                        k as int + 1,
                    ));
                    k += 1;
                }
                assert(tagged(slot, mixins@).take(mixins@.len() as int) =~= tagged(slot, mixins@));
                Ok(())
            },
        }
    }

    /// Everything recorded so far, oldest first.
    pub fn recorded(&self) -> (entries: &Vec<(Slot, Mixin)>)
        ensures
            entries@ == self.entries(),
    {
        &self.recorded
    }
}

} // verus!

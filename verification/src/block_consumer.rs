//! The decisions of the block consumption pipeline.
//!
//! Consuming a block is a strictly sequential pipeline: check the target
//! slot, reject transactions whose validity window is exceeded, execute the
//! rest, submit their mixins to the ordering log in batch order, and commit
//! only if the log accepted the submission. Execution, the ordering service
//! and the ledger are outside collaborators; this module holds every decision
//! between them as a function of plain values, so that the caller only
//! performs what it is told and reports back what happened.

use solana_clock::Slot;
use vstd::prelude::*;

verus! {

/// A hash derived from a transaction, fed into the ordering log.
#[derive(Clone, Copy, Debug, PartialEq, Eq)]
pub struct Mixin {
    pub bytes: [u8; 32],
}

/// The largest slot distance that a transaction's reference blockhash may
/// have from the slot of execution.
#[derive(Clone, Copy, Debug, PartialEq, Eq)]
pub enum ValidityWindow {
    /// Expiry is not checked.
    Unbounded,
    /// At most this many slots may lie between the two.
    Within(u64),
}

/// What the pipeline reads of a resolved transaction.
#[derive(Clone, Copy, Debug, PartialEq, Eq)]
pub struct ResolvedTransaction {
    /// The mixin that stands for the transaction in the ordering log.
    pub mixin: Mixin,
    /// The slot of the transaction's reference blockhash.
    pub reference_slot: Slot,
}

/// Why a block was refused before anything was executed.
#[derive(Clone, Copy, Debug, PartialEq, Eq)]
pub enum BlockError {
    /// The target slot is not the slot that the ledger is working on.
    SlotMismatch { target: Slot, working: Slot },
}

/// Why the ordering log did not take a submission.
#[derive(Clone, Copy, Debug, PartialEq, Eq)]
pub enum RecordError {
    /// The log is not, or no longer, open for the slot.
    SlotClosed,
    /// The ordering service declined for want of room.
    ServiceBusy,
    /// The ordering service is gone.
    Disconnected,
}

/// How the execution of one transaction ended.
#[derive(Clone, Copy, Debug, PartialEq, Eq)]
pub enum ExecutionStatus {
    Succeeded,
    /// Failed, with the ledger's reason code.
    Failed(u32),
}

/// What the ledger reports of one executed transaction. The state delta
/// itself stays staged with the ledger, under the transaction's position.
#[derive(Clone, Copy, Debug, PartialEq, Eq)]
pub struct ExecutionOutput {
    pub status: ExecutionStatus,
    /// Whether the transaction carries a consensus vote.
    pub is_vote: bool,
    /// The prioritization fee that the transaction paid.
    pub priority_fee: u64,
}

/// The outcome of one transaction of the batch.
#[derive(Clone, Copy, Debug, PartialEq, Eq)]
pub enum TransactionResult {
    /// The validity window was exceeded; the transaction was not executed.
    RejectedForExpiry,
    Executed,
    /// Executed and failed, with the ledger's reason code.
    Failed(u32),
}

/// What to execute and what to submit for one block.
#[derive(Clone, Debug, PartialEq, Eq)]
pub struct ExecutionPlan {
    /// For each transaction of the batch, whether it is rejected for expiry.
    pub expired: Vec<bool>,
    /// The batch positions of the transactions to execute, ascending.
    pub order: Vec<usize>,
    /// The mixins to submit, one per transaction to execute, in batch order.
    pub mixins: Vec<Mixin>,
}

impl ExecutionPlan {
    /// Whether the plan is consistent: the order lists exactly the positions
    /// that are not expired, ascending, with one mixin for each.
    pub open spec fn well_formed(&self) -> bool {
        self.order@ == live_positions(self.expired@, self.expired@.len() as int)
            && self.mixins@.len() == self.order@.len()
    }
}

/// What the committer is to do with the staged outputs.
#[derive(Clone, Debug, PartialEq, Eq)]
pub struct CommitPlan {
    /// Batch positions whose staged state delta is applied, in batch order.
    pub apply: Vec<usize>,
    /// Batch positions whose vote is forwarded, in batch order.
    pub votes: Vec<usize>,
    /// For each executed transaction, its position and prioritization fee.
    pub fees: Vec<(usize, u64)>,
}

/// The outcome of one block.
#[derive(Debug, PartialEq, Eq)]
pub struct BlockOutcome {
    /// One result per transaction of the batch, in batch order.
    pub per_transaction_results: Vec<TransactionResult>,
    /// How many transactions reached execution.
    pub executed: usize,
    /// How many transactions were rejected for expiry.
    pub rejected: usize,
    /// Whether the block was committed, and if not, why.
    pub commit_result: Result<(), RecordError>,
}

/// Whether a reference blockhash of `reference_slot` is too old at
/// `target_slot` for the window.
pub open spec fn window_exceeded(
    window: ValidityWindow,
    reference_slot: Slot,
    target_slot: Slot,
) -> bool {
    match window {
        ValidityWindow::Unbounded => false,
        ValidityWindow::Within(distance) => target_slot - reference_slot > distance,
    }
}

/// For each transaction, whether its window is exceeded at `target_slot`.
pub open spec fn expiry_of(
    transactions: Seq<ResolvedTransaction>,
    windows: Seq<ValidityWindow>,
    target_slot: Slot,
) -> Seq<bool> {
    Seq::new(
        transactions.len(),
        |i: int| window_exceeded(windows[i], transactions[i].reference_slot, target_slot),
    )
}

/// The positions below `n` that are not expired, ascending.
pub open spec fn live_positions(expired: Seq<bool>, n: int) -> Seq<usize>
    decreases n,
{
    if n <= 0 {
        Seq::empty()
    } else if expired[n - 1] {
        live_positions(expired, n - 1)
    } else {
        live_positions(expired, n - 1).push((n - 1) as usize)
    }
}

/// The mixins of the transactions at `positions`, in the order of `positions`.
pub open spec fn mixins_at(transactions: Seq<ResolvedTransaction>, positions: Seq<usize>) -> Seq<
    Mixin,
> {
    Seq::new(positions.len(), |k: int| transactions[positions[k] as int].mixin)
}

/// The result that stands for an execution output.
pub open spec fn result_of(output: ExecutionOutput) -> TransactionResult {
    match output.status {
        ExecutionStatus::Succeeded => TransactionResult::Executed,
        ExecutionStatus::Failed(reason) => TransactionResult::Failed(reason),
    }
}

/// One result per transaction: rejected where expired, else the result of
/// its output, which is the output at the transaction's rank among those
/// executed.
pub open spec fn results_of(expired: Seq<bool>, outputs: Seq<ExecutionOutput>) -> Seq<
    TransactionResult,
> {
    Seq::new(
        expired.len(),
        |i: int|
            if expired[i] {
                TransactionResult::RejectedForExpiry
            } else {
                result_of(outputs[live_positions(expired, i).len() as int])
            },
    )
}

/// The positions, among the first `n` executed, whose execution succeeded.
pub open spec fn succeeded_positions(
    order: Seq<usize>,
    outputs: Seq<ExecutionOutput>,
    n: int,
) -> Seq<usize>
    decreases n,
{
    if n <= 0 {
        Seq::empty()
    } else if outputs[n - 1].status is Succeeded {
        succeeded_positions(order, outputs, n - 1).push(order[n - 1])
    } else {
        succeeded_positions(order, outputs, n - 1)
    }
}

/// The positions, among the first `n` executed, of the votes that succeeded.
pub open spec fn vote_positions(order: Seq<usize>, outputs: Seq<ExecutionOutput>, n: int) -> Seq<
    usize,
>
    decreases n,
{
    if n <= 0 {
        Seq::empty()
    } else if outputs[n - 1].status is Succeeded && outputs[n - 1].is_vote {
        vote_positions(order, outputs, n - 1).push(order[n - 1])
    } else {
        vote_positions(order, outputs, n - 1)
    }
}

/// Each executed transaction's position with its prioritization fee.
pub open spec fn fee_updates(order: Seq<usize>, outputs: Seq<ExecutionOutput>) -> Seq<
    (usize, u64),
> {
    Seq::new(order.len(), |k: int| (order[k], outputs[k].priority_fee))
}

/// The output that the last of the first `n` completions reported for
/// `position`, if any of them did.
pub open spec fn last_output(
    completions: Seq<(usize, ExecutionOutput)>,
    position: usize,
    n: int,
) -> Option<ExecutionOutput>
    decreases n,
{
    if n <= 0 {
        None
    } else if completions[n - 1].0 == position {
        Some(completions[n - 1].1)
    } else {
        last_output(completions, position, n - 1)
    }
}

/// The outputs in the order of `order`, whatever the order of the
/// completions; `None` where a position of `order` reported nothing.
pub open spec fn recombined(
    order: Seq<usize>,
    completions: Seq<(usize, ExecutionOutput)>,
) -> Option<Seq<ExecutionOutput>> {
    if forall|k: int|
        0 <= k < order.len() ==> (#[trigger] last_output(
            completions,
            order[k],
            completions.len() as int,
        )) is Some {
        Some(
            Seq::new(
                order.len(),
                |k: int| last_output(completions, order[k], completions.len() as int).unwrap(),
            ),
        )
    } else {
        None
    }
}

impl ValidityWindow {
    /// Whether the window is exceeded at `target_slot` for a reference
    /// blockhash of `reference_slot`.
    pub fn is_exceeded(&self, reference_slot: Slot, target_slot: Slot) -> (exceeded: bool)
        ensures
            exceeded == window_exceeded(*self, reference_slot, target_slot),
    {
        match self {
            ValidityWindow::Unbounded => false,
            ValidityWindow::Within(distance) => target_slot > reference_slot && target_slot
                - reference_slot > *distance,
        }
    }
}

impl RecordError {
    /// Whether the error asks for intervention rather than a retry against a
    /// fresh slot: only a disconnected ordering service does.
    pub fn is_fatal(&self) -> (fatal: bool)
        ensures
            fatal == (*self is Disconnected),
    {
        match self {
            RecordError::Disconnected => true,
            RecordError::SlotClosed => false,
            RecordError::ServiceBusy => false,
        }
    }
}

/// Accepts the target slot only if it is the slot the ledger is working on.
pub fn check_target_slot(working_slot: Slot, target_slot: Slot) -> (checked: Result<
    (),
    BlockError,
>)
    ensures
        checked is Ok <==> target_slot == working_slot,
        checked is Err ==> checked == Err::<(), BlockError>(
            (BlockError::SlotMismatch { target: target_slot, working: working_slot }),
        ),
{
    if target_slot == working_slot {
        Ok(())
    } else {
        Err(BlockError::SlotMismatch { target: target_slot, working: working_slot })
    }
}

/// Marks each transaction whose validity window is exceeded at `target_slot`.
pub fn expiry_flags(
    transactions: &Vec<ResolvedTransaction>,
    windows: &Vec<ValidityWindow>,
    target_slot: Slot,
) -> (expired: Vec<bool>)
    requires
        transactions@.len() == windows@.len(),
    ensures
        expired@ == expiry_of(transactions@, windows@, target_slot),
{
    let mut expired: Vec<bool> = Vec::new();
    let mut i: usize = 0;
    while i < transactions.len()
        invariant
            i <= transactions@.len(),
            transactions@.len() == windows@.len(),
            expired@.len() == i,
            forall|j: int|
                0 <= j < i ==> expired@[j] == expiry_of(transactions@, windows@, target_slot)[j],
        decreases transactions@.len() - i,
    {
        let exceeded = windows[i].is_exceeded(transactions[i].reference_slot, target_slot);
        expired.push(exceeded);
        i += 1;
    }
    assert(expired@ =~= expiry_of(transactions@, windows@, target_slot));
    expired
}

/// The positions of the transactions to execute: those not expired, in
/// batch order.
pub fn execution_order(expired: &Vec<bool>) -> (order: Vec<usize>)
    ensures
        order@ == live_positions(expired@, expired@.len() as int),
{
    let mut order: Vec<usize> = Vec::new();
    let mut i: usize = 0;
    while i < expired.len()
        invariant
            i <= expired@.len(),
            order@ == live_positions(expired@, i as int),
        decreases expired@.len() - i,
    {
        if !expired[i] {
            order.push(i);
        }
        i += 1;
    }
    order
}

/// The mixins to submit: those of the transactions at `order`, in that order.
pub fn gather_mixins(transactions: &Vec<ResolvedTransaction>, order: &Vec<usize>) -> (mixins: Vec<
    Mixin,
>)
    requires
        forall|k: int| 0 <= k < order@.len() ==> order@[k] < transactions@.len(),
    ensures
        mixins@ == mixins_at(transactions@, order@),
{
    let mut mixins: Vec<Mixin> = Vec::new();
    let mut k: usize = 0;
    while k < order.len()
        invariant
            k <= order@.len(),
            forall|j: int| 0 <= j < order@.len() ==> order@[j] < transactions@.len(),
            mixins@.len() == k,
            forall|j: int| 0 <= j < k ==> mixins@[j] == mixins_at(transactions@, order@)[j],
        decreases order@.len() - k,
    {
        let position = order[k];
        mixins.push(transactions[position].mixin);
        k += 1;
    }
    assert(mixins@ =~= mixins_at(transactions@, order@));
    mixins
}

/// Plans one block: refuses it if the target slot is not the working slot,
/// and otherwise marks the expired transactions and lists, in batch order,
/// what to execute and which mixins to submit.
pub fn plan_block(
    working_slot: Slot,
    target_slot: Slot,
    transactions: &Vec<ResolvedTransaction>,
    windows: &Vec<ValidityWindow>,
) -> (planned: Result<ExecutionPlan, BlockError>)
    requires
        transactions@.len() == windows@.len(),
    ensures
        planned is Ok <==> target_slot == working_slot,
        match planned {
            Ok(plan) => plan.well_formed() && plan.expired@ == expiry_of(
                transactions@,
                windows@,
                target_slot,
            ) && plan.order@ == live_positions(plan.expired@, transactions@.len() as int)
                && plan.mixins@ == mixins_at(transactions@, plan.order@),
            Err(error) => error == (BlockError::SlotMismatch {
                target: target_slot,
                working: working_slot,
            }),
        },
{
    match check_target_slot(working_slot, target_slot) {
        Err(error) => Err(error),
        Ok(()) => {
            let expired = expiry_flags(transactions, windows, target_slot);
            let order = execution_order(&expired);
            let total = expired.len();
            proof {
                lemma_live_positions(expired@, total as int);
            }
            let mixins = gather_mixins(transactions, &order);
            Ok(ExecutionPlan { expired, order, mixins })
        },
    }
}

/// Puts the outputs of a parallel execution back into batch order. Each
/// completion names the batch position it belongs to and may arrive at any
/// time; the outputs come out in the order of `order`. Where a position
/// reported more than once the last report counts, and where a position of
/// `order` reported nothing there is no result.
pub fn recombine(
    total: usize,
    order: &Vec<usize>,
    completions: &Vec<(usize, ExecutionOutput)>,
) -> (outputs: Option<Vec<ExecutionOutput>>)
    requires
        forall|k: int| 0 <= k < order@.len() ==> order@[k] < total,
    ensures
        match outputs {
            Some(gathered) => recombined(order@, completions@) == Some(gathered@),
            None => recombined(order@, completions@) is None,
        },
{
    let mut buffer: Vec<Option<ExecutionOutput>> = Vec::new();
    let mut p: usize = 0;
    while p < total
        invariant
            p <= total,
            buffer@.len() == p,
            forall|q: int| 0 <= q < p ==> buffer@[q] is None,
        decreases total - p,
    {
        buffer.push(None);
        p += 1;
    }
    let mut j: usize = 0;
    while j < completions.len()
        invariant
            j <= completions@.len(),
            buffer@.len() == total,
            forall|q: int|
                0 <= q < total ==> #[trigger] buffer@[q] == last_output(
                    completions@,
                    q as usize,
                    j as int,
                ),
        decreases completions@.len() - j,
    {
        let completion = completions[j];
        if completion.0 < total {
            buffer.set(completion.0, Some(completion.1));
        }
        j += 1;
    }
    let mut gathered: Vec<ExecutionOutput> = Vec::new();
    let mut k: usize = 0;
    while k < order.len()
        invariant
            k <= order@.len(),
            buffer@.len() == total,
            forall|i: int| 0 <= i < order@.len() ==> order@[i] < total,
            forall|q: int|
                0 <= q < total ==> #[trigger] buffer@[q] == last_output(
                    completions@,
                    q as usize,
                    completions@.len() as int,
                ),
            gathered@.len() == k,
            forall|i: int|
                0 <= i < k ==> last_output(completions@, order@[i], completions@.len() as int)
                    == Some(#[trigger] gathered@[i]),
        decreases order@.len() - k,
    {
        let position = order[k];
        match buffer[position] {
            Some(output) => {
                gathered.push(output);
            },
            None => {
                assert(last_output(completions@, order@[k as int], completions@.len() as int)
                    is None);
                return None;
            },
        }
        k += 1;
    }
    proof {
        assert forall|i: int| 0 <= i < order@.len() implies (#[trigger] last_output(
            completions@,
            order@[i],
            completions@.len() as int,
        )) is Some by {
            assert(last_output(completions@, order@[i], completions@.len() as int) == Some(
                gathered@[i],
            ));
        }
        assert(gathered@ =~= recombined(order@, completions@).unwrap());
    }
    Some(gathered)
}

/// One result per transaction of the batch, in batch order: rejected where
/// expired, else what its execution output says.
pub fn transaction_results(expired: &Vec<bool>, outputs: &Vec<ExecutionOutput>) -> (results: Vec<
    TransactionResult,
>)
    requires
        outputs@.len() == live_positions(expired@, expired@.len() as int).len(),
    ensures
        results@ == results_of(expired@, outputs@),
{
    let mut results: Vec<TransactionResult> = Vec::new();
    let available = outputs.len();
    let mut i: usize = 0;
    let mut rank: usize = 0;
    while i < expired.len()
        invariant
            i <= expired@.len(),
            available == outputs@.len(),
            rank == live_positions(expired@, i as int).len(),
            outputs@.len() == live_positions(expired@, expired@.len() as int).len(),
            results@.len() == i,
            forall|j: int| 0 <= j < i ==> results@[j] == results_of(expired@, outputs@)[j],
        decreases expired@.len() - i,
    {
        proof {
            lemma_live_prefix(expired@, i as int + 1, expired@.len() as int);
        }
        if expired[i] {
            results.push(TransactionResult::RejectedForExpiry);
        } else {
            let result = match outputs[rank].status {
                ExecutionStatus::Succeeded => TransactionResult::Executed,
                ExecutionStatus::Failed(reason) => TransactionResult::Failed(reason),
            };
            results.push(result);
            rank += 1;
        }
        i += 1;
    }
    assert(results@ =~= results_of(expired@, outputs@));
    results
}

/// What the committer is to do. Where the ordering log accepted the
/// submission: apply the delta of every transaction that succeeded, forward
/// the votes among them, and record the fee of every executed transaction.
/// Where it did not: nothing at all, so that no effect of the block reaches
/// canonical state.
pub fn commit_plan(order: &Vec<usize>, outputs: &Vec<ExecutionOutput>, accepted: bool) -> (plan:
    CommitPlan)
    requires
        order@.len() == outputs@.len(),
    ensures
        accepted ==> plan.apply@ == succeeded_positions(order@, outputs@, order@.len() as int)
            && plan.votes@ == vote_positions(order@, outputs@, order@.len() as int) && plan.fees@
            == fee_updates(order@, outputs@),
        !accepted ==> plan.apply@.len() == 0 && plan.votes@.len() == 0 && plan.fees@.len() == 0,
{
    let mut apply: Vec<usize> = Vec::new();
    let mut votes: Vec<usize> = Vec::new();
    let mut fees: Vec<(usize, u64)> = Vec::new();
    if accepted {
        let mut k: usize = 0;
        while k < order.len()
            invariant
                k <= order@.len(),
                order@.len() == outputs@.len(),
                apply@ == succeeded_positions(order@, outputs@, k as int),
                votes@ == vote_positions(order@, outputs@, k as int),
                fees@.len() == k,
                forall|j: int| 0 <= j < k ==> fees@[j] == fee_updates(order@, outputs@)[j],
            decreases order@.len() - k,
        {
            let output = outputs[k];
            match output.status {
                ExecutionStatus::Succeeded => {
                    apply.push(order[k]);
                    if output.is_vote {
                        votes.push(order[k]);
                    }
                },
                ExecutionStatus::Failed(_) => {},
            }
            fees.push((order[k], output.priority_fee));
            k += 1;
        }
        assert(fees@ =~= fee_updates(order@, outputs@));
    }
    CommitPlan { apply, votes, fees }
}

/// What a finished block hands back: the outcome for the caller and the
/// plan for the committer.
#[derive(Debug, PartialEq, Eq)]
pub struct Finished {
    pub outcome: BlockOutcome,
    pub to_commit: CommitPlan,
}

/// Finishes a block once execution and the submission to the ordering log
/// have reported back. Per-transaction results never fail the block; the
/// commit result is the ordering log's answer, and the committer is given
/// work only where that answer is an acceptance.
pub fn finish_block(
    plan: &ExecutionPlan,
    outputs: &Vec<ExecutionOutput>,
    submission: Result<(), RecordError>,
) -> (finished: Finished)
    requires
        plan.well_formed(),
        outputs@.len() == plan.order@.len(),
    ensures
        finished.outcome.per_transaction_results@ == results_of(plan.expired@, outputs@),
        finished.outcome.executed == plan.order@.len(),
        finished.outcome.executed + finished.outcome.rejected == plan.expired@.len(),
        finished.outcome.commit_result == submission,
        submission is Ok ==> finished.to_commit.apply@ == succeeded_positions(
            plan.order@,
            outputs@,
            plan.order@.len() as int,
        ) && finished.to_commit.votes@ == vote_positions(
            plan.order@,
            outputs@,
            plan.order@.len() as int,
        ) && finished.to_commit.fees@ == fee_updates(plan.order@, outputs@),
        submission is Err ==> finished.to_commit.apply@.len() == 0
            && finished.to_commit.votes@.len() == 0 && finished.to_commit.fees@.len() == 0,
{
    let total = plan.expired.len();
    proof {
        lemma_live_positions(plan.expired@, total as int);
    }
    let per_transaction_results = transaction_results(&plan.expired, outputs);
    let executed = plan.order.len();
    let rejected = total - executed;
    let accepted = match submission {
        Ok(_) => true,
        Err(_) => false,
    };
    let to_commit = commit_plan(&plan.order, outputs, accepted);
    Finished {
        outcome: BlockOutcome {
            per_transaction_results,
            executed,
            rejected,
            commit_result: submission,
        },
        to_commit,
    }
}

/// The live positions below `n` are fewer than or as many as `n`, each lies
/// below `n` and is not expired, and they ascend strictly.
pub proof fn lemma_live_positions(expired: Seq<bool>, n: int)
    requires
        0 <= n <= expired.len(),
        n <= usize::MAX,
    ensures
        live_positions(expired, n).len() <= n,
        forall|k: int|
            0 <= k < live_positions(expired, n).len() ==> (#[trigger] live_positions(
                expired,
                n,
            )[k]) < n && !expired[live_positions(expired, n)[k] as int],
        forall|a: int, b: int|
            0 <= a < b < live_positions(expired, n).len() ==> (#[trigger] live_positions(
                expired,
                n,
            )[a]) < (#[trigger] live_positions(expired, n)[b]),
    decreases n,
{
    if n > 0 {
        lemma_live_positions(expired, n - 1);
    }
}

/// The positions live below `i` open the sequence of those live below `n`,
/// where `i` is at most `n`.
pub proof fn lemma_live_prefix(expired: Seq<bool>, i: int, n: int)
    requires
        0 <= i <= n,
    ensures
        live_positions(expired, i).len() <= live_positions(expired, n).len(),
        forall|k: int|
            0 <= k < live_positions(expired, i).len() ==> (#[trigger] live_positions(expired, n)[k])
                == live_positions(expired, i)[k],
    decreases n,
{
    if i < n {
        lemma_live_prefix(expired, i, n - 1);
    }
}

/// A transaction whose validity window is exceeded is reported as rejected
/// for expiry, and its position is not among those executed and submitted.
/// Every other transaction of the batch is executed, stands among the
/// submitted positions at its rank, and is reported by its own output.
pub proof fn law_expired_rejected_others_processed(
    expired: Seq<bool>,
    outputs: Seq<ExecutionOutput>,
    i: int,
)
    requires
        0 <= i < expired.len(),
        expired.len() <= usize::MAX,
        outputs.len() == live_positions(expired, expired.len() as int).len(),
    ensures
        expired[i] ==> results_of(expired, outputs)[i] == TransactionResult::RejectedForExpiry
            && !live_positions(expired, expired.len() as int).contains(i as usize),
        !expired[i] ==> live_positions(expired, i).len() < outputs.len() && live_positions(
            expired,
            expired.len() as int,
        )[live_positions(expired, i).len() as int] == i && results_of(expired, outputs)[i]
            == result_of(outputs[live_positions(expired, i).len() as int]),
{
    let all = live_positions(expired, expired.len() as int);
    lemma_live_positions(expired, expired.len() as int);
    if expired[i] {
        if all.contains(i as usize) {
            let k = choose|k: int| 0 <= k < all.len() && all[k] == i as usize;
            assert(!expired[all[k] as int]);
        }
    } else {
        let rank = live_positions(expired, i).len() as int;
        assert(live_positions(expired, i + 1) == live_positions(expired, i).push(i as usize));
        lemma_live_prefix(expired, i + 1, expired.len() as int);
        assert(all[rank] == live_positions(expired, i + 1)[rank]);
    }
}

/// The mixins are submitted in batch order, whatever the order in which
/// execution completed: there is one mixin per live position, each is the
/// mixin of the transaction at that position, and the positions ascend.
pub proof fn law_submission_keeps_batch_order(
    transactions: Seq<ResolvedTransaction>,
    expired: Seq<bool>,
    a: int,
    b: int,
)
    requires
        expired.len() == transactions.len(),
        transactions.len() <= usize::MAX,
        0 <= a < b < live_positions(expired, expired.len() as int).len(),
    ensures
        mixins_at(transactions, live_positions(expired, expired.len() as int)).len()
            == live_positions(expired, expired.len() as int).len(),
        live_positions(expired, expired.len() as int)[a] < live_positions(
            expired,
            expired.len() as int,
        )[b],
        live_positions(expired, expired.len() as int)[b] < transactions.len(),
        mixins_at(transactions, live_positions(expired, expired.len() as int))[a]
            == transactions[live_positions(expired, expired.len() as int)[a] as int].mixin,
        mixins_at(transactions, live_positions(expired, expired.len() as int))[b]
            == transactions[live_positions(expired, expired.len() as int)[b] as int].mixin,
{
    lemma_live_positions(expired, expired.len() as int);
}

/// Among completions of which no two name the same position, the first `n`
/// report for the position of the `j`-th what the `j`-th reported.
proof fn lemma_last_output_of_unique(completions: Seq<(usize, ExecutionOutput)>, j: int, n: int)
    requires
        0 <= j < n <= completions.len(),
        forall|a: int, b: int|
            0 <= a < b < completions.len() ==> (#[trigger] completions[a]).0 != (
            #[trigger] completions[b]).0,
    ensures
        last_output(completions, completions[j].0, n) == Some(completions[j].1),
    decreases n,
{
    if j < n - 1 {
        lemma_last_output_of_unique(completions, j, n - 1);
    }
}

/// Where no position reports twice, what is recombined does not depend on
/// the order in which the completions arrived: each position's output is
/// the one its completion reported, wherever that completion stands.
pub proof fn law_recombine_ignores_arrival_order(
    completions: Seq<(usize, ExecutionOutput)>,
    j: int,
)
    requires
        0 <= j < completions.len(),
        forall|a: int, b: int|
            0 <= a < b < completions.len() ==> (#[trigger] completions[a]).0 != (
            #[trigger] completions[b]).0,
    ensures
        last_output(completions, completions[j].0, completions.len() as int) == Some(
            completions[j].1,
        ),
{
    lemma_last_output_of_unique(completions, j, completions.len() as int);
}

} // verus!

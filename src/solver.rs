//! Decisions of the solver loop between batches of walk steps.
use crate::cli::max_ops_limit;
use vstd::prelude::*;

verus! {

/// What the solver does after a batch.
#[derive(Clone, Copy, Debug)]
pub enum BatchOutcome {
    /// A key that passed `k·G == P`: the run ends with it (32 big-endian bytes).
    Found([u8; 32]),
    /// No verified key and budget left: run another batch.
    Continue,
    /// No verified key and the operation budget is spent: the run ends
    /// without a key, after the given number of operations.
    LimitReached(u64),
}

/// The operation budget that `max_ops` stands for: `0` means no limit.
pub open spec fn budget(max_ops: u64) -> u64 {
    if max_ops == 0 {
        u64::MAX
    } else {
        max_ops
    }
}

/// Decide the next move after a batch. `candidate` is the key that a
/// tame/wild collision of the batch gave, if any, and `verified` whether it
/// passed `k·G == P`. A verified key ends the run. A candidate that failed is
/// not fatal: the search goes on while `total_ops` stays under the budget.
pub fn after_batch(candidate: Option<[u8; 32]>, verified: bool, total_ops: u64, max_ops: u64) -> (r:
    BatchOutcome)
    ensures
        (candidate is Some && verified) ==> r == BatchOutcome::Found(candidate->Some_0),
        !(candidate is Some && verified) && total_ops >= budget(max_ops) ==> r
            == BatchOutcome::LimitReached(total_ops),
        !(candidate is Some && verified) && total_ops < budget(max_ops) ==> r
            == BatchOutcome::Continue,
{
    match candidate {
        Some(k) => {
            if verified {
                return BatchOutcome::Found(k);
            }
        },
        None => {},
    }
    if total_ops >= max_ops_limit(max_ops) {
        BatchOutcome::LimitReached(total_ops)
    } else {
        BatchOutcome::Continue
    }
}

} // verus!

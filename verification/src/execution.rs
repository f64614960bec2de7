//! How a renewal is run: one directory after the other, or on a pool.
use crate::plan::Plan;
use crate::pool;
use crate::pool::{PoolState, PoolView};
use crate::serial::{SerialRun, SerialView};
use crate::session::Out;
use vstd::prelude::*;

verus! {

/// A renewal that is about to run.
pub enum Execution {
    /// One directory after the other, without a pool.
    Serial(SerialRun),
    /// On a pool of this many workers.
    Pool(PoolState, u64),
}

/// Sets up the renewal of a plan's kept directories.
///
/// With at most one worker it runs serially: fast and deterministic for small runs.
/// Otherwise one pool runs both halves, the walks and the batches that they queue.
pub fn execute(plan: &Plan, jobs_n: u64, out: &Out) -> (r: Execution)
    ensures
        jobs_n <= 1 ==> match r {
            Execution::Serial(run) => {
                &&& run.wf()
                &&& run.silent() == out.json_mode
                &&& run@ == SerialView::start(pool::dirs_of(plan@.kept))
            },
            Execution::Pool(_, _) => false,
        },
        jobs_n > 1 ==> match r {
            Execution::Serial(_) => false,
            Execution::Pool(state, workers) => {
                &&& workers == jobs_n
                &&& state.wf()
                &&& state@ == PoolView::start(pool::dirs_of(plan@.kept))
            },
        },
{
    if jobs_n <= 1 {
        Execution::Serial(SerialRun::new(plan, out.json_mode))
    } else {
        Execution::Pool(PoolState::new(plan), jobs_n)
    }
}

} // verus!

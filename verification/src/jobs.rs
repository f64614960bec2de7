//! How many workers a renewal runs on.
use vstd::prelude::*;

verus! {

/// How many workers a renewal runs on by default, where `online` CPUs are reported.
pub open spec fn workers(online: int) -> int {
    let cpus = if online > 0 {
        online
    } else {
        2
    };
    if cpus / 4 < 1 {
        1
    } else if cpus / 4 > 8 {
        8
    } else {
        cpus / 4
    }
}

/// A larger machine never gets fewer workers.
pub proof fn workers_grow_with_the_machine(a: int, b: int)
    requires
        0 < a <= b,
    ensures
        workers(a) <= workers(b),
{
}

/// There is always a worker and never more than eight of them; in between there is one
/// for each four CPUs.
pub proof fn a_worker_for_each_four_cpus(online: int)
    ensures
        1 <= workers(online) <= 8,
        1 < workers(online) < 8 ==> 4 * workers(online) <= online < 4 * workers(online) + 4,
        workers(online) == 1 <==> online < 8,
        workers(online) == 8 <==> online >= 32,
{
}

/// The default `-j` worker count for a machine with `online` CPUs:
/// `max(1, min(8, cpus / 4))`.
///
/// `online` is the count of online system CPUs as the system reports it, not the
/// parallelism that the process is limited to; a report that is not positive
/// counts as two.
pub fn default_jobs(online: i64) -> (jobs: u64)
    ensures
        online > 0 ==> jobs == if online / 4 < 1 {
            1
        } else if online / 4 > 8 {
            8
        } else {
            online / 4
        },
        online <= 0 ==> jobs == 1,
        1 <= jobs <= 8,
        jobs == workers(online as int),
{
    let cpus: u64 = if online > 0 {
        online as u64
    } else {
        2
    };
    let quarter: u64 = cpus / 4;
    if quarter < 1 {
        1
    } else if quarter > 8 {
        8
    } else {
        quarter
    }
}

} // verus!

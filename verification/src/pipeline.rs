//! The shape of the parallel pipeline: how many workers compress blocks, and how many
//! entries the queues between producer, workers and serializer hold.

use vstd::prelude::*;

verus! {

/// The numbers that size a pipeline.
#[derive(Debug, Clone, Copy, PartialEq, Eq)]
pub struct PipelinePlan {
    /// Number of worker threads: one for each core, and at least one.
    pub workers: usize,
    /// Capacity of the job queue and of the result queue: two entries for each worker.
    pub queue_capacity: usize,
}

/// The plan for a machine with `cores` cores.
pub open spec fn spec_plan_for(cores: usize) -> PipelinePlan {
    let workers = if cores == 0 {
        1usize
    } else {
        cores
    };
    PipelinePlan {
        workers,
        queue_capacity: if 2 * workers <= usize::MAX {
            (2 * workers) as usize
        } else {
            usize::MAX
        },
    }
}

/// The plan for a machine with `cores` cores.
#[verifier::when_used_as_spec(spec_plan_for)]
pub fn plan_for(cores: usize) -> (plan: PipelinePlan)
    ensures
        plan == spec_plan_for(cores),
        plan.workers >= 1,
        plan.queue_capacity >= 2,
{
    let workers: usize = if cores == 0 {
        1
    } else {
        cores
    };
    let queue_capacity: usize = if workers <= usize::MAX / 2 {
        2 * workers
    } else {
        usize::MAX
    };
    PipelinePlan { workers, queue_capacity }
}

/// Calls `num_cpus::get`, the number of logical cores that this process may use.
/// Trusted: that it is at least 1, as the function's documentation promises.
#[verifier::external_body]
fn available_cores() -> (cores: usize)
    ensures
        cores >= 1,
{
    num_cpus::get()
}

/// The plan for this machine.
pub fn plan() -> (plan: PipelinePlan)
    ensures
        exists|cores: usize| cores >= 1 && plan == #[trigger] plan_for(cores),
        plan.workers >= 1,
        plan.queue_capacity >= 2,
{
    plan_for(available_cores())
}

} // verus!

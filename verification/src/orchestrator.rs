//! The orchestrator's arithmetic and its reading of how the tasks ended.

use crate::generator::GeneratorEnd;
use crate::queue::{admissible, capacity_for, queue_capacity};
use crate::worker::WorkerEnd;
use vstd::prelude::*;

verus! {

/// The number of workers to run: the number asked for, or, where none was
/// asked for, the number of execution units that the host reports, and one
/// where it reports none.
pub open spec fn effective(requested: nat, detected: nat) -> nat {
    if requested != 0 {
        requested
    } else if detected >= 1 {
        detected
    } else {
        1
    }
}

/// Computes `effective`.
pub fn effective_concurrency(requested: usize, detected: usize) -> (concurrency: usize)
    ensures
        concurrency == effective(requested as nat, detected as nat),
        concurrency >= 1,
{
    if requested != 0 {
        requested
    } else if detected >= 1 {
        detected
    } else {
        1
    }
}

/// `get` of num_cpus: the number of logical cores that this process may use.
/// Nothing is claimed of the number: it depends on the host.
#[verifier::external_body]
fn detected_parallelism() -> (detected: usize) {
    num_cpus::get()
}

/// The number of workers for a request, zero meaning "as many as the host
/// has execution units".
pub fn resolve_concurrency(requested: usize) -> (concurrency: usize)
    ensures
        concurrency >= 1,
        requested != 0 ==> concurrency == requested,
{
    if requested != 0 {
        requested
    } else {
        effective_concurrency(requested, detected_parallelism())
    }
}

/// What the orchestrator sets up for a run.
#[derive(Clone, Copy, PartialEq, Eq, Structural, Debug)]
pub struct Plan {
    /// The number of worker tasks.
    pub concurrency: usize,
    /// The capacity of the work queue.
    pub capacity: usize,
    /// The number of tasks in all: the workers and the one generator.
    pub tasks: usize,
}

/// The plan for `concurrency` workers.
pub fn plan(concurrency: usize) -> (p: Plan)
    requires
        admissible(concurrency as nat),
    ensures
        p.concurrency == concurrency,
        p.capacity == capacity_for(concurrency as nat),
        p.tasks == concurrency + 1,
{
    Plan { concurrency, capacity: queue_capacity(concurrency), tasks: concurrency + 1 }
}

/// How one task ended.
#[derive(Debug)]
pub enum TaskReport {
    /// The generator came to rest.
    Generator(GeneratorEnd),
    /// A worker came to rest.
    Worker(WorkerEnd),
    /// The task broke off for a reason of its own; the text says why.
    Fault(String),
}

/// How the run ended.
#[derive(Clone, Copy, PartialEq, Eq, Structural, Debug)]
pub enum RunOutcome {
    /// A worker found the key.
    Found,
    /// The search ended and no candidate was accepted.
    NotFound,
    /// The task at this place, the first such, broke off.
    Faulted(usize),
}

/// Whether some worker ended on an accepted candidate.
pub open spec fn some_found(reports: Seq<TaskReport>) -> bool {
    exists|i: int| 0 <= i < reports.len() && reports[i] == TaskReport::Worker(WorkerEnd::Found)
}

/// Finds the first task that broke off.
pub fn first_fault(reports: &Vec<TaskReport>) -> (r: Option<usize>)
    ensures
        match r {
            Some(i) => i < reports@.len() && reports@[i as int] is Fault && forall|j: int|
                0 <= j < i ==> !(reports@[j] is Fault),
            None => forall|j: int| 0 <= j < reports@.len() ==> !(reports@[j] is Fault),
        },
{
    let mut i: usize = 0;
    while i < reports.len()
        invariant
            i <= reports@.len(),
            forall|j: int| 0 <= j < i ==> !(reports@[j] is Fault),
        decreases reports@.len() - i,
    {
        match &reports[i] {
            TaskReport::Fault(_) => {
                return Some(i);
            },
            _ => {},
        }
        i += 1;
    }
    None
}

/// Reads the run's outcome off the tasks' reports: the first fault if there
/// is one; else found, if a worker found the key; else not found.
pub fn conclude(reports: &Vec<TaskReport>) -> (outcome: RunOutcome)
    ensures
        match outcome {
            RunOutcome::Faulted(i) => i < reports@.len() && reports@[i as int] is Fault
                && forall|j: int| 0 <= j < i ==> !(reports@[j] is Fault),
            RunOutcome::Found => some_found(reports@) && forall|j: int|
                0 <= j < reports@.len() ==> !(reports@[j] is Fault),
            RunOutcome::NotFound => !some_found(reports@) && forall|j: int|
                0 <= j < reports@.len() ==> !(reports@[j] is Fault),
        },
{
    match first_fault(reports) {
        Some(i) => {
            return RunOutcome::Faulted(i);
        },
        None => {},
    }
    let mut i: usize = 0;
    while i < reports.len()
        invariant
            i <= reports@.len(),
            forall|j: int| 0 <= j < reports@.len() ==> !(reports@[j] is Fault),
            forall|j: int| 0 <= j < i ==> reports@[j] != TaskReport::Worker(WorkerEnd::Found),
        decreases reports@.len() - i,
    {
        match &reports[i] {
            TaskReport::Worker(WorkerEnd::Found) => {
                return RunOutcome::Found;
            },
            _ => {},
        }
        i += 1;
    }
    RunOutcome::NotFound
}

} // verus!

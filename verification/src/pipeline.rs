//! The pipeline as a whole: one generator, a bounded queue, a pool of
//! workers and the stop signal, as a transition system in which any task
//! that can move may move next.
//!
//! Each task moves by its own rule, `generator_next` or `worker_next`, the
//! rule that the executable `Generator` and `Worker` follow. What stands
//! between the tasks is taken as follows. The queue hands candidates out in
//! the order in which it took them, never holds more than its capacity,
//! refuses the generator once every worker is at rest, and tells a worker
//! that it is closed once the generator is at rest and nothing waits in it.
//! Reading the stop signal and setting it are single moves, and a reader
//! sees the signal as it is. A call of the verifier ends, with any verdict.

use crate::generator::{generator_next, GeneratorEvent, GeneratorModel, GeneratorPhase};
use crate::worker::{worker_next, worker_raises, Verdict, WorkerInput, WorkerModel};
use vstd::prelude::*;

verus! {

/// One state of the pipeline, with a record of what has happened so far.
pub ghost struct Pipeline {
    pub generator: GeneratorModel,
    /// The most candidates that the queue holds at a time.
    pub capacity: nat,
    /// The candidates that wait in the queue, the oldest first.
    pub queue: Seq<Seq<char>>,
    pub workers: Seq<WorkerModel>,
    /// The stop signal.
    pub stop: bool,
    /// Every candidate that a worker has taken from the queue, in the order
    /// of taking: the calls of the verifier that were begun.
    pub attempts: Seq<Seq<char>>,
    /// Every call of the verifier that has ended, with its verdict, in the
    /// order of ending.
    pub settled: Seq<(Seq<char>, Verdict)>,
    /// How many calls had ended when the stop signal was set, the accepted
    /// one included.
    pub settled_at_stop: nat,
    /// How many candidates the queue took while the stop signal was set.
    pub late_handoffs: nat,
}

/// One move of one task.
pub ghost enum Step {
    /// The queue takes the generator's candidate.
    Handoff,
    /// The queue, left by every worker, refuses the generator's candidate.
    Refuse,
    /// The generator reads the stop signal.
    GeneratorRead,
    /// This worker takes the oldest candidate from the queue.
    Dequeue(int),
    /// This worker finds the queue closed and empty.
    Drain(int),
    /// The verifier answers this worker with this verdict.
    Settle(int, Verdict),
    /// This worker reads the stop signal.
    WorkerRead(int),
}

impl Pipeline {
    /// The pipeline before anything has moved.
    pub open spec fn init(
        alphabet: Seq<char>,
        shortest: nat,
        longest: nat,
        capacity: nat,
        workers: nat,
    ) -> Pipeline {
        Pipeline {
            generator: GeneratorModel::start(alphabet, shortest, longest),
            capacity,
            queue: Seq::empty(),
            workers: Seq::new(workers, |i: int| WorkerModel::Waiting),
            stop: false,
            attempts: Seq::empty(),
            settled: Seq::empty(),
            settled_at_stop: 0,
            late_handoffs: 0,
        }
    }

    /// Every worker is at rest.
    pub open spec fn all_done(self) -> bool {
        forall|i: int| 0 <= i < self.workers.len() ==> self.workers[i] is Done
    }

    /// Every task is at rest.
    pub open spec fn terminal(self) -> bool {
        self.generator.phase is Done && self.all_done()
    }

    /// Setting the stop signal: the first setting records when it happened, a
    /// later one changes nothing.
    pub open spec fn raise(self) -> Pipeline {
        if self.stop {
            self
        } else {
            Pipeline { stop: true, settled_at_stop: self.settled.len(), ..self }
        }
    }

    /// The candidates that the verifier has accepted.
    pub open spec fn winners(self) -> Set<Seq<char>> {
        Set::new(
            |c: Seq<char>|
                exists|k: int|
                    0 <= k < self.settled.len() && self.settled[k] == (c, Verdict::Accepted),
        )
    }

    /// Whether `step` can be taken.
    pub open spec fn enabled(self, step: Step) -> bool {
        match step {
            Step::Handoff => {
                &&& self.generator.phase == GeneratorPhase::Offering
                &&& self.queue.len() < self.capacity
                &&& !self.all_done()
            },
            Step::Refuse => self.generator.phase == GeneratorPhase::Offering && self.all_done(),
            Step::GeneratorRead => self.generator.phase == GeneratorPhase::Reading,
            Step::Dequeue(i) => {
                &&& 0 <= i < self.workers.len()
                &&& self.workers[i] is Waiting
                &&& self.queue.len() > 0
            },
            Step::Drain(i) => {
                &&& 0 <= i < self.workers.len()
                &&& self.workers[i] is Waiting
                &&& self.queue.len() == 0
                &&& self.generator.phase is Done
            },
            Step::Settle(i, _) => 0 <= i < self.workers.len() && self.workers[i] is Verifying,
            Step::WorkerRead(i) => 0 <= i < self.workers.len() && self.workers[i] is Reading,
        }
    }

    /// The state after `step`. Each task moves by its own rule, on the event
    /// that the step stands for.
    pub open spec fn apply(self, step: Step) -> Pipeline {
        match step {
            Step::Handoff => Pipeline {
                generator: generator_next(self.generator, GeneratorEvent::HandedOver),
                queue: self.queue.push(self.generator.current()),
                late_handoffs: if self.stop {
                    self.late_handoffs + 1
                } else {
                    self.late_handoffs
                },
                ..self
            },
            Step::Refuse => Pipeline {
                generator: generator_next(self.generator, GeneratorEvent::Refused),
                ..self
            },
            Step::GeneratorRead => Pipeline {
                generator: generator_next(self.generator, GeneratorEvent::StopRead(self.stop)),
                ..self
            },
            Step::Dequeue(i) => Pipeline {
                workers: self.workers.update(
                    i,
                    worker_next(self.workers[i], WorkerInput::Dequeued(self.queue[0])),
                ),
                queue: self.queue.subrange(1, self.queue.len() as int),
                attempts: self.attempts.push(self.queue[0]),
                ..self
            },
            Step::Drain(i) => Pipeline {
                workers: self.workers.update(
                    i,
                    worker_next(self.workers[i], WorkerInput::QueueClosed),
                ),
                ..self
            },
            Step::Settle(i, verdict) => {
                let after = Pipeline {
                    workers: self.workers.update(
                        i,
                        worker_next(self.workers[i], WorkerInput::Invoked(verdict)),
                    ),
                    settled: self.settled.push((self.workers[i]->Verifying_0, verdict)),
                    ..self
                };
                if worker_raises(self.workers[i], WorkerInput::Invoked(verdict)) {
                    after.raise()
                } else {
                    after
                }
            },
            Step::WorkerRead(i) => Pipeline {
                workers: self.workers.update(
                    i,
                    worker_next(self.workers[i], WorkerInput::StopRead(self.stop)),
                ),
                ..self
            },
        }
    }

    /// `self` can become `after` in one move.
    pub open spec fn next(self, after: Pipeline) -> bool {
        exists|step: Step| self.enabled(step) && after == self.apply(step)
    }
}

/// A run of the pipeline: it starts before anything has moved, and each
/// state comes from the one before by one move.
pub open spec fn execution(
    trace: Seq<Pipeline>,
    alphabet: Seq<char>,
    shortest: nat,
    longest: nat,
    capacity: nat,
    workers: nat,
) -> bool {
    &&& trace.len() >= 1
    &&& trace[0] == Pipeline::init(alphabet, shortest, longest, capacity, workers)
    &&& forall|i: int| 0 <= i < trace.len() - 1 ==> (#[trigger] trace[i]).next(trace[i + 1])
}

/// How many workers satisfy `p`.
pub open spec fn count(workers: Seq<WorkerModel>, p: spec_fn(WorkerModel) -> bool) -> nat
    decreases workers.len(),
{
    if workers.len() == 0 {
        0
    } else {
        count(workers.drop_last(), p) + if p(workers.last()) {
            1nat
        } else {
            0nat
        }
    }
}

/// Changing one worker changes the count by what that worker adds or takes
/// away.
pub proof fn lemma_count_update(
    workers: Seq<WorkerModel>,
    i: int,
    w: WorkerModel,
    p: spec_fn(WorkerModel) -> bool,
)
    requires
        0 <= i < workers.len(),
    ensures
        count(workers.update(i, w), p) + (if p(workers[i]) {
            1nat
        } else {
            0nat
        }) == count(workers, p) + (if p(w) {
            1nat
        } else {
            0nat
        }),
    decreases workers.len(),
{
    let updated = workers.update(i, w);
    if i == workers.len() - 1 {
        assert(updated.drop_last() =~= workers.drop_last());
    } else {
        assert(updated.drop_last() =~= workers.drop_last().update(i, w));
        lemma_count_update(workers.drop_last(), i, w, p);
    }
}

/// No more workers satisfy `p` than there are workers.
pub proof fn lemma_count_bound(workers: Seq<WorkerModel>, p: spec_fn(WorkerModel) -> bool)
    ensures
        count(workers, p) <= workers.len(),
    decreases workers.len(),
{
    if workers.len() > 0 {
        lemma_count_bound(workers.drop_last(), p);
    }
}

/// Where no worker satisfies `p`, the count is zero.
pub proof fn lemma_count_none(workers: Seq<WorkerModel>, p: spec_fn(WorkerModel) -> bool)
    requires
        forall|i: int| 0 <= i < workers.len() ==> !p(#[trigger] workers[i]),
    ensures
        count(workers, p) == 0,
    decreases workers.len(),
{
    if workers.len() > 0 {
        let front = workers.drop_last();
        assert forall|i: int| 0 <= i < front.len() implies !p(#[trigger] front[i]) by {
            assert(front[i] == workers[i]);
        }
        lemma_count_none(front, p);
    }
}

} // verus!

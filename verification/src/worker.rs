//! The verifier worker: a state machine that takes candidates from the queue,
//! has each one judged by the outside verifier, reports what came of it, and
//! reads the stop signal after each one.

use vstd::prelude::*;
use vstd::string::StringExecFns;

verus! {

/// How one call of the outside verifier ended.
#[derive(Debug)]
pub enum Invocation {
    /// The verifier ran and left with this exit code.
    Exited(i32),
    /// The verifier ran and left no exit code that could be read.
    NoExitCode,
    /// The verifier could not be started or did not complete; the text says why.
    LaunchFailed(String),
}

/// What a call of the verifier says of the candidate.
#[derive(Clone, Copy, PartialEq, Eq, Structural, Debug)]
pub enum Verdict {
    /// Exit code zero: the candidate is the key.
    Accepted,
    /// Another exit code: the candidate is not the key.
    Rejected(i32),
    /// The call did not come to a verdict.
    Errored,
}

/// The verdict that an invocation amounts to.
pub open spec fn verdict_of(invocation: Invocation) -> Verdict {
    match invocation {
        Invocation::Exited(code) => if code == 0 {
            Verdict::Accepted
        } else {
            Verdict::Rejected(code)
        },
        Invocation::NoExitCode => Verdict::Errored,
        Invocation::LaunchFailed(_) => Verdict::Errored,
    }
}

/// What became of one candidate.
#[derive(Debug)]
pub enum WorkerOutcome {
    /// The candidate was accepted: it is the winner.
    Success(String),
    /// The candidate was rejected, with this exit code.
    Failure(String, i32),
    /// The verifier could not be brought to judge the candidate, for this cause.
    Error(String, String),
}

/// A `WorkerOutcome` over mathematical strings.
pub ghost enum OutcomeModel {
    Success(Seq<char>),
    Failure(Seq<char>, i32),
    Error(Seq<char>, Seq<char>),
}

impl View for WorkerOutcome {
    type V = OutcomeModel;

    open spec fn view(&self) -> OutcomeModel {
        match self {
            WorkerOutcome::Success(candidate) => OutcomeModel::Success(candidate@),
            WorkerOutcome::Failure(candidate, code) => OutcomeModel::Failure(candidate@, *code),
            WorkerOutcome::Error(candidate, cause) => OutcomeModel::Error(candidate@, cause@),
        }
    }
}

/// The outcome for `candidate` after `invocation`: success on exit code zero,
/// failure with the code on any other, an error where the call gave no code.
pub open spec fn outcome_of(candidate: Seq<char>, invocation: Invocation) -> OutcomeModel {
    match invocation {
        Invocation::Exited(code) => if code == 0 {
            OutcomeModel::Success(candidate)
        } else {
            OutcomeModel::Failure(candidate, code)
        },
        Invocation::NoExitCode => OutcomeModel::Error(candidate, "no exit code"@),
        Invocation::LaunchFailed(cause) => OutcomeModel::Error(candidate, cause@),
    }
}

/// Classifies the end of one call of the verifier.
pub fn classify(candidate: String, invocation: Invocation) -> (outcome: WorkerOutcome)
    ensures
        outcome@ == outcome_of(candidate@, invocation),
{
    match invocation {
        Invocation::Exited(code) => {
            if code == 0 {
                WorkerOutcome::Success(candidate)
            } else {
                WorkerOutcome::Failure(candidate, code)
            }
        },
        Invocation::NoExitCode => WorkerOutcome::Error(candidate, String::from_str("no exit code")),
        Invocation::LaunchFailed(cause) => WorkerOutcome::Error(candidate, cause),
    }
}

/// The arguments with which the verifier is called for one candidate: the
/// test command, the candidate as the password, and the switches that answer
/// every question with yes and silence all output, then the artifact.
pub open spec fn arguments_of(candidate: Seq<char>, artifact: Seq<char>) -> Seq<Seq<char>> {
    seq!["t"@, "-p"@ + candidate, "-y"@, "-inul"@, artifact]
}

/// Builds the verifier's argument list for `candidate` and `artifact`.
pub fn verifier_arguments(candidate: &str, artifact: &str) -> (args: Vec<String>)
    ensures
        args@.len() == 5,
        forall|i: int| 0 <= i < 5 ==> (#[trigger] args@[i])@ == arguments_of(candidate@, artifact@)[i],
{
    let mut args: Vec<String> = Vec::new();
    args.push(String::from_str("t"));
    args.push(String::from_str("-p").concat(candidate));
    args.push(String::from_str("-y"));
    args.push(String::from_str("-inul"));
    args.push(String::from_str(artifact));
    args
}

/// Why a worker came to rest.
#[derive(Clone, Copy, PartialEq, Eq, Structural, Debug)]
pub enum WorkerEnd {
    /// Its own candidate was accepted.
    Found,
    /// It found the stop signal set after a candidate.
    Stopped,
    /// The queue was closed and empty.
    Drained,
}

/// What a worker is waiting for.
#[derive(Debug)]
pub enum WorkerPhase {
    /// Idle: it awaits the next candidate from the queue.
    Waiting,
    /// It awaits the verifier's answer on this candidate.
    Verifying(String),
    /// The candidate is dealt with; it awaits a reading of the stop signal.
    Reading,
    /// It is at rest.
    Done(WorkerEnd),
}

/// A worker's phase over mathematical strings.
pub ghost enum WorkerModel {
    Waiting,
    Verifying(Seq<char>),
    Reading,
    Done(WorkerEnd),
}

impl View for WorkerPhase {
    type V = WorkerModel;

    open spec fn view(&self) -> WorkerModel {
        match self {
            WorkerPhase::Waiting => WorkerModel::Waiting,
            WorkerPhase::Verifying(candidate) => WorkerModel::Verifying(candidate@),
            WorkerPhase::Reading => WorkerModel::Reading,
            WorkerPhase::Done(end) => WorkerModel::Done(*end),
        }
    }
}

/// What a worker is told.
#[derive(Debug)]
pub enum WorkerEvent {
    /// The queue gave this candidate.
    Dequeued(String),
    /// The queue is closed and holds nothing more.
    QueueClosed,
    /// The verifier was called on the candidate, and this came of it.
    Invoked(Invocation),
    /// The stop signal was read, with this value.
    StopRead(bool),
}

/// What a worker is told, as far as its next phase depends on it.
pub ghost enum WorkerInput {
    Dequeued(Seq<char>),
    QueueClosed,
    Invoked(Verdict),
    StopRead(bool),
}

impl View for WorkerEvent {
    type V = WorkerInput;

    open spec fn view(&self) -> WorkerInput {
        match self {
            WorkerEvent::Dequeued(candidate) => WorkerInput::Dequeued(candidate@),
            WorkerEvent::QueueClosed => WorkerInput::QueueClosed,
            WorkerEvent::Invoked(invocation) => WorkerInput::Invoked(verdict_of(*invocation)),
            WorkerEvent::StopRead(stop) => WorkerInput::StopRead(*stop),
        }
    }
}

/// What a worker asks its driver to do next.
#[derive(Debug)]
pub enum WorkerRequest {
    /// Take the next candidate from the queue, waiting while it is empty.
    Dequeue,
    /// Call the verifier on this candidate.
    Verify(String),
    /// Read the stop signal.
    ReadStop,
    /// End, for this reason.
    Exit(WorkerEnd),
}

/// A `WorkerRequest` over mathematical strings.
pub ghost enum RequestModel {
    Dequeue,
    Verify(Seq<char>),
    ReadStop,
    Exit(WorkerEnd),
}

impl View for WorkerRequest {
    type V = RequestModel;

    open spec fn view(&self) -> RequestModel {
        match self {
            WorkerRequest::Dequeue => RequestModel::Dequeue,
            WorkerRequest::Verify(candidate) => RequestModel::Verify(candidate@),
            WorkerRequest::ReadStop => RequestModel::ReadStop,
            WorkerRequest::Exit(end) => RequestModel::Exit(*end),
        }
    }
}

/// The worker's rule: an event that answers the pending request moves it on;
/// any other event leaves it where it is. An accepted candidate ends the
/// worker; after any other verdict it reads the stop signal, and goes back to
/// the queue only if the signal is not set.
pub open spec fn worker_next(m: WorkerModel, input: WorkerInput) -> WorkerModel {
    match (m, input) {
        (WorkerModel::Waiting, WorkerInput::Dequeued(candidate)) => WorkerModel::Verifying(
            candidate,
        ),
        (WorkerModel::Waiting, WorkerInput::QueueClosed) => WorkerModel::Done(WorkerEnd::Drained),
        (WorkerModel::Verifying(_), WorkerInput::Invoked(verdict)) => if verdict
            == Verdict::Accepted {
            WorkerModel::Done(WorkerEnd::Found)
        } else {
            WorkerModel::Reading
        },
        (WorkerModel::Reading, WorkerInput::StopRead(stop)) => if stop {
            WorkerModel::Done(WorkerEnd::Stopped)
        } else {
            WorkerModel::Waiting
        },
        _ => m,
    }
}

/// Whether the worker sets the stop signal on this event: exactly when the
/// candidate that it is verifying is accepted.
pub open spec fn worker_raises(m: WorkerModel, input: WorkerInput) -> bool {
    m is Verifying && input == WorkerInput::Invoked(Verdict::Accepted)
}

/// What the worker reports on this event: the outcome of the candidate that
/// it is verifying, when the verifier's answer arrives, and nothing otherwise.
pub open spec fn worker_report(m: WorkerModel, event: WorkerEvent) -> Option<OutcomeModel> {
    match (m, event) {
        (WorkerModel::Verifying(candidate), WorkerEvent::Invoked(invocation)) => Some(
            outcome_of(candidate, invocation),
        ),
        _ => None,
    }
}

/// What a worker in phase `m` asks for.
pub open spec fn worker_request(m: WorkerModel) -> RequestModel {
    match m {
        WorkerModel::Waiting => RequestModel::Dequeue,
        WorkerModel::Verifying(candidate) => RequestModel::Verify(candidate),
        WorkerModel::Reading => RequestModel::ReadStop,
        WorkerModel::Done(end) => RequestModel::Exit(end),
    }
}

/// What one step of a worker brings about.
#[derive(Debug)]
pub struct WorkerEffect {
    /// The outcome to report, if the step settled a candidate.
    pub report: Option<WorkerOutcome>,
    /// Whether the stop signal is to be set.
    pub raise_stop: bool,
    /// What the worker asks for next.
    pub next: WorkerRequest,
}

/// One verifier worker.
#[derive(Debug)]
pub struct Worker {
    phase: WorkerPhase,
}

impl View for Worker {
    type V = WorkerModel;

    closed spec fn view(&self) -> WorkerModel {
        self.phase@
    }
}

impl Worker {
    /// An idle worker.
    pub fn new() -> (w: Worker)
        ensures
            w@ == WorkerModel::Waiting,
    {
        Worker { phase: WorkerPhase::Waiting }
    }

    /// The request that is pending.
    pub fn request(&self) -> (r: WorkerRequest)
        ensures
            r@ == worker_request(self@),
    {
        match &self.phase {
            WorkerPhase::Waiting => WorkerRequest::Dequeue,
            WorkerPhase::Verifying(candidate) => WorkerRequest::Verify(candidate.clone()),
            WorkerPhase::Reading => WorkerRequest::ReadStop,
            WorkerPhase::Done(end) => WorkerRequest::Exit(*end),
        }
    }

    /// Why the worker is at rest, if it is.
    pub fn end(&self) -> (r: Option<WorkerEnd>)
        ensures
            r == (match self@ {
                WorkerModel::Done(end) => Some(end),
                _ => None,
            }),
    {
        match &self.phase {
            WorkerPhase::Done(end) => Some(*end),
            _ => None,
        }
    }

    /// Takes one event and answers with what is to be reported, whether the
    /// stop signal is to be set, and the next request. The worker follows
    /// `worker_next`.
    pub fn step(&mut self, event: WorkerEvent) -> (effect: WorkerEffect)
        ensures
            final(self)@ == worker_next(old(self)@, event@),
            effect.raise_stop == worker_raises(old(self)@, event@),
            match effect.report {
                Some(outcome) => worker_report(old(self)@, event) == Some(outcome@),
                None => worker_report(old(self)@, event) is None,
            },
            effect.next@ == worker_request(final(self)@),
    {
        let mut report: Option<WorkerOutcome> = None;
        let mut raise_stop = false;
        let mut moved: Option<WorkerPhase> = None;
        match (&self.phase, event) {
            (WorkerPhase::Waiting, WorkerEvent::Dequeued(candidate)) => {
                moved = Some(WorkerPhase::Verifying(candidate));
            },
            (WorkerPhase::Waiting, WorkerEvent::QueueClosed) => {
                moved = Some(WorkerPhase::Done(WorkerEnd::Drained));
            },
            (WorkerPhase::Verifying(candidate), WorkerEvent::Invoked(invocation)) => {
                let outcome = classify(candidate.clone(), invocation);
                match &outcome {
                    WorkerOutcome::Success(_) => {
                        raise_stop = true;
                        moved = Some(WorkerPhase::Done(WorkerEnd::Found));
                    },
                    _ => {
                        moved = Some(WorkerPhase::Reading);
                    },
                }
                report = Some(outcome);
            },
            (WorkerPhase::Reading, WorkerEvent::StopRead(stop)) => {
                if stop {
                    moved = Some(WorkerPhase::Done(WorkerEnd::Stopped));
                } else {
                    moved = Some(WorkerPhase::Waiting);
                }
            },
            _ => {},
        }
        match moved {
            Some(phase) => {
                self.phase = phase;
            },
            None => {},
        }
        let next = self.request();
        WorkerEffect { report, raise_stop, next }
    }
}

} // verus!

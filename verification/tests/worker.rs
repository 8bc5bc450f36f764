use keysearch::worker::{
    classify, verifier_arguments, Invocation, Worker, WorkerEnd, WorkerEvent, WorkerOutcome,
    WorkerRequest,
};

fn is_dequeue(request: &WorkerRequest) -> bool {
    matches!(request, WorkerRequest::Dequeue)
}

fn is_read_stop(request: &WorkerRequest) -> bool {
    matches!(request, WorkerRequest::ReadStop)
}

#[test]
fn exit_code_zero_is_success() {
    match classify(String::from("abc"), Invocation::Exited(0)) {
        WorkerOutcome::Success(candidate) => assert_eq!(candidate, "abc"),
        other => panic!("{:?}", other),
    }
}

#[test]
fn other_exit_codes_are_failures_with_the_code() {
    match classify(String::from("abc"), Invocation::Exited(3)) {
        WorkerOutcome::Failure(candidate, code) => {
            assert_eq!(candidate, "abc");
            assert_eq!(code, 3);
        }
        other => panic!("{:?}", other),
    }
    match classify(String::from("x"), Invocation::Exited(-1)) {
        WorkerOutcome::Failure(candidate, code) => {
            assert_eq!(candidate, "x");
            assert_eq!(code, -1);
        }
        other => panic!("{:?}", other),
    }
}

#[test]
fn a_call_without_exit_code_is_an_error() {
    match classify(String::from("abc"), Invocation::NoExitCode) {
        WorkerOutcome::Error(candidate, cause) => {
            assert_eq!(candidate, "abc");
            assert_eq!(cause, "no exit code");
        }
        other => panic!("{:?}", other),
    }
}

#[test]
fn a_call_that_did_not_start_is_an_error_with_its_cause() {
    match classify(String::from("abc"), Invocation::LaunchFailed(String::from("not found"))) {
        WorkerOutcome::Error(candidate, cause) => {
            assert_eq!(candidate, "abc");
            assert_eq!(cause, "not found");
        }
        other => panic!("{:?}", other),
    }
}

#[test]
fn arguments_name_the_candidate_and_the_artifact() {
    assert_eq!(
        verifier_arguments("s3cret", "file.rar"),
        vec!["t", "-ps3cret", "-y", "-inul", "file.rar"]
    );
    assert_eq!(verifier_arguments("", "a b"), vec!["t", "-p", "-y", "-inul", "a b"]);
}

#[test]
fn worker_starts_idle() {
    let worker = Worker::new();
    assert!(is_dequeue(&worker.request()));
    assert_eq!(worker.end(), None);
}

#[test]
fn worker_verifies_what_it_dequeues() {
    let mut worker = Worker::new();
    let effect = worker.step(WorkerEvent::Dequeued(String::from("ab")));
    assert!(effect.report.is_none());
    assert!(!effect.raise_stop);
    match effect.next {
        WorkerRequest::Verify(candidate) => assert_eq!(candidate, "ab"),
        other => panic!("{:?}", other),
    }
    match worker.request() {
        WorkerRequest::Verify(candidate) => assert_eq!(candidate, "ab"),
        other => panic!("{:?}", other),
    }
}

#[test]
fn worker_sets_the_signal_and_ends_on_success() {
    let mut worker = Worker::new();
    worker.step(WorkerEvent::Dequeued(String::from("ab")));
    let effect = worker.step(WorkerEvent::Invoked(Invocation::Exited(0)));
    assert!(effect.raise_stop);
    match effect.report {
        Some(WorkerOutcome::Success(candidate)) => assert_eq!(candidate, "ab"),
        other => panic!("{:?}", other),
    }
    assert!(matches!(effect.next, WorkerRequest::Exit(WorkerEnd::Found)));
    assert_eq!(worker.end(), Some(WorkerEnd::Found));
}

#[test]
fn worker_reports_a_failure_and_reads_the_signal() {
    let mut worker = Worker::new();
    worker.step(WorkerEvent::Dequeued(String::from("ab")));
    let effect = worker.step(WorkerEvent::Invoked(Invocation::Exited(10)));
    assert!(!effect.raise_stop);
    match effect.report {
        Some(WorkerOutcome::Failure(candidate, code)) => {
            assert_eq!(candidate, "ab");
            assert_eq!(code, 10);
        }
        other => panic!("{:?}", other),
    }
    assert!(is_read_stop(&effect.next));
    let effect = worker.step(WorkerEvent::StopRead(false));
    assert!(effect.report.is_none());
    assert!(is_dequeue(&effect.next));
}

#[test]
fn worker_goes_on_after_an_error() {
    let mut worker = Worker::new();
    worker.step(WorkerEvent::Dequeued(String::from("ab")));
    let effect =
        worker.step(WorkerEvent::Invoked(Invocation::LaunchFailed(String::from("no tool"))));
    assert!(!effect.raise_stop);
    match effect.report {
        Some(WorkerOutcome::Error(candidate, cause)) => {
            assert_eq!(candidate, "ab");
            assert_eq!(cause, "no tool");
        }
        other => panic!("{:?}", other),
    }
    assert!(is_read_stop(&effect.next));
    assert!(is_dequeue(&worker.step(WorkerEvent::StopRead(false)).next));
    assert_eq!(worker.end(), None);
}

#[test]
fn worker_ends_when_it_reads_the_signal_set() {
    let mut worker = Worker::new();
    worker.step(WorkerEvent::Dequeued(String::from("ab")));
    worker.step(WorkerEvent::Invoked(Invocation::Exited(1)));
    let effect = worker.step(WorkerEvent::StopRead(true));
    assert!(!effect.raise_stop);
    assert!(matches!(effect.next, WorkerRequest::Exit(WorkerEnd::Stopped)));
    assert_eq!(worker.end(), Some(WorkerEnd::Stopped));
}

#[test]
fn worker_ends_when_the_queue_is_closed() {
    let mut worker = Worker::new();
    let effect = worker.step(WorkerEvent::QueueClosed);
    assert!(matches!(effect.next, WorkerRequest::Exit(WorkerEnd::Drained)));
    assert_eq!(worker.end(), Some(WorkerEnd::Drained));
}

#[test]
fn worker_at_rest_stays_at_rest() {
    let mut worker = Worker::new();
    worker.step(WorkerEvent::QueueClosed);
    let effect = worker.step(WorkerEvent::Dequeued(String::from("ab")));
    assert!(effect.report.is_none());
    assert!(!effect.raise_stop);
    assert!(matches!(effect.next, WorkerRequest::Exit(WorkerEnd::Drained)));
    let effect = worker.step(WorkerEvent::Invoked(Invocation::Exited(0)));
    assert!(effect.report.is_none());
    assert!(!effect.raise_stop);
    assert_eq!(worker.end(), Some(WorkerEnd::Drained));
}

#[test]
fn worker_repeats_its_request_on_an_event_it_did_not_ask_for() {
    let mut worker = Worker::new();
    let effect = worker.step(WorkerEvent::Invoked(Invocation::Exited(0)));
    assert!(effect.report.is_none());
    assert!(!effect.raise_stop);
    assert!(is_dequeue(&effect.next));
    let effect = worker.step(WorkerEvent::StopRead(true));
    assert!(is_dequeue(&effect.next));
    worker.step(WorkerEvent::Dequeued(String::from("ab")));
    let effect = worker.step(WorkerEvent::Dequeued(String::from("cd")));
    match effect.next {
        WorkerRequest::Verify(candidate) => assert_eq!(candidate, "ab"),
        other => panic!("{:?}", other),
    }
    let effect = worker.step(WorkerEvent::QueueClosed);
    assert!(matches!(effect.next, WorkerRequest::Verify(_)));
}

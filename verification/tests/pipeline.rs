use keysearch::alphabet::Alphabet;
use keysearch::generator::{Generator, GeneratorAction, GeneratorEnd, GeneratorEvent};
use keysearch::orchestrator::{conclude, plan, RunOutcome, TaskReport};
use keysearch::queue::open_queue;
use keysearch::stop::{stop_flag, StopSignal, StopWatch};
use keysearch::worker::{
    Invocation, Worker, WorkerEnd, WorkerEvent, WorkerOutcome, WorkerRequest,
};
use std::sync::{Arc, Mutex};

/// A stand-in for the outside verifier: for each candidate, how many times
/// the call lets other tasks run before it answers, and its answer.
type Verifier = Arc<dyn Fn(&str) -> (usize, Invocation) + Send + Sync>;

struct Log {
    calls: Vec<String>,
    winners: Vec<String>,
    rejected: Vec<(String, i32)>,
    errors: Vec<(String, String)>,
}

struct Run {
    calls: Vec<String>,
    winners: Vec<String>,
    rejected: Vec<(String, i32)>,
    errors: Vec<(String, String)>,
    reports: Vec<TaskReport>,
    outcome: RunOutcome,
}

async fn drive_generator(
    mut generator: Generator,
    queue: async_channel::Sender<String>,
    mut watch: StopWatch,
) -> GeneratorEnd {
    loop {
        match generator.request() {
            GeneratorAction::Offer => {
                let word = generator.candidate().unwrap();
                if queue.send(word).await.is_ok() {
                    generator.step(GeneratorEvent::HandedOver);
                } else {
                    generator.step(GeneratorEvent::Refused);
                }
            }
            GeneratorAction::ReadStop => {
                let stop = watch.is_set();
                generator.step(GeneratorEvent::StopRead(stop));
            }
            GeneratorAction::Finish(end) => return end,
        }
    }
}

async fn drive_worker(
    queue: async_channel::Receiver<String>,
    signal: StopSignal,
    mut watch: StopWatch,
    verifier: Verifier,
    log: Arc<Mutex<Log>>,
) -> WorkerEnd {
    let mut worker = Worker::new();
    let mut request = worker.request();
    loop {
        let event = match request {
            WorkerRequest::Dequeue => match queue.recv().await {
                Ok(candidate) => WorkerEvent::Dequeued(candidate),
                Err(_) => WorkerEvent::QueueClosed,
            },
            WorkerRequest::Verify(candidate) => {
                log.lock().unwrap().calls.push(candidate.clone());
                let (pauses, invocation) = verifier(&candidate);
                for _ in 0..pauses {
                    tokio::task::yield_now().await;
                }
                WorkerEvent::Invoked(invocation)
            }
            WorkerRequest::ReadStop => WorkerEvent::StopRead(watch.is_set()),
            WorkerRequest::Exit(end) => return end,
        };
        let effect = worker.step(event);
        match effect.report {
            Some(WorkerOutcome::Success(candidate)) => log.lock().unwrap().winners.push(candidate),
            Some(WorkerOutcome::Failure(candidate, code)) => {
                log.lock().unwrap().rejected.push((candidate, code))
            }
            Some(WorkerOutcome::Error(candidate, cause)) => {
                log.lock().unwrap().errors.push((candidate, cause))
            }
            None => {}
        }
        if effect.raise_stop {
            signal.set();
        }
        request = effect.next;
    }
}

fn search_on(
    runtime: tokio::runtime::Runtime,
    text: &str,
    len: usize,
    concurrency: usize,
    verifier: Verifier,
) -> Run {
    let log = Arc::new(Mutex::new(Log {
        calls: Vec::new(),
        winners: Vec::new(),
        rejected: Vec::new(),
        errors: Vec::new(),
    }));
    let generator = Generator::new(Alphabet::new(text).unwrap(), len, len);
    let shared = log.clone();
    let reports = runtime.block_on(async move {
        let plan = plan(concurrency);
        let (signal, watch) = stop_flag();
        let (sender, receiver) = open_queue(plan.concurrency);
        let mut watches: Vec<StopWatch> = Vec::new();
        for _ in 0..plan.concurrency {
            watches.push(signal.reader());
        }
        let producer = tokio::spawn(drive_generator(generator, sender, watch));
        let mut consumers = Vec::new();
        for watch in watches {
            consumers.push(tokio::spawn(drive_worker(
                receiver.clone(),
                signal.clone(),
                watch,
                verifier.clone(),
                shared.clone(),
            )));
        }
        drop(receiver);
        assert_eq!(consumers.len() + 1, plan.tasks);
        let mut reports: Vec<TaskReport> = Vec::new();
        reports.push(match producer.await {
            Ok(end) => TaskReport::Generator(end),
            Err(fault) => TaskReport::Fault(fault.to_string()),
        });
        for consumer in consumers {
            reports.push(match consumer.await {
                Ok(end) => TaskReport::Worker(end),
                Err(fault) => TaskReport::Fault(fault.to_string()),
            });
        }
        reports
    });
    let outcome = conclude(&reports);
    let log = log.lock().unwrap();
    Run {
        calls: log.calls.clone(),
        winners: log.winners.clone(),
        rejected: log.rejected.clone(),
        errors: log.errors.clone(),
        reports,
        outcome,
    }
}

fn search(text: &str, len: usize, concurrency: usize, verifier: Verifier) -> Run {
    let runtime = tokio::runtime::Builder::new_current_thread().build().unwrap();
    search_on(runtime, text, len, concurrency, verifier)
}

fn search_in_parallel(text: &str, len: usize, concurrency: usize, verifier: Verifier) -> Run {
    let runtime = tokio::runtime::Builder::new_multi_thread().worker_threads(4).build().unwrap();
    search_on(runtime, text, len, concurrency, verifier)
}

fn accepting(key: &'static str) -> Verifier {
    Arc::new(move |candidate: &str| {
        if candidate == key {
            (0, Invocation::Exited(0))
        } else {
            (0, Invocation::Exited(3))
        }
    })
}

fn accepting_slowly(key: &'static str) -> Verifier {
    Arc::new(move |candidate: &str| {
        if candidate == key {
            (50, Invocation::Exited(0))
        } else {
            (0, Invocation::Exited(3))
        }
    })
}

fn accepting_after_pauses(key: &'static str) -> Verifier {
    Arc::new(move |candidate: &str| {
        if candidate == key {
            (1, Invocation::Exited(0))
        } else {
            (1, Invocation::Exited(3))
        }
    })
}

fn rejecting() -> Verifier {
    Arc::new(|_candidate: &str| (1, Invocation::Exited(10)))
}

fn failing() -> Verifier {
    Arc::new(|_candidate: &str| (1, Invocation::LaunchFailed(String::from("no such tool"))))
}

fn sorted(words: &[String]) -> Vec<String> {
    let mut copy: Vec<String> = words.to_vec();
    copy.sort();
    copy
}

const SPACE_ABC_2: [&str; 9] = ["aa", "ab", "ac", "ba", "bb", "bc", "ca", "cb", "cc"];

#[test]
fn one_worker_finds_the_key_in_as_many_calls_as_its_place() {
    let run = search("abc", 2, 1, accepting("bc"));
    assert_eq!(run.outcome, RunOutcome::Found);
    assert_eq!(run.winners, vec!["bc"]);
    assert_eq!(run.calls, vec!["aa", "ab", "ac", "ba", "bb", "bc"]);
    assert_eq!(run.rejected.len(), 5);
    assert!(run.errors.is_empty());
}

#[test]
fn first_candidate_as_key_takes_one_call() {
    let run = search("abc", 2, 1, accepting("aa"));
    assert_eq!(run.winners, vec!["aa"]);
    assert_eq!(run.calls, vec!["aa"]);
}

#[test]
fn last_candidate_as_key_takes_the_whole_space() {
    let run = search("abc", 2, 1, accepting("cc"));
    assert_eq!(run.outcome, RunOutcome::Found);
    assert_eq!(run.winners, vec!["cc"]);
    assert_eq!(run.calls, SPACE_ABC_2);
}

#[test]
fn several_workers_find_the_key_within_the_range() {
    let mut concurrency: usize = 2;
    while concurrency <= 5 {
        let run = search("abcd", 3, concurrency, accepting("bca"));
        let position: usize = 16 + 2 * 4 + 1;
        assert_eq!(run.outcome, RunOutcome::Found);
        assert_eq!(run.winners, vec!["bca"]);
        assert!(run.calls.len() >= position);
        assert!(run.calls.len() <= position + concurrency - 1);
        assert_eq!(run.calls.len(), run.rejected.len() + 1);
        concurrency += 1;
    }
}

#[test]
fn a_slow_verdict_on_the_key_lets_later_candidates_be_tried() {
    let run = search("ab", 2, 2, accepting_slowly("aa"));
    assert_eq!(run.outcome, RunOutcome::Found);
    assert_eq!(run.winners, vec!["aa"]);
    assert_eq!(run.calls, vec!["aa", "ab", "ba", "bb"]);
    assert_eq!(run.rejected.len(), 3);
}

#[test]
fn interleaved_workers_still_find_the_key() {
    let mut concurrency: usize = 1;
    while concurrency <= 5 {
        let run = search("abcd", 3, concurrency, accepting_after_pauses("bca"));
        assert_eq!(run.outcome, RunOutcome::Found);
        assert_eq!(run.winners, vec!["bca"]);
        assert!(run.calls.len() >= 25);
        assert_eq!(run.calls[24], "bca");
        assert_eq!(run.calls.len(), run.rejected.len() + 1);
        concurrency += 1;
    }
}

#[test]
fn candidates_are_taken_in_generation_order() {
    let run = search("abcd", 3, 3, accepting_after_pauses("bca"));
    let mut expected: Vec<String> = Vec::new();
    for a in "abcd".chars() {
        for b in "abcd".chars() {
            for c in "abcd".chars() {
                expected.push([a, b, c].iter().collect());
            }
        }
    }
    assert_eq!(run.calls[..], expected[..run.calls.len()]);
}

#[test]
fn one_worker_and_many_find_the_same_key() {
    let single = search("abcd", 3, 1, accepting("cab"));
    let pooled = search("abcd", 3, 4, accepting("cab"));
    let threaded = search_in_parallel("abcd", 3, 4, accepting("cab"));
    assert_eq!(single.winners, vec!["cab"]);
    assert_eq!(pooled.winners, single.winners);
    assert_eq!(threaded.winners, single.winners);
    assert_eq!(single.calls.len(), 2 * 16 + 0 * 4 + 1 + 1);
    assert!(threaded.calls.len() >= single.calls.len());
}

#[test]
fn rejecting_verifier_sweeps_the_space_once() {
    let run = search("abc", 2, 2, rejecting());
    assert_eq!(run.outcome, RunOutcome::NotFound);
    assert!(run.winners.is_empty());
    assert_eq!(run.calls, SPACE_ABC_2);
    assert_eq!(run.rejected.len(), 9);
    assert!(run.rejected.iter().all(|(_, code)| *code == 10));
    assert!(run.errors.is_empty());
    assert!(matches!(run.reports[0], TaskReport::Generator(GeneratorEnd::Exhausted)));
    assert!(run.reports[1..]
        .iter()
        .all(|report| matches!(report, TaskReport::Worker(WorkerEnd::Drained))));
}

#[test]
fn rejecting_verifier_sweeps_the_space_once_on_threads() {
    let run = search_in_parallel("abcd", 3, 4, rejecting());
    assert_eq!(run.outcome, RunOutcome::NotFound);
    assert_eq!(run.calls.len(), 64);
    let mut distinct = sorted(&run.calls);
    distinct.dedup();
    assert_eq!(distinct.len(), 64);
    assert_eq!(run.rejected.len(), 64);
}

#[test]
fn failing_verifier_gives_one_error_per_candidate_and_the_run_ends() {
    let run = search("abc", 2, 3, failing());
    assert_eq!(run.outcome, RunOutcome::NotFound);
    assert!(run.winners.is_empty());
    assert_eq!(run.calls, SPACE_ABC_2);
    assert_eq!(run.errors.len(), 9);
    assert!(run.errors.iter().all(|(_, cause)| cause == "no such tool"));
    let erred: Vec<String> = run.errors.iter().map(|(candidate, _)| candidate.clone()).collect();
    assert_eq!(sorted(&erred), SPACE_ABC_2);
    assert!(run.rejected.is_empty());
    assert!(matches!(run.reports[0], TaskReport::Generator(GeneratorEnd::Exhausted)));
}

#[test]
fn verifier_without_exit_code_does_not_end_the_run() {
    let verifier: Verifier = Arc::new(|candidate: &str| {
        if candidate == "ab" {
            (0, Invocation::NoExitCode)
        } else if candidate == "cb" {
            (0, Invocation::Exited(0))
        } else {
            (0, Invocation::Exited(1))
        }
    });
    let run = search("abc", 2, 1, verifier);
    assert_eq!(run.outcome, RunOutcome::Found);
    assert_eq!(run.winners, vec!["cb"]);
    assert_eq!(run.errors, vec![(String::from("ab"), String::from("no exit code"))]);
    assert_eq!(run.calls.len(), 8);
}

#[test]
fn generator_stops_early_when_the_key_is_found() {
    let run = search("abcdefgh", 4, 2, accepting("aaab"));
    assert_eq!(run.outcome, RunOutcome::Found);
    assert!(run.calls.len() <= 3);
    assert!(matches!(
        run.reports[0],
        TaskReport::Generator(GeneratorEnd::Stopped) | TaskReport::Generator(GeneratorEnd::QueueClosed)
    ));
}

#[test]
fn shorter_key_is_found_when_shorter_lengths_are_searched() {
    let log = Arc::new(Mutex::new(Log {
        calls: Vec::new(),
        winners: Vec::new(),
        rejected: Vec::new(),
        errors: Vec::new(),
    }));
    let runtime = tokio::runtime::Builder::new_current_thread().build().unwrap();
    let generator = Generator::new(Alphabet::new("ab").unwrap(), 1, 3);
    let shared = log.clone();
    let end = runtime.block_on(async move {
        let (signal, watch) = stop_flag();
        let (sender, receiver) = open_queue(1);
        let worker_watch = signal.reader();
        let producer = tokio::spawn(drive_generator(generator, sender, watch));
        let consumer =
            tokio::spawn(drive_worker(receiver, signal.clone(), worker_watch, accepting("ba"), shared));
        producer.await.unwrap();
        consumer.await.unwrap()
    });
    assert_eq!(end, WorkerEnd::Found);
    let log = log.lock().unwrap();
    assert_eq!(log.winners, vec!["ba"]);
    assert_eq!(log.calls, vec!["a", "b", "aa", "ab", "ba"]);
}

#[test]
fn key_outside_the_space_is_never_found() {
    let run = search("ab", 2, 2, accepting("zz"));
    assert_eq!(run.outcome, RunOutcome::NotFound);
    assert_eq!(run.calls, vec!["aa", "ab", "ba", "bb"]);
}

#[test]
fn many_workers_on_a_small_space_all_end() {
    let run = search_in_parallel("ab", 1, 8, rejecting());
    assert_eq!(run.outcome, RunOutcome::NotFound);
    assert_eq!(sorted(&run.calls), vec!["a", "b"]);
    assert_eq!(run.reports.len(), 9);
}

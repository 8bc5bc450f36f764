use keysearch::stop::{should_stop, stop_flag, StopSignal, StopWatch};

#[test]
fn stop_is_decided_by_memory_or_channel() {
    assert!(!should_stop(false, false));
    assert!(should_stop(false, true));
    assert!(should_stop(true, false));
    assert!(should_stop(true, true));
}

#[test]
fn fresh_flag_is_not_set() {
    let (_signal, mut watch) = stop_flag();
    assert!(!watch.is_set());
    assert!(!watch.is_set());
}

#[test]
fn set_flag_is_seen_and_stays_seen() {
    let (signal, mut watch) = stop_flag();
    assert!(!watch.is_set());
    assert!(!signal.set());
    assert!(watch.is_set());
    assert!(watch.is_set());
    assert!(watch.is_set());
}

#[test]
fn reading_does_not_take_the_flag_away() {
    let (signal, mut first) = stop_flag();
    let mut second = signal.reader();
    signal.set();
    assert!(first.is_set());
    assert!(first.is_set());
    assert!(second.is_set());
    assert!(second.is_set());
    assert!(first.is_set());
}

#[test]
fn setting_twice_is_no_error() {
    let (signal, mut watch) = stop_flag();
    let other = signal.clone();
    assert!(!signal.set());
    assert!(other.set());
    assert!(signal.set());
    assert!(watch.is_set());
    assert!(watch.is_set());
}

#[test]
fn every_reader_sees_the_flag() {
    let (signal, mut first) = stop_flag();
    let mut second = signal.reader();
    let mut third = signal.reader();
    assert!(!second.is_set());
    signal.set();
    assert!(first.is_set());
    assert!(second.is_set());
    assert!(third.is_set());
    assert!(second.is_set());
}

#[test]
fn reader_made_after_the_setting_sees_the_flag() {
    let (signal, _first) = stop_flag();
    signal.set();
    let mut late = signal.reader();
    assert!(late.is_set());
    assert!(late.is_set());
    let mut later = signal.clone().reader();
    assert!(later.is_set());
}

#[test]
fn reader_on_a_late_receiver_sees_the_flag() {
    let (sender, _receiver) = tokio::sync::watch::channel(false);
    sender.send_replace(true);
    let mut late = StopWatch::new(sender.subscribe());
    assert!(late.is_set());
    assert!(late.is_set());
}

#[test]
fn reader_keeps_the_flag_even_if_the_channel_forgets() {
    let (sender, receiver) = tokio::sync::watch::channel(false);
    let mut watch = StopWatch::new(receiver);
    assert!(!watch.is_set());
    sender.send_replace(true);
    assert!(watch.is_set());
    sender.send_replace(false);
    assert!(watch.is_set());
    let mut fresh = StopWatch::new(sender.subscribe());
    assert!(!fresh.is_set());
}

#[test]
fn setting_without_readers_is_kept() {
    let (signal, watch) = stop_flag();
    drop(watch);
    assert!(!signal.set());
    assert!(signal.set());
    let mut late = signal.reader();
    assert!(late.is_set());
}

#[test]
fn flag_outlives_its_writers() {
    let (signal, mut watch) = stop_flag();
    signal.set();
    drop(signal);
    assert!(watch.is_set());
    assert!(watch.is_set());
}

#[test]
fn unset_flag_stays_unset_when_its_writers_are_gone() {
    let (signal, mut watch) = stop_flag();
    drop(signal);
    assert!(!watch.is_set());
}

#[test]
fn signal_built_from_a_sender_reaches_its_receivers() {
    let (sender, receiver) = tokio::sync::watch::channel(false);
    let signal = StopSignal::new(sender);
    let mut watch = StopWatch::new(receiver);
    assert!(!watch.is_set());
    signal.set();
    assert!(watch.is_set());
}

#[test]
fn two_tasks_setting_at_once_leave_the_flag_set() {
    let runtime = tokio::runtime::Builder::new_multi_thread().worker_threads(2).build().unwrap();
    let (signal, mut watch) = stop_flag();
    let first = signal.clone();
    let second = signal.clone();
    let (a, b) = runtime.block_on(async move {
        let a = tokio::spawn(async move { first.set() });
        let b = tokio::spawn(async move { second.set() });
        (a.await.unwrap(), b.await.unwrap())
    });
    assert!(a != b);
    assert!(signal.set());
    assert!(watch.is_set());
    assert!(watch.is_set());
}

//! The stop signal: one bit that says "found". It is kept in a watch channel,
//! which holds the last value put into it, so every reader finds it there,
//! whenever the reader was made. Nothing in this module puts `false` into
//! the channel, and a reader remembers a signal once seen.

use tokio::sync::watch::{Receiver, Sender};
use vstd::prelude::*;

verus! {

/// The receiving half of tokio's watch channel, carried as it is: nothing of
/// what the channel holds is visible here.
#[verifier::external_type_specification]
#[verifier::external_body]
#[verifier::reject_recursive_types(T)]
pub struct ExWatchReceiver<T>(Receiver<T>);

/// The sending half of tokio's watch channel, carried as it is.
#[verifier::external_type_specification]
#[verifier::external_body]
#[verifier::reject_recursive_types(T)]
pub struct ExWatchSender<T>(Sender<T>);

/// `clone` of tokio's watch sender: one more handle to the same channel.
/// Nothing is claimed of the copy.
pub assume_specification<T>[ <Sender<T> as Clone>::clone ](sender: &Sender<T>) -> (copy: Sender<T>);

/// `channel` of tokio's watch module: a new channel that holds `initial`,
/// with its two halves. Nothing is claimed of them.
#[verifier::external_body]
fn open_channel(initial: bool) -> (ends: (Sender<bool>, Receiver<bool>)) {
    tokio::sync::watch::channel(initial)
}

/// `send_replace` of tokio's watch sender: puts `value` into the channel,
/// whether or not a receiver is left, and answers with the value that was
/// there. Nothing is claimed of the answer: it depends on what other tasks
/// have put there.
#[verifier::external_body]
fn write_channel(sender: &Sender<bool>, value: bool) -> (previous: bool) {
    sender.send_replace(value)
}

/// `borrow` of tokio's watch receiver, read at once: the value that the
/// channel holds at this moment. The call waits for no message. Nothing is
/// claimed of the answer: it depends on what other tasks have put there.
#[verifier::external_body]
fn read_channel(receiver: &Receiver<bool>) -> (value: bool) {
    *receiver.borrow()
}

/// `subscribe` of tokio's watch sender: one more receiver of the same
/// channel. Nothing is claimed of it.
#[verifier::external_body]
fn subscribe_channel(sender: &Sender<bool>) -> (receiver: Receiver<bool>) {
    sender.subscribe()
}

/// Decides whether to stop, from what a reader has seen before and what the
/// channel holds now: a signal seen once stays seen, whatever the channel
/// says later.
pub fn should_stop(seen: bool, current: bool) -> (stop: bool)
    ensures
        stop == (seen || current),
{
    seen || current
}

/// The writing side of the stop signal.
pub struct StopSignal {
    sender: Sender<bool>,
}

impl Clone for StopSignal {
    /// One more handle to the same signal.
    fn clone(&self) -> (copy: StopSignal) {
        StopSignal { sender: self.sender.clone() }
    }
}

impl StopSignal {
    /// The sending half of the channel that carries the signal.
    pub closed spec fn handle(&self) -> Sender<bool> {
        self.sender
    }

    /// The signal that writes to `sender`.
    pub fn new(sender: Sender<bool>) -> (signal: StopSignal)
        ensures
            signal.handle() == sender,
    {
        StopSignal { sender }
    }

    /// Sets the signal. Setting it again changes nothing and is no error; the
    /// answer says whether it was set already.
    pub fn set(&self) -> (already: bool) {
        write_channel(&self.sender, true)
    }

    /// A new reader of this signal, which has seen nothing yet. It may be
    /// made at any time: it reads what the channel holds when it is asked.
    pub fn reader(&self) -> (watch: StopWatch)
        ensures
            !watch.seen(),
    {
        StopWatch::new(subscribe_channel(&self.sender))
    }
}

/// One reading side of the stop signal. It remembers a signal once seen.
pub struct StopWatch {
    receiver: Receiver<bool>,
    seen: bool,
}

impl StopWatch {
    /// Whether this reader has found the signal set.
    pub closed spec fn seen(&self) -> bool {
        self.seen
    }

    /// The receiving half of the channel that this reader asks.
    pub closed spec fn source(&self) -> Receiver<bool> {
        self.receiver
    }

    /// The reader that asks `receiver`, and has seen nothing yet.
    pub fn new(receiver: Receiver<bool>) -> (watch: StopWatch)
        ensures
            watch.source() == receiver,
            !watch.seen(),
    {
        StopWatch { receiver, seen: false }
    }

    /// Reads the signal without waiting for anything: asks the channel what
    /// it holds and decides by `should_stop`. Once the reader has found the
    /// signal set, every later reading finds it set.
    pub fn is_set(&mut self) -> (set: bool)
        ensures
            set == final(self).seen(),
            old(self).seen() ==> set,
            final(self).source() == old(self).source(),
    {
        let value = read_channel(&self.receiver);
        self.seen = should_stop(self.seen, value);
        self.seen
    }
}

/// A fresh stop signal, not set, with its first reader.
pub fn stop_flag() -> (ends: (StopSignal, StopWatch))
    ensures
        !ends.1.seen(),
{
    let (sender, receiver) = open_channel(false);
    (StopSignal::new(sender), StopWatch::new(receiver))
}

} // verus!

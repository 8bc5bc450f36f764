//! The bounded work queue between the generator and the workers.

use async_channel::{Receiver, Sender};
use vstd::prelude::*;

verus! {

/// The sending half of async-channel's channel, carried as it is: nothing of
/// what the channel holds is visible here.
#[verifier::external_type_specification]
#[verifier::external_body]
#[verifier::reject_recursive_types(T)]
pub struct ExQueueSender<T>(Sender<T>);

/// The receiving half of async-channel's channel, carried as it is.
#[verifier::external_type_specification]
#[verifier::external_body]
#[verifier::reject_recursive_types(T)]
pub struct ExQueueReceiver<T>(Receiver<T>);

/// The number of messages that the channel behind `sender` was made to hold:
/// what `capacity` of async-channel answers for it.
pub uninterp spec fn queue_bound(sender: Sender<String>) -> nat;

/// `bounded` of async-channel: a new channel that holds at most `capacity`
/// messages, which is what the contract says of its bound. It refuses a
/// capacity of zero, and sets up all its slots at once, so the capacity is
/// kept within what one allocation can be asked for.
#[verifier::external_body]
fn bounded_channel(capacity: usize) -> (ends: (Sender<String>, Receiver<String>))
    requires
        1 <= capacity,
        capacity * 64 <= usize::MAX,
    ensures
        queue_bound(ends.0) == capacity,
{
    async_channel::bounded::<String>(capacity)
}

/// The queue's capacity for a number of workers: four candidates for each.
pub open spec fn capacity_for(concurrency: nat) -> nat {
    4 * concurrency
}

/// The numbers of workers for which a queue can be made.
pub open spec fn admissible(concurrency: nat) -> bool {
    1 <= concurrency && concurrency * 256 <= usize::MAX
}

/// Says whether a queue can be made for `concurrency` workers.
pub fn is_admissible(concurrency: usize) -> (r: bool)
    ensures
        r == admissible(concurrency as nat),
{
    1 <= concurrency && concurrency <= usize::MAX / 256
}

/// The capacity of the queue for `concurrency` workers.
pub fn queue_capacity(concurrency: usize) -> (capacity: usize)
    requires
        admissible(concurrency as nat),
    ensures
        capacity == capacity_for(concurrency as nat),
{
    4 * concurrency
}

/// Opens the work queue for `concurrency` workers.
pub fn open_queue(concurrency: usize) -> (ends: (Sender<String>, Receiver<String>))
    requires
        admissible(concurrency as nat),
    ensures
        queue_bound(ends.0) == capacity_for(concurrency as nat),
{
    bounded_channel(queue_capacity(concurrency))
}

} // verus!

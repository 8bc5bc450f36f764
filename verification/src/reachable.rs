//! What holds in every state that the pipeline can reach.

use crate::generator::{lemma_generator_next_wf, GeneratorEnd, GeneratorEvent, GeneratorPhase};
use crate::pipeline::{count, execution, lemma_count_bound, lemma_count_none, lemma_count_update, Pipeline, Step};
use crate::words::{lemma_span_size_positive, span_word};
use crate::worker::{Verdict, WorkerEnd, WorkerModel};
use vstd::multiset::Multiset;
use vstd::prelude::*;

verus! {

/// The workers that are in the middle of a call of the verifier.
pub open spec fn verifying() -> spec_fn(WorkerModel) -> bool {
    |w: WorkerModel| w is Verifying
}

/// The workers that may still bring a call of the verifier to its end: those
/// in the middle of one, and those about to take a candidate.
pub open spec fn pending() -> spec_fn(WorkerModel) -> bool {
    |w: WorkerModel| w is Waiting || w is Verifying
}

/// The candidates of a row, each as often as it occurs in it.
pub open spec fn bag(row: Seq<Seq<char>>) -> Multiset<Seq<char>>
    decreases row.len(),
{
    if row.len() == 0 {
        Multiset::empty()
    } else {
        bag(row.drop_last()).insert(row.last())
    }
}

/// The candidates that have had a verdict, each as often as it had one.
pub open spec fn judged(settled: Seq<(Seq<char>, Verdict)>) -> Multiset<Seq<char>>
    decreases settled.len(),
{
    if settled.len() == 0 {
        Multiset::empty()
    } else {
        judged(settled.drop_last()).insert(settled.last().0)
    }
}

/// The candidate that a worker has in hand, if it has one.
pub open spec fn held(w: WorkerModel) -> Multiset<Seq<char>> {
    match w {
        WorkerModel::Verifying(c) => Multiset::singleton(c),
        _ => Multiset::empty(),
    }
}

/// The candidates that the workers have in hand.
pub open spec fn flying(workers: Seq<WorkerModel>) -> Multiset<Seq<char>>
    decreases workers.len(),
{
    if workers.len() == 0 {
        Multiset::empty()
    } else {
        flying(workers.drop_last()).add(held(workers.last()))
    }
}

proof fn lemma_flying_update(workers: Seq<WorkerModel>, i: int, w: WorkerModel)
    requires
        0 <= i < workers.len(),
    ensures
        flying(workers.update(i, w)).add(held(workers[i])) =~= flying(workers).add(held(w)),
    decreases workers.len(),
{
    broadcast use vstd::multiset::group_multiset_axioms;

    let updated = workers.update(i, w);
    let front = workers.drop_last();
    let left = flying(updated).add(held(workers[i]));
    let right = flying(workers).add(held(w));
    assert(flying(workers) == flying(front).add(held(workers.last())));
    assert(flying(updated) == flying(updated.drop_last()).add(held(updated.last())));
    if i == workers.len() - 1 {
        assert(updated.drop_last() =~= front);
        assert(updated.last() == w);
        assert forall|c: Seq<char>| left.count(c) == right.count(c) by {}
    } else {
        assert(updated.drop_last() =~= front.update(i, w));
        assert(updated.last() == workers.last());
        assert(front[i] == workers[i]);
        lemma_flying_update(front, i, w);
        let before = flying(front.update(i, w)).add(held(workers[i]));
        let after = flying(front).add(held(w));
        assert(before == after);
        assert forall|c: Seq<char>| left.count(c) == right.count(c) by {
            assert(before.count(c) == after.count(c));
        }
    }
    assert(left =~= right);
}

/// Where no worker has a candidate in hand, none is in hand.
pub proof fn lemma_flying_none(workers: Seq<WorkerModel>)
    requires
        forall|i: int| 0 <= i < workers.len() ==> !((#[trigger] workers[i]) is Verifying),
    ensures
        flying(workers) =~= Multiset::empty(),
    decreases workers.len(),
{
    broadcast use vstd::multiset::group_multiset_axioms;

    if workers.len() > 0 {
        let front = workers.drop_last();
        assert forall|i: int| 0 <= i < front.len() implies !((#[trigger] front[i]) is Verifying) by {
            assert(front[i] == workers[i]);
        }
        lemma_flying_none(front);
    }
}

/// In a row that repeats nothing, each candidate occurs once or not at all.
pub proof fn lemma_bag_of_distinct(row: Seq<Seq<char>>, c: Seq<char>)
    requires
        row.no_duplicates(),
    ensures
        bag(row).count(c) == if row.contains(c) {
            1nat
        } else {
            0nat
        },
    decreases row.len(),
{
    broadcast use vstd::multiset::group_multiset_axioms;

    if row.len() > 0 {
        let front = row.drop_last();
        assert forall|i: int, j: int|
            0 <= i < front.len() && 0 <= j < front.len() && i != j implies front[i] != front[j] by {
            assert(front[i] == row[i] && front[j] == row[j]);
        }
        lemma_bag_of_distinct(front, c);
        if front.contains(c) {
            let i = choose|i: int| 0 <= i < front.len() && front[i] == c;
            assert(row[i] == c);
            assert(row.last() != c);
        } else if row.contains(c) {
            let i = choose|i: int| 0 <= i < row.len() && row[i] == c;
            if i < front.len() {
                assert(front[i] == c);
            }
        }
        if row.last() == c {
            assert(row[row.len() - 1] == c);
        }
    }
}

impl Pipeline {
    /// Some worker is in the middle of a call on `c`.
    pub open spec fn in_flight(self, c: Seq<char>) -> bool {
        exists|i: int| 0 <= i < self.workers.len() && self.workers[i] == WorkerModel::Verifying(c)
    }

    /// A call on `c` has ended.
    pub open spec fn has_settled(self, c: Seq<char>) -> bool {
        exists|k: int| 0 <= k < self.settled.len() && (#[trigger] self.settled[k]).0 == c
    }

    /// Some call has ended with the candidate accepted.
    pub open spec fn accepted_some(self) -> bool {
        exists|k: int|
            0 <= k < self.settled.len() && (#[trigger] self.settled[k]).1 == Verdict::Accepted
    }

    /// The word at position `k` of this pipeline's candidate space.
    pub open spec fn word(self, k: nat) -> Seq<char> {
        span_word(self.generator.alphabet, self.generator.shortest, self.generator.longest, k)
    }

    pub open spec fn inv_shape(self) -> bool {
        &&& self.generator.wf()
        &&& self.capacity >= 1
        &&& self.workers.len() >= 1
        &&& self.queue.len() <= self.capacity
    }

    /// The queue is first in, first out: what was taken from it and what
    /// waits in it are, in this order, the candidates handed over so far.
    pub open spec fn inv_order(self) -> bool {
        &&& self.attempts.len() + self.queue.len() == self.generator.handed
        &&& forall|j: int|
            0 <= j < self.attempts.len() ==> #[trigger] self.attempts[j] == self.word(j as nat)
        &&& forall|j: int|
            0 <= j < self.queue.len() ==> #[trigger] self.queue[j] == self.word(
                (self.attempts.len() + j) as nat,
            )
    }

    /// No candidate is lost: each one taken from the queue is with a worker
    /// or has had its verdict, and nothing else is.
    pub open spec fn inv_account(self) -> bool {
        &&& self.settled.len() + count(self.workers, verifying()) == self.attempts.len()
        &&& forall|i: int|
            0 <= i < self.workers.len() && (#[trigger] self.workers[i]) is Verifying
                ==> self.attempts.contains(self.workers[i]->Verifying_0)
        &&& forall|j: int|
            0 <= j < self.attempts.len() ==> self.has_settled(#[trigger] self.attempts[j])
                || self.in_flight(self.attempts[j])
        &&& forall|k: int|
            0 <= k < self.settled.len() ==> self.attempts.contains((#[trigger] self.settled[k]).0)
    }

    /// No candidate is judged twice: the candidates that have had a verdict
    /// and those in the hands of workers are, one for one, the candidates
    /// taken from the queue.
    pub open spec fn inv_ledger(self) -> bool {
        judged(self.settled).add(flying(self.workers)) == bag(self.attempts)
    }

    /// How the stop signal, the ways in which tasks end, and the calls that
    /// end after the signal hang together.
    pub open spec fn inv_stop(self) -> bool {
        &&& self.stop <==> self.accepted_some()
        &&& forall|i: int|
            0 <= i < self.workers.len() && (#[trigger] self.workers[i] == WorkerModel::Done(
                WorkerEnd::Found,
            ) || self.workers[i] == WorkerModel::Done(WorkerEnd::Stopped)) ==> self.stop
        &&& forall|i: int|
            0 <= i < self.workers.len() && #[trigger] self.workers[i] == WorkerModel::Done(
                WorkerEnd::Drained,
            ) ==> self.generator.phase is Done && self.queue.len() == 0 && self.generator.phase
                != GeneratorPhase::Done(GeneratorEnd::QueueClosed)
        &&& self.generator.phase == GeneratorPhase::Done(GeneratorEnd::Stopped) ==> self.stop
        &&& self.generator.phase == GeneratorPhase::Done(GeneratorEnd::QueueClosed)
            ==> self.all_done()
        &&& self.stop ==> self.settled.len() + count(self.workers, pending())
            <= self.settled_at_stop + self.workers.len() - 1
        &&& self.stop ==> 1 <= self.settled_at_stop <= self.settled.len()
        &&& self.late_handoffs <= 1
        &&& !self.stop ==> self.late_handoffs == 0
        &&& self.late_handoffs == 1 ==> self.generator.phase != GeneratorPhase::Offering
    }

    /// The invariant of the pipeline.
    pub open spec fn inv(self) -> bool {
        &&& self.inv_shape()
        &&& self.inv_order()
        &&& self.inv_account()
        &&& self.inv_ledger()
        &&& self.inv_stop()
    }
}

/// The pipeline starts within the invariant.
pub proof fn lemma_init_inv(
    alphabet: Seq<char>,
    shortest: nat,
    longest: nat,
    capacity: nat,
    workers: nat,
)
    requires
        alphabet.len() >= 1,
        alphabet.no_duplicates(),
        shortest <= longest,
        capacity >= 1,
        workers >= 1,
    ensures
        Pipeline::init(alphabet, shortest, longest, capacity, workers).inv(),
{
    let s = Pipeline::init(alphabet, shortest, longest, capacity, workers);
    lemma_span_size_positive(alphabet.len(), shortest, longest);
    lemma_count_none(s.workers, verifying());
    lemma_flying_none(s.workers);
    assert(judged(s.settled).add(flying(s.workers)) =~= bag(s.attempts));
}

proof fn lemma_shape_kept(s: Pipeline, step: Step)
    requires
        s.inv(),
        s.enabled(step),
    ensures
        s.apply(step).inv_shape(),
        s.apply(step).generator.alphabet == s.generator.alphabet,
        s.apply(step).generator.shortest == s.generator.shortest,
        s.apply(step).generator.longest == s.generator.longest,
        s.apply(step).capacity == s.capacity,
        s.apply(step).workers.len() == s.workers.len(),
{
    lemma_generator_next_wf(s.generator, GeneratorEvent::HandedOver);
    lemma_generator_next_wf(s.generator, GeneratorEvent::Refused);
    lemma_generator_next_wf(s.generator, GeneratorEvent::StopRead(s.stop));
}

proof fn lemma_order_kept(s: Pipeline, step: Step)
    requires
        s.inv(),
        s.enabled(step),
    ensures
        s.apply(step).inv_order(),
{
    let t = s.apply(step);
    lemma_shape_kept(s, step);
    match step {
        Step::Handoff => {
            assert forall|j: int| 0 <= j < t.queue.len() implies #[trigger] t.queue[j] == t.word(
                (t.attempts.len() + j) as nat,
            ) by {
                if j < s.queue.len() {
                    assert(t.queue[j] == s.queue[j]);
                }
            }
        },
        Step::Dequeue(i) => {
            assert forall|j: int| 0 <= j < t.attempts.len() implies #[trigger] t.attempts[j]
                == t.word(j as nat) by {
                if j < s.attempts.len() {
                    assert(t.attempts[j] == s.attempts[j]);
                } else {
                    assert(t.attempts[j] == s.queue[0]);
                }
            }
            assert forall|j: int| 0 <= j < t.queue.len() implies #[trigger] t.queue[j] == t.word(
                (t.attempts.len() + j) as nat,
            ) by {
                assert(t.queue[j] == s.queue[j + 1]);
            }
        },
        _ => {},
    }
}

/// A call in flight stays in flight while its worker is left alone.
proof fn lemma_in_flight_kept(s: Pipeline, t: Pipeline, i: int, c: Seq<char>)
    requires
        0 <= i < s.workers.len(),
        t.workers == s.workers.update(i, t.workers[i]),
        s.in_flight(c),
        s.workers[i] != WorkerModel::Verifying(c),
    ensures
        t.in_flight(c),
{
    let x = choose|x: int| 0 <= x < s.workers.len() && s.workers[x] == WorkerModel::Verifying(c);
    assert(t.workers[x] == WorkerModel::Verifying(c));
}

/// A verdict once given stays on the record.
proof fn lemma_settled_kept(s: Pipeline, t: Pipeline, c: Seq<char>)
    requires
        s.has_settled(c),
        s.settled.len() <= t.settled.len(),
        forall|k: int| 0 <= k < s.settled.len() ==> t.settled[k] == s.settled[k],
    ensures
        t.has_settled(c),
{
    let k = choose|k: int| 0 <= k < s.settled.len() && (#[trigger] s.settled[k]).0 == c;
    assert(t.settled[k].0 == c);
}

proof fn lemma_contains_kept(before: Seq<Seq<char>>, after: Seq<Seq<char>>, c: Seq<char>)
    requires
        before.contains(c),
        before.len() <= after.len(),
        forall|j: int| 0 <= j < before.len() ==> after[j] == before[j],
    ensures
        after.contains(c),
{
    let j = choose|j: int| 0 <= j < before.len() && before[j] == c;
    assert(after[j] == c);
}

proof fn lemma_account_kept(s: Pipeline, step: Step)
    requires
        s.inv(),
        s.enabled(step),
    ensures
        s.apply(step).inv_account(),
{
    let t = s.apply(step);
    lemma_shape_kept(s, step);
    match step {
        Step::Handoff | Step::Refuse | Step::GeneratorRead => {
            assert(t.workers == s.workers && t.attempts == s.attempts && t.settled == s.settled);
            assert forall|j: int| 0 <= j < t.attempts.len() implies t.has_settled(
                #[trigger] t.attempts[j],
            ) || t.in_flight(t.attempts[j]) by {
                let c = s.attempts[j];
                assert(s.has_settled(c) || s.in_flight(c));
                if s.has_settled(c) {
                    lemma_settled_kept(s, t, c);
                } else {
                    let x = choose|x: int|
                        0 <= x < s.workers.len() && s.workers[x] == WorkerModel::Verifying(c);
                    assert(t.workers[x] == WorkerModel::Verifying(c));
                }
            }
        },
        Step::Dequeue(i) => {
            let c0 = s.queue[0];
            lemma_count_update(s.workers, i, WorkerModel::Verifying(c0), verifying());
            assert(t.workers == s.workers.update(i, t.workers[i]));
            assert(t.attempts[s.attempts.len() as int] == c0);
            assert forall|x: int|
                0 <= x < t.workers.len() && (#[trigger] t.workers[x]) is Verifying implies t.attempts.contains(
                t.workers[x]->Verifying_0,
            ) by {
                if x != i {
                    assert(s.workers[x] is Verifying);
                    lemma_contains_kept(s.attempts, t.attempts, s.workers[x]->Verifying_0);
                }
            }
            assert forall|j: int| 0 <= j < t.attempts.len() implies t.has_settled(
                #[trigger] t.attempts[j],
            ) || t.in_flight(t.attempts[j]) by {
                if j < s.attempts.len() {
                    let c = s.attempts[j];
                    assert(t.attempts[j] == c);
                    assert(s.has_settled(c) || s.in_flight(c));
                    if s.has_settled(c) {
                        lemma_settled_kept(s, t, c);
                    } else {
                        lemma_in_flight_kept(s, t, i, c);
                    }
                } else {
                    assert(t.workers[i] == WorkerModel::Verifying(c0));
                }
            }
            assert forall|k: int| 0 <= k < t.settled.len() implies t.attempts.contains(
                (#[trigger] t.settled[k]).0,
            ) by {
                lemma_contains_kept(s.attempts, t.attempts, s.settled[k].0);
            }
        },
        Step::Drain(i) | Step::WorkerRead(i) => {
            lemma_count_update(s.workers, i, t.workers[i], verifying());
            assert(t.workers == s.workers.update(i, t.workers[i]));
            assert forall|x: int|
                0 <= x < t.workers.len() && (#[trigger] t.workers[x]) is Verifying implies t.attempts.contains(
                t.workers[x]->Verifying_0,
            ) by {
                assert(x != i);
                assert(s.workers[x] is Verifying);
            }
            assert forall|j: int| 0 <= j < t.attempts.len() implies t.has_settled(
                #[trigger] t.attempts[j],
            ) || t.in_flight(t.attempts[j]) by {
                let c = s.attempts[j];
                assert(s.has_settled(c) || s.in_flight(c));
                if s.has_settled(c) {
                    lemma_settled_kept(s, t, c);
                } else {
                    lemma_in_flight_kept(s, t, i, c);
                }
            }
        },
        Step::Settle(i, verdict) => {
            let c0 = s.workers[i]->Verifying_0;
            assert(s.workers[i] == WorkerModel::Verifying(c0));
            lemma_count_update(s.workers, i, t.workers[i], verifying());
            assert(t.workers == s.workers.update(i, t.workers[i]));
            assert(t.settled == s.settled.push((c0, verdict)));
            assert(t.attempts == s.attempts);
            assert(t.settled[s.settled.len() as int].0 == c0);
            assert forall|x: int|
                0 <= x < t.workers.len() && (#[trigger] t.workers[x]) is Verifying implies t.attempts.contains(
                t.workers[x]->Verifying_0,
            ) by {
                assert(x != i);
                assert(s.workers[x] is Verifying);
            }
            assert forall|j: int| 0 <= j < t.attempts.len() implies t.has_settled(
                #[trigger] t.attempts[j],
            ) || t.in_flight(t.attempts[j]) by {
                let c = s.attempts[j];
                assert(s.has_settled(c) || s.in_flight(c));
                if s.has_settled(c) {
                    lemma_settled_kept(s, t, c);
                } else if c == c0 {
                    assert(t.has_settled(c));
                } else {
                    lemma_in_flight_kept(s, t, i, c);
                }
            }
            assert forall|k: int| 0 <= k < t.settled.len() implies t.attempts.contains(
                (#[trigger] t.settled[k]).0,
            ) by {
                if k < s.settled.len() {
                    assert(t.settled[k] == s.settled[k]);
                } else {
                    assert(s.workers[i] is Verifying);
                }
            }
        },
    }
}

proof fn lemma_ledger_kept(s: Pipeline, step: Step)
    requires
        s.inv(),
        s.enabled(step),
    ensures
        s.apply(step).inv_ledger(),
{
    broadcast use vstd::multiset::group_multiset_axioms;

    let t = s.apply(step);
    match step {
        Step::Handoff | Step::Refuse | Step::GeneratorRead => {},
        Step::Dequeue(i) | Step::Drain(i) | Step::WorkerRead(i) | Step::Settle(i, _) => {
            lemma_flying_update(s.workers, i, t.workers[i]);
            assert(t.workers == s.workers.update(i, t.workers[i]));
            let moved_out = flying(t.workers).add(held(s.workers[i]));
            let moved_in = flying(s.workers).add(held(t.workers[i]));
            assert(moved_out == moved_in);
            let before = judged(s.settled).add(flying(s.workers));
            assert(before == bag(s.attempts));
            if step is Dequeue {
                assert(t.attempts.drop_last() =~= s.attempts);
                assert(t.attempts.last() == s.queue[0]);
                assert(bag(t.attempts) == bag(s.attempts).insert(s.queue[0]));
            }
            if step is Settle {
                assert(t.settled.drop_last() =~= s.settled);
                assert(t.settled.last().0 == s.workers[i]->Verifying_0);
                assert(judged(t.settled) == judged(s.settled).insert(s.workers[i]->Verifying_0));
            }
            assert forall|c: Seq<char>|
                judged(t.settled).add(flying(t.workers)).count(c) == bag(t.attempts).count(c) by {
                assert(moved_out.count(c) == moved_in.count(c));
                assert(before.count(c) == bag(s.attempts).count(c));
            }
            assert(judged(t.settled).add(flying(t.workers)) =~= bag(t.attempts));
        },
    }
}

proof fn lemma_accepted_kept(s: Pipeline, t: Pipeline)
    requires
        s.accepted_some(),
        s.settled.len() <= t.settled.len(),
        forall|k: int| 0 <= k < s.settled.len() ==> t.settled[k] == s.settled[k],
    ensures
        t.accepted_some(),
{
    let k = choose|k: int|
        0 <= k < s.settled.len() && (#[trigger] s.settled[k]).1 == Verdict::Accepted;
    assert(t.settled[k].1 == Verdict::Accepted);
}

proof fn lemma_stop_kept(s: Pipeline, step: Step)
    requires
        s.inv(),
        s.enabled(step),
    ensures
        s.apply(step).inv_stop(),
{
    let t = s.apply(step);
    lemma_shape_kept(s, step);
    match step {
        Step::Handoff | Step::Refuse | Step::GeneratorRead => {
            assert(t.workers == s.workers && t.settled == s.settled && t.stop == s.stop);
            if s.accepted_some() {
                lemma_accepted_kept(s, t);
            }
            if t.accepted_some() {
                lemma_accepted_kept(t, s);
            }
            assert forall|i: int|
                0 <= i < t.workers.len() && #[trigger] t.workers[i] == WorkerModel::Done(
                    WorkerEnd::Drained,
                ) implies t.generator.phase is Done && t.queue.len() == 0 && t.generator.phase
                != GeneratorPhase::Done(GeneratorEnd::QueueClosed) by {
                assert(s.workers[i] == WorkerModel::Done(WorkerEnd::Drained));
            }
        },
        Step::Dequeue(i) | Step::Drain(i) | Step::WorkerRead(i) => {
            lemma_count_update(s.workers, i, t.workers[i], pending());
            assert(t.workers == s.workers.update(i, t.workers[i]));
            assert(t.settled == s.settled && t.stop == s.stop);
            if s.accepted_some() {
                lemma_accepted_kept(s, t);
            }
            if t.accepted_some() {
                lemma_accepted_kept(t, s);
            }
            assert(!(s.workers[i] is Done));
            assert(!s.all_done());
            assert forall|x: int|
                0 <= x < t.workers.len() && (#[trigger] t.workers[x] == WorkerModel::Done(
                    WorkerEnd::Found,
                ) || t.workers[x] == WorkerModel::Done(WorkerEnd::Stopped)) implies t.stop by {
                if x != i {
                    assert(s.workers[x] == t.workers[x]);
                }
            }
            assert forall|x: int|
                0 <= x < t.workers.len() && #[trigger] t.workers[x] == WorkerModel::Done(
                    WorkerEnd::Drained,
                ) implies t.generator.phase is Done && t.queue.len() == 0 && t.generator.phase
                != GeneratorPhase::Done(GeneratorEnd::QueueClosed) by {
                if x != i {
                    assert(s.workers[x] == WorkerModel::Done(WorkerEnd::Drained));
                }
            }
        },
        Step::Settle(i, verdict) => {
            let c0 = s.workers[i]->Verifying_0;
            lemma_count_update(s.workers, i, t.workers[i], pending());
            lemma_count_bound(s.workers, pending());
            assert(t.workers == s.workers.update(i, t.workers[i]));
            assert(t.settled == s.settled.push((c0, verdict)));
            assert(!(s.workers[i] is Done));
            assert(!s.all_done());
            if s.accepted_some() {
                lemma_accepted_kept(s, t);
            }
            if verdict == Verdict::Accepted {
                assert(t.settled[s.settled.len() as int].1 == Verdict::Accepted);
            }
            if t.accepted_some() && !s.accepted_some() {
                let k = choose|k: int|
                    0 <= k < t.settled.len() && (#[trigger] t.settled[k]).1 == Verdict::Accepted;
                if k < s.settled.len() {
                    assert(s.settled[k].1 == Verdict::Accepted);
                }
            }
            assert forall|x: int|
                0 <= x < t.workers.len() && (#[trigger] t.workers[x] == WorkerModel::Done(
                    WorkerEnd::Found,
                ) || t.workers[x] == WorkerModel::Done(WorkerEnd::Stopped)) implies t.stop by {
                if x != i {
                    assert(s.workers[x] == t.workers[x]);
                }
            }
            assert forall|x: int|
                0 <= x < t.workers.len() && #[trigger] t.workers[x] == WorkerModel::Done(
                    WorkerEnd::Drained,
                ) implies t.generator.phase is Done && t.queue.len() == 0 && t.generator.phase
                != GeneratorPhase::Done(GeneratorEnd::QueueClosed) by {
                if x != i {
                    assert(s.workers[x] == WorkerModel::Done(WorkerEnd::Drained));
                }
            }
        },
    }
}

/// Every move keeps the pipeline within the invariant.
pub proof fn lemma_step_inv(s: Pipeline, step: Step)
    requires
        s.inv(),
        s.enabled(step),
    ensures
        s.apply(step).inv(),
{
    lemma_shape_kept(s, step);
    lemma_order_kept(s, step);
    lemma_account_kept(s, step);
    lemma_ledger_kept(s, step);
    lemma_stop_kept(s, step);
}

/// Every state of a run is within the invariant, and the run's setting stays
/// what it was at the start.
pub proof fn lemma_execution_inv(
    trace: Seq<Pipeline>,
    alphabet: Seq<char>,
    shortest: nat,
    longest: nat,
    capacity: nat,
    workers: nat,
    i: int,
)
    requires
        alphabet.len() >= 1,
        alphabet.no_duplicates(),
        shortest <= longest,
        capacity >= 1,
        workers >= 1,
        execution(trace, alphabet, shortest, longest, capacity, workers),
        0 <= i < trace.len(),
    ensures
        trace[i].inv(),
        trace[i].generator.alphabet == alphabet,
        trace[i].generator.shortest == shortest,
        trace[i].generator.longest == longest,
        trace[i].capacity == capacity,
        trace[i].workers.len() == workers,
    decreases i,
{
    if i == 0 {
        lemma_init_inv(alphabet, shortest, longest, capacity, workers);
    } else {
        lemma_execution_inv(trace, alphabet, shortest, longest, capacity, workers, i - 1);
        let s = trace[i - 1];
        assert(s.next(trace[i - 1 + 1]));
        let step = choose|step: Step| s.enabled(step) && trace[i] == s.apply(step);
        lemma_step_inv(s, step);
        lemma_shape_kept(s, step);
    }
}

} // verus!

//! What holds of every run of the pipeline.

use crate::generator::{
    generator_next, GeneratorEnd, GeneratorEvent, GeneratorModel, GeneratorPhase,
};
use crate::pipeline::{execution, lemma_count_none, Pipeline, Step};
use crate::reachable::{
    bag, flying, judged, lemma_bag_of_distinct, lemma_execution_inv, pending, verifying,
};
use crate::words::{candidates, lemma_span_words_differ, span_size, span_word};
use crate::worker::{Verdict, WorkerEnd, WorkerModel};
use vstd::prelude::*;

verus! {

/// What one worker still has before it: a step for each move that it can
/// make before it must take a new candidate or rest.
pub open spec fn weight(w: WorkerModel) -> nat {
    match w {
        WorkerModel::Waiting => 1,
        WorkerModel::Verifying(_) => 3,
        WorkerModel::Reading => 2,
        WorkerModel::Done(_) => 0,
    }
}

/// The weights of all workers together.
pub open spec fn load(workers: Seq<WorkerModel>) -> nat
    decreases workers.len(),
{
    if workers.len() == 0 {
        0
    } else {
        load(workers.drop_last()) + weight(workers.last())
    }
}

/// A bound on the number of moves that the pipeline can still make: five for
/// each candidate not yet handed over, three for each one in the queue, and
/// what the workers have before them.
pub open spec fn measure(s: Pipeline) -> nat {
    let left = (s.generator.total() - s.generator.handed) as nat;
    (match s.generator.phase {
        GeneratorPhase::Offering => 5 * left + 1,
        GeneratorPhase::Reading => 5 * left + 2,
        GeneratorPhase::Done(_) => 0,
    }) + 3 * s.queue.len() + load(s.workers)
}

proof fn lemma_load_update(workers: Seq<WorkerModel>, i: int, w: WorkerModel)
    requires
        0 <= i < workers.len(),
    ensures
        load(workers.update(i, w)) + weight(workers[i]) == load(workers) + weight(w),
    decreases workers.len(),
{
    let updated = workers.update(i, w);
    if i == workers.len() - 1 {
        assert(updated.drop_last() =~= workers.drop_last());
    } else {
        assert(updated.drop_last() =~= workers.drop_last().update(i, w));
        lemma_load_update(workers.drop_last(), i, w);
    }
}

proof fn lemma_load_waiting(n: nat)
    ensures
        load(Seq::new(n, |i: int| WorkerModel::Waiting)) == n,
    decreases n,
{
    if n > 0 {
        assert(Seq::new(n, |i: int| WorkerModel::Waiting).drop_last() =~= Seq::new(
            (n - 1) as nat,
            |i: int| WorkerModel::Waiting,
        ));
        lemma_load_waiting((n - 1) as nat);
    }
}

/// Every move brings the pipeline nearer to rest.
pub proof fn law_every_move_counts_down(s: Pipeline, step: Step)
    requires
        s.inv(),
        s.enabled(step),
    ensures
        measure(s.apply(step)) < measure(s),
{
    let t = s.apply(step);
    match step {
        Step::Handoff | Step::Refuse | Step::GeneratorRead => {},
        Step::Dequeue(i) | Step::Drain(i) | Step::Settle(i, _) | Step::WorkerRead(i) => {
            lemma_load_update(s.workers, i, t.workers[i]);
            assert(t.workers == s.workers.update(i, t.workers[i]));
        },
    }
}

/// No run goes on for ever: a run over a space of `t` candidates with `n`
/// workers has at most `5 * t + n + 1` moves.
pub proof fn law_run_is_bounded(
    trace: Seq<Pipeline>,
    alphabet: Seq<char>,
    shortest: nat,
    longest: nat,
    capacity: nat,
    workers: nat,
)
    requires
        alphabet.len() >= 1,
        alphabet.no_duplicates(),
        shortest <= longest,
        capacity >= 1,
        workers >= 1,
        execution(trace, alphabet, shortest, longest, capacity, workers),
    ensures
        trace.len() - 1 <= 5 * span_size(alphabet.len(), shortest, longest) + workers + 1,
{
    lemma_load_waiting(workers);
    lemma_moves_and_measure(trace, alphabet, shortest, longest, capacity, workers, trace.len() - 1);
}

proof fn lemma_moves_and_measure(
    trace: Seq<Pipeline>,
    alphabet: Seq<char>,
    shortest: nat,
    longest: nat,
    capacity: nat,
    workers: nat,
    i: int,
)
    requires
        alphabet.len() >= 1,
        alphabet.no_duplicates(),
        shortest <= longest,
        capacity >= 1,
        workers >= 1,
        execution(trace, alphabet, shortest, longest, capacity, workers),
        0 <= i < trace.len(),
    ensures
        i + measure(trace[i]) <= measure(trace[0]),
    decreases i,
{
    if i > 0 {
        lemma_moves_and_measure(trace, alphabet, shortest, longest, capacity, workers, i - 1);
        lemma_execution_inv(trace, alphabet, shortest, longest, capacity, workers, i - 1);
        let s = trace[i - 1];
        assert(s.next(trace[i - 1 + 1]));
        let step = choose|step: Step| s.enabled(step) && trace[i] == s.apply(step);
        law_every_move_counts_down(s, step);
    }
}

/// The pipeline never hangs: as long as some task is not at rest, some task
/// can move. (A call of the verifier is taken to end.)
pub proof fn law_never_stuck(s: Pipeline)
    requires
        s.inv(),
        !s.terminal(),
    ensures
        exists|step: Step| s.enabled(step),
{
    if s.generator.phase == GeneratorPhase::Reading {
        assert(s.enabled(Step::GeneratorRead));
    } else if s.all_done() {
        assert(s.enabled(Step::Refuse));
    } else {
        let i = choose|i: int| 0 <= i < s.workers.len() && !(s.workers[i] is Done);
        match s.workers[i] {
            WorkerModel::Waiting => {
                if s.queue.len() > 0 {
                    assert(s.enabled(Step::Dequeue(i)));
                } else if s.generator.phase is Done {
                    assert(s.enabled(Step::Drain(i)));
                } else {
                    assert(s.enabled(Step::Handoff));
                }
            },
            WorkerModel::Verifying(_) => {
                assert(s.enabled(Step::Settle(i, Verdict::Errored)));
            },
            WorkerModel::Reading => {
                assert(s.enabled(Step::WorkerRead(i)));
            },
            WorkerModel::Done(_) => {},
        }
    }
}

/// The stop signal is never taken back, and setting it a second time
/// changes nothing.
pub proof fn law_stop_is_set_once(s: Pipeline, step: Step)
    requires
        s.enabled(step),
    ensures
        s.raise().stop,
        s.raise().raise() == s.raise(),
        s.stop ==> s.raise() == s,
        s.stop ==> s.apply(step).stop && s.apply(step).settled_at_stop == s.settled_at_stop,
{
}

/// Once the generator has read the stop signal as set it is at rest, and a
/// generator at rest stays as it is, whatever it is told: it hands over
/// nothing more.
pub proof fn law_generator_rests(m: GeneratorModel, event: GeneratorEvent)
    ensures
        m.phase == GeneratorPhase::Reading ==> generator_next(m, GeneratorEvent::StopRead(true))
            == (GeneratorModel { phase: GeneratorPhase::Done(GeneratorEnd::Stopped), ..m }),
        m.phase is Done ==> generator_next(m, event) == m,
{
}

proof fn lemma_late_step(s: Pipeline, step: Step)
    requires
        s.inv(),
        s.enabled(step),
        s.stop,
    ensures
        s.apply(step).stop,
        s.apply(step).generator.handed - s.generator.handed == s.apply(step).late_handoffs
            - s.late_handoffs,
{
}

/// After the stop signal is set, the queue takes at most one more candidate
/// from the generator: the one on offer when the generator last read the
/// signal as not set.
pub proof fn law_one_handoff_after_stop(
    trace: Seq<Pipeline>,
    alphabet: Seq<char>,
    shortest: nat,
    longest: nat,
    capacity: nat,
    workers: nat,
    i: int,
    j: int,
)
    requires
        alphabet.len() >= 1,
        alphabet.no_duplicates(),
        shortest <= longest,
        capacity >= 1,
        workers >= 1,
        execution(trace, alphabet, shortest, longest, capacity, workers),
        0 <= i <= j < trace.len(),
        trace[i].stop,
    ensures
        trace[j].stop,
        trace[j].generator.handed <= trace[i].generator.handed + 1,
        trace[j].generator.handed - trace[i].generator.handed == trace[j].late_handoffs
            - trace[i].late_handoffs,
    decreases j - i,
{
    lemma_execution_inv(trace, alphabet, shortest, longest, capacity, workers, j);
    if i < j {
        law_one_handoff_after_stop(trace, alphabet, shortest, longest, capacity, workers, i, j - 1);
        lemma_execution_inv(trace, alphabet, shortest, longest, capacity, workers, j - 1);
        let s = trace[j - 1];
        assert(s.next(trace[j - 1 + 1]));
        let step = choose|step: Step| s.enabled(step) && trace[j] == s.apply(step);
        lemma_late_step(s, step);
    }
}

/// The candidates taken from the queue so far are all different.
proof fn lemma_attempts_distinct(s: Pipeline)
    requires
        s.inv(),
    ensures
        s.attempts.no_duplicates(),
{
    let g = s.generator;
    assert forall|i: int, j: int|
        0 <= i < s.attempts.len() && 0 <= j < s.attempts.len() && i != j implies s.attempts[i]
        != s.attempts[j] by {
        assert(s.attempts[i] == s.word(i as nat) && s.attempts[j] == s.word(j as nat));
        if s.attempts[i] == s.attempts[j] {
            lemma_span_words_differ(g.alphabet, g.shortest, g.longest, i as nat, j as nat);
        }
    }
}

/// No work is done twice and none is lost: at every moment of a run, each
/// candidate was taken from the queue at most once, and each one taken is
/// either in the hands of one worker or has had one verdict.
pub proof fn law_no_call_twice(
    trace: Seq<Pipeline>,
    alphabet: Seq<char>,
    shortest: nat,
    longest: nat,
    capacity: nat,
    workers: nat,
    i: int,
    c: Seq<char>,
)
    requires
        alphabet.len() >= 1,
        alphabet.no_duplicates(),
        shortest <= longest,
        capacity >= 1,
        workers >= 1,
        execution(trace, alphabet, shortest, longest, capacity, workers),
        0 <= i < trace.len(),
    ensures
        bag(trace[i].attempts).count(c) <= 1,
        judged(trace[i].settled).count(c) + flying(trace[i].workers).count(c) == bag(
            trace[i].attempts,
        ).count(c),
{
    broadcast use vstd::multiset::group_multiset_axioms;

    lemma_execution_inv(trace, alphabet, shortest, longest, capacity, workers, i);
    lemma_attempts_distinct(trace[i]);
    lemma_bag_of_distinct(trace[i].attempts, c);
}

/// The queue keeps the order of generation: at every moment of a run, the
/// candidates taken from the queue, followed by those that wait in it, are
/// the candidates handed over so far, which are the first of the space.
pub proof fn law_queue_keeps_order(
    trace: Seq<Pipeline>,
    alphabet: Seq<char>,
    shortest: nat,
    longest: nat,
    capacity: nat,
    workers: nat,
    i: int,
)
    requires
        alphabet.len() >= 1,
        alphabet.no_duplicates(),
        shortest <= longest,
        capacity >= 1,
        workers >= 1,
        execution(trace, alphabet, shortest, longest, capacity, workers),
        0 <= i < trace.len(),
    ensures
        trace[i].generator.handed <= span_size(alphabet.len(), shortest, longest),
        trace[i].attempts + trace[i].queue == candidates(alphabet, shortest, longest).subrange(
            0,
            trace[i].generator.handed as int,
        ),
{
    lemma_execution_inv(trace, alphabet, shortest, longest, capacity, workers, i);
    let s = trace[i];
    let prefix = candidates(alphabet, shortest, longest).subrange(0, s.generator.handed as int);
    let row = s.attempts + s.queue;
    assert(row.len() == prefix.len());
    assert forall|j: int| 0 <= j < row.len() implies row[j] == prefix[j] by {
        if j < s.attempts.len() {
            assert(row[j] == s.attempts[j]);
            assert(s.attempts[j] == s.word(j as nat));
        } else {
            assert(row[j] == s.queue[j - s.attempts.len()]);
            assert(s.queue[j - s.attempts.len()] == s.word(j as nat));
        }
    }
    assert(row =~= prefix);
}

/// The bounds of the pipeline hold at every moment of a run: the queue
/// never holds more than its capacity; after the stop signal is set the
/// queue takes at most one more candidate; and of the calls of the verifier,
/// at most one for each worker but the finder ends after the signal is set.
pub proof fn law_bounds_hold(
    trace: Seq<Pipeline>,
    alphabet: Seq<char>,
    shortest: nat,
    longest: nat,
    capacity: nat,
    workers: nat,
    i: int,
)
    requires
        alphabet.len() >= 1,
        alphabet.no_duplicates(),
        shortest <= longest,
        capacity >= 1,
        workers >= 1,
        execution(trace, alphabet, shortest, longest, capacity, workers),
        0 <= i < trace.len(),
    ensures
        trace[i].queue.len() <= capacity,
        trace[i].late_handoffs <= 1,
        trace[i].stop ==> trace[i].settled.len() - trace[i].settled_at_stop <= workers - 1,
{
    lemma_execution_inv(trace, alphabet, shortest, longest, capacity, workers, i);
}

/// The verifier has accepted `key` whenever asked, and nothing else.
pub open spec fn accepts_only(s: Pipeline, key: Seq<char>) -> bool {
    forall|k: int|
        0 <= k < s.settled.len() ==> ((#[trigger] s.settled[k]).1 == Verdict::Accepted
            <==> s.settled[k].0 == key)
}

/// The verifier has accepted nothing.
pub open spec fn accepts_none(s: Pipeline) -> bool {
    forall|k: int| 0 <= k < s.settled.len() ==> (#[trigger] s.settled[k]).1 != Verdict::Accepted
}

/// At rest, no call is under way and every worker has ended.
proof fn lemma_at_rest(s: Pipeline)
    requires
        s.inv(),
        s.terminal(),
    ensures
        s.settled.len() == s.attempts.len(),
        s.stop ==> s.attempts.len() <= s.settled_at_stop + s.workers.len() - 1,
        forall|c: Seq<char>| !s.in_flight(c),
        judged(s.settled) == bag(s.attempts),
        !s.stop ==> {
            &&& s.generator.phase == GeneratorPhase::Done(GeneratorEnd::Exhausted)
            &&& s.attempts.len() == s.generator.total()
            &&& forall|i: int|
                0 <= i < s.workers.len() ==> #[trigger] s.workers[i] == WorkerModel::Done(
                    WorkerEnd::Drained,
                )
        },
{
    assert forall|i: int| 0 <= i < s.workers.len() implies !verifying()(#[trigger] s.workers[i])
        && !pending()(s.workers[i]) by {
        assert(s.workers[i] is Done);
    }
    lemma_count_none(s.workers, verifying());
    lemma_count_none(s.workers, pending());
    assert(judged(s.settled) =~= bag(s.attempts)) by {
        broadcast use vstd::multiset::group_multiset_axioms;

        assert forall|i: int| 0 <= i < s.workers.len() implies !((#[trigger] s.workers[i]) is Verifying) by {
            assert(s.workers[i] is Done);
        }
        crate::reachable::lemma_flying_none(s.workers);
    }
    assert forall|c: Seq<char>| !s.in_flight(c) by {
        if s.in_flight(c) {
            let i = choose|i: int|
                0 <= i < s.workers.len() && s.workers[i] == WorkerModel::Verifying(c);
            assert(s.workers[i] is Done);
        }
    }
    if !s.stop {
        assert forall|i: int| 0 <= i < s.workers.len() implies #[trigger] s.workers[i]
            == WorkerModel::Done(WorkerEnd::Drained) by {
            assert(s.workers[i] is Done);
            match s.workers[i]->Done_0 {
                WorkerEnd::Found => {},
                WorkerEnd::Stopped => {},
                WorkerEnd::Drained => {},
            }
        }
        assert(s.workers[0] == WorkerModel::Done(WorkerEnd::Drained));
        match s.generator.phase->Done_0 {
            GeneratorEnd::Exhausted => {},
            GeneratorEnd::Stopped => {},
            GeneratorEnd::QueueClosed => {},
        }
    }
}

/// With a verifier that accepts one key of the space and nothing else, a
/// run that has come to rest has found that key and no other; it has begun
/// a call on every candidate up to the key; every call begun has ended; and
/// after the key was accepted, at most one further call for each other
/// worker has ended.
pub proof fn law_single_key(
    trace: Seq<Pipeline>,
    alphabet: Seq<char>,
    shortest: nat,
    longest: nat,
    capacity: nat,
    workers: nat,
    position: nat,
)
    requires
        alphabet.len() >= 1,
        alphabet.no_duplicates(),
        shortest <= longest,
        capacity >= 1,
        workers >= 1,
        execution(trace, alphabet, shortest, longest, capacity, workers),
        trace.last().terminal(),
        position < span_size(alphabet.len(), shortest, longest),
        accepts_only(trace.last(), span_word(alphabet, shortest, longest, position)),
    ensures
        trace.last().stop,
        trace.last().winners() == set![span_word(alphabet, shortest, longest, position)],
        trace.last().settled.len() == trace.last().attempts.len(),
        judged(trace.last().settled) == bag(trace.last().attempts),
        position + 1 <= trace.last().attempts.len(),
        trace.last().attempts.len() <= trace.last().settled_at_stop + workers - 1,
{
    let end = trace.last();
    let key = span_word(alphabet, shortest, longest, position);
    lemma_execution_inv(trace, alphabet, shortest, longest, capacity, workers, trace.len() - 1);
    lemma_at_rest(end);
    if !end.stop {
        assert(end.attempts[position as int] == end.word(position));
        assert(end.has_settled(key) || end.in_flight(key));
        let k = choose|k: int| 0 <= k < end.settled.len() && (#[trigger] end.settled[k]).0 == key;
        assert(end.settled[k].1 == Verdict::Accepted);
        assert(end.accepted_some());
    }
    let k = choose|k: int|
        0 <= k < end.settled.len() && (#[trigger] end.settled[k]).1 == Verdict::Accepted;
    assert(end.settled[k].0 == key);
    assert(end.settled[k] == (key, Verdict::Accepted));
    assert forall|c: Seq<char>| end.winners().contains(c) implies c == key by {
        let k = choose|k: int|
            0 <= k < end.settled.len() && end.settled[k] == (c, Verdict::Accepted);
        assert(end.settled[k].1 == Verdict::Accepted);
    }
    assert(end.winners().contains(key));
    assert(end.winners() =~= set![key]);
    assert(end.attempts.contains(end.settled[k].0));
    let j = choose|j: int| 0 <= j < end.attempts.len() && end.attempts[j] == key;
    assert(end.attempts[j] == end.word(j as nat));
    lemma_span_words_differ(alphabet, shortest, longest, j as nat, position);
}

/// The same, as a count of calls. Where no more calls had ended, at the
/// moment the key was accepted, than the key's place in the space (counted
/// from one), as is the case whenever no later candidate had its verdict
/// before the key had its own, the run makes at least as many calls as the
/// key's place and at most that many and one more for each other worker.
/// Without that, a worker that is slow on the key lets the others run
/// ahead, and only the lower bound and the bound of `law_single_key` hold.
pub proof fn law_single_key_call_range(
    trace: Seq<Pipeline>,
    alphabet: Seq<char>,
    shortest: nat,
    longest: nat,
    capacity: nat,
    workers: nat,
    position: nat,
)
    requires
        alphabet.len() >= 1,
        alphabet.no_duplicates(),
        shortest <= longest,
        capacity >= 1,
        workers >= 1,
        execution(trace, alphabet, shortest, longest, capacity, workers),
        trace.last().terminal(),
        position < span_size(alphabet.len(), shortest, longest),
        accepts_only(trace.last(), span_word(alphabet, shortest, longest, position)),
        trace.last().settled_at_stop <= position + 1,
    ensures
        position + 1 <= trace.last().attempts.len() <= position + 1 + workers - 1,
{
    law_single_key(trace, alphabet, shortest, longest, capacity, workers, position);
}

/// With a verifier that accepts nothing, whether it rejects or fails, a run
/// that has come to rest has begun one call on each candidate of the space,
/// in the order of the space, and ended every one: each candidate of the
/// space has had one verdict, and nothing else has had any. The stop signal
/// is not set, the generator has ended on exhaustion, and every worker on
/// the closed and empty queue.
pub proof fn law_no_key_full_sweep(
    trace: Seq<Pipeline>,
    alphabet: Seq<char>,
    shortest: nat,
    longest: nat,
    capacity: nat,
    workers: nat,
)
    requires
        alphabet.len() >= 1,
        alphabet.no_duplicates(),
        shortest <= longest,
        capacity >= 1,
        workers >= 1,
        execution(trace, alphabet, shortest, longest, capacity, workers),
        trace.last().terminal(),
        accepts_none(trace.last()),
    ensures
        !trace.last().stop,
        trace.last().winners() == Set::<Seq<char>>::empty(),
        trace.last().attempts == candidates(alphabet, shortest, longest),
        trace.last().settled.len() == span_size(alphabet.len(), shortest, longest),
        forall|c: Seq<char>|
            #[trigger] judged(trace.last().settled).count(c) == if candidates(
                alphabet,
                shortest,
                longest,
            ).contains(c) {
                1nat
            } else {
                0nat
            },
        trace.last().generator.phase == GeneratorPhase::Done(GeneratorEnd::Exhausted),
        forall|i: int|
            0 <= i < workers ==> #[trigger] trace.last().workers[i] == WorkerModel::Done(
                WorkerEnd::Drained,
            ),
{
    let end = trace.last();
    lemma_execution_inv(trace, alphabet, shortest, longest, capacity, workers, trace.len() - 1);
    lemma_at_rest(end);
    if end.stop {
        let k = choose|k: int|
            0 <= k < end.settled.len() && (#[trigger] end.settled[k]).1 == Verdict::Accepted;
        assert(end.settled[k].1 != Verdict::Accepted);
    }
    assert forall|c: Seq<char>| !end.winners().contains(c) by {
        if end.winners().contains(c) {
            let k = choose|k: int|
                0 <= k < end.settled.len() && end.settled[k] == (c, Verdict::Accepted);
            assert(end.settled[k].1 != Verdict::Accepted);
        }
    }
    assert(end.winners() =~= Set::<Seq<char>>::empty());
    assert forall|j: int| 0 <= j < end.attempts.len() implies end.attempts[j] == candidates(
        alphabet,
        shortest,
        longest,
    )[j] by {
        assert(end.attempts[j] == end.word(j as nat));
    }
    assert(end.attempts =~= candidates(alphabet, shortest, longest));
    lemma_attempts_distinct(end);
    assert forall|c: Seq<char>|
        #[trigger] judged(end.settled).count(c) == if end.attempts.contains(c) {
            1nat
        } else {
            0nat
        } by {
        lemma_bag_of_distinct(end.attempts, c);
    }
}

/// The number of workers does not change what is found: with the same
/// space and the same verifier, which accepts one key and nothing else, a
/// run with one worker and a run with any number of workers end with the
/// same winner.
pub proof fn law_same_winner(
    single: Seq<Pipeline>,
    pooled: Seq<Pipeline>,
    alphabet: Seq<char>,
    shortest: nat,
    longest: nat,
    capacity_single: nat,
    capacity_pooled: nat,
    workers: nat,
    position: nat,
)
    requires
        alphabet.len() >= 1,
        alphabet.no_duplicates(),
        shortest <= longest,
        capacity_single >= 1,
        capacity_pooled >= 1,
        workers >= 1,
        execution(single, alphabet, shortest, longest, capacity_single, 1),
        execution(pooled, alphabet, shortest, longest, capacity_pooled, workers),
        single.last().terminal(),
        pooled.last().terminal(),
        position < span_size(alphabet.len(), shortest, longest),
        accepts_only(single.last(), span_word(alphabet, shortest, longest, position)),
        accepts_only(pooled.last(), span_word(alphabet, shortest, longest, position)),
    ensures
        single.last().winners() == pooled.last().winners(),
{
    law_single_key(single, alphabet, shortest, longest, capacity_single, 1, position);
    law_single_key(pooled, alphabet, shortest, longest, capacity_pooled, workers, position);
}

} // verus!

//! The candidate generator: a state machine that hands out the words of the
//! candidate space one at a time, watches how each handoff ends, and reads
//! the stop signal after each one. It keeps one word in memory, as a row of
//! digits that it moves on like an odometer.

use crate::alphabet::Alphabet;
use crate::words::{
    lemma_span_size_positive, lemma_span_word_of_length, shorter, space_size, span_size,
    span_word, word_at,
};
use vstd::arithmetic::div_mod::lemma_fundamental_div_mod_converse;
use vstd::prelude::*;

verus! {

/// Why the generator came to rest.
#[derive(Clone, Copy, PartialEq, Eq, Structural, Debug)]
pub enum GeneratorEnd {
    /// Every candidate of the space was handed over.
    Exhausted,
    /// The stop signal was found set after a handoff.
    Stopped,
    /// The queue refused a candidate: no consumer is left.
    QueueClosed,
}

/// What the generator is waiting for.
#[derive(Clone, Copy, PartialEq, Eq, Structural, Debug)]
pub enum GeneratorPhase {
    /// It offers its current candidate to the queue and awaits the result.
    Offering,
    /// The candidate was taken; it awaits a reading of the stop signal.
    Reading,
    /// It is at rest and will hand out nothing more.
    Done(GeneratorEnd),
}

/// What the generator is told.
#[derive(Clone, Copy, PartialEq, Eq, Structural, Debug)]
pub enum GeneratorEvent {
    /// The queue took the offered candidate.
    HandedOver,
    /// The queue is closed and refused the offered candidate.
    Refused,
    /// The stop signal was read, with this value.
    StopRead(bool),
}

/// What the generator asks its driver to do next.
#[derive(Clone, Copy, PartialEq, Eq, Structural, Debug)]
pub enum GeneratorAction {
    /// Hand the current candidate to the queue, waiting while it is full.
    Offer,
    /// Read the stop signal.
    ReadStop,
    /// Close the queue and end, for this reason.
    Finish(GeneratorEnd),
}

/// The generator as the pipeline sees it.
pub ghost struct GeneratorModel {
    pub alphabet: Seq<char>,
    /// The length of the shortest candidates.
    pub shortest: nat,
    /// The length of the longest candidates.
    pub longest: nat,
    /// How many candidates the queue has taken so far.
    pub handed: nat,
    pub phase: GeneratorPhase,
}

impl GeneratorModel {
    /// The size of the space that this generator walks.
    pub open spec fn total(self) -> nat {
        span_size(self.alphabet.len(), self.shortest, self.longest)
    }

    /// The candidate on offer: the next one that was not handed over.
    pub open spec fn current(self) -> Seq<char> {
        span_word(self.alphabet, self.shortest, self.longest, self.handed)
    }

    /// The alphabet and the range are in order, and the phase fits the
    /// number of candidates handed over.
    pub open spec fn wf(self) -> bool {
        &&& self.alphabet.len() >= 1
        &&& self.alphabet.no_duplicates()
        &&& self.shortest <= self.longest
        &&& self.handed <= self.total()
        &&& self.phase == GeneratorPhase::Offering ==> self.handed < self.total()
        &&& self.phase == GeneratorPhase::Done(GeneratorEnd::Exhausted) ==> self.handed
            == self.total()
        &&& self.phase == GeneratorPhase::Reading ==> self.handed >= 1
    }

    /// A generator that has handed out nothing yet.
    pub open spec fn start(alphabet: Seq<char>, shortest: nat, longest: nat) -> GeneratorModel {
        GeneratorModel { alphabet, shortest, longest, handed: 0, phase: GeneratorPhase::Offering }
    }
}

/// The generator's rule: an event that answers the pending request moves it
/// on; any other event leaves it where it is.
pub open spec fn generator_next(m: GeneratorModel, event: GeneratorEvent) -> GeneratorModel {
    match (m.phase, event) {
        (GeneratorPhase::Offering, GeneratorEvent::HandedOver) => GeneratorModel {
            handed: m.handed + 1,
            phase: GeneratorPhase::Reading,
            ..m
        },
        (GeneratorPhase::Offering, GeneratorEvent::Refused) => GeneratorModel {
            phase: GeneratorPhase::Done(GeneratorEnd::QueueClosed),
            ..m
        },
        (GeneratorPhase::Reading, GeneratorEvent::StopRead(stop)) => if stop {
            GeneratorModel { phase: GeneratorPhase::Done(GeneratorEnd::Stopped), ..m }
        } else if m.handed < m.total() {
            GeneratorModel { phase: GeneratorPhase::Offering, ..m }
        } else {
            GeneratorModel { phase: GeneratorPhase::Done(GeneratorEnd::Exhausted), ..m }
        },
        _ => m,
    }
}

/// What a generator in phase `phase` asks for.
pub open spec fn generator_request(phase: GeneratorPhase) -> GeneratorAction {
    match phase {
        GeneratorPhase::Offering => GeneratorAction::Offer,
        GeneratorPhase::Reading => GeneratorAction::ReadStop,
        GeneratorPhase::Done(end) => GeneratorAction::Finish(end),
    }
}

/// The rule keeps a well-formed generator well formed.
pub proof fn lemma_generator_next_wf(m: GeneratorModel, event: GeneratorEvent)
    requires
        m.wf(),
    ensures
        generator_next(m, event).wf(),
        generator_next(m, event).alphabet == m.alphabet,
        generator_next(m, event).shortest == m.shortest,
        generator_next(m, event).longest == m.longest,
        m.handed <= generator_next(m, event).handed <= m.handed + 1,
{
}

/// The position that a row of digits stands for, read in base `n` with the
/// most significant digit first.
spec fn rank(digits: Seq<usize>, n: nat) -> nat
    decreases digits.len(),
{
    if digits.len() == 0 {
        0
    } else {
        rank(digits.drop_last(), n) * n + digits.last() as nat
    }
}

spec fn digits_valid(digits: Seq<usize>, n: nat) -> bool {
    forall|i: int| 0 <= i < digits.len() ==> digits[i] < n
}

spec fn spell(alphabet: Seq<char>, digits: Seq<usize>) -> Seq<char> {
    Seq::new(digits.len(), |i: int| alphabet[digits[i] as int])
}

proof fn lemma_rank_bound(digits: Seq<usize>, n: nat)
    requires
        n > 0,
        digits_valid(digits, n),
    ensures
        rank(digits, n) < space_size(n, digits.len()),
    decreases digits.len(),
{
    if digits.len() > 0 {
        let front = digits.drop_last();
        lemma_rank_bound(front, n);
        let r = rank(front, n);
        let s = space_size(n, front.len());
        let d = digits.last() as nat;
        assert(r * n + d < n * s) by (nonlinear_arith)
            requires
                r < s,
                d < n,
        ;
    }
}

proof fn lemma_word_of_rank(alphabet: Seq<char>, digits: Seq<usize>)
    requires
        alphabet.len() > 0,
        digits_valid(digits, alphabet.len()),
    ensures
        word_at(alphabet, digits.len(), rank(digits, alphabet.len())) == spell(alphabet, digits),
    decreases digits.len(),
{
    let n = alphabet.len();
    if digits.len() == 0 {
        assert(spell(alphabet, digits) =~= Seq::empty());
    } else {
        let front = digits.drop_last();
        lemma_word_of_rank(alphabet, front);
        let r = rank(front, n);
        let d = digits.last() as nat;
        lemma_fundamental_div_mod_converse((r * n + d) as int, n as int, r as int, d as int);
        assert(spell(alphabet, digits) =~= spell(alphabet, front).push(alphabet[d as int]));
    }
}

proof fn lemma_rank_successor(before: Seq<usize>, after: Seq<usize>, i: int, n: nat)
    requires
        n > 0,
        before.len() == after.len(),
        0 <= i < before.len(),
        forall|j: int| 0 <= j < i ==> after[j] == before[j],
        after[i] == before[i] + 1,
        forall|j: int|
            #![trigger before[j]]
            #![trigger after[j]]
            i < j < before.len() ==> before[j] + 1 == n && after[j] == 0,
    ensures
        rank(after, n) == rank(before, n) + 1,
    decreases before.len(),
{
    if i == before.len() - 1 {
        assert(after.drop_last() =~= before.drop_last());
    } else {
        let b = before.drop_last();
        let a = after.drop_last();
        assert forall|j: int|
            #![trigger b[j]]
            #![trigger a[j]]
            i < j < b.len() implies b[j] + 1 == n && a[j] == 0 by {
            assert(b[j] == before[j] && a[j] == after[j]);
        }
        assert forall|j: int| 0 <= j < i implies a[j] == b[j] by {
            assert(b[j] == before[j] && a[j] == after[j]);
        }
        assert(a[i] == after[i] && b[i] == before[i]);
        lemma_rank_successor(b, a, i, n);
        assert(after.last() == 0 && before.last() + 1 == n);
        let r = rank(before.drop_last(), n);
        assert((r + 1) * n + 0 == r * n + (n - 1) + 1) by (nonlinear_arith);
    }
}

proof fn lemma_rank_full(digits: Seq<usize>, n: nat)
    requires
        n > 0,
        forall|j: int| 0 <= j < digits.len() ==> digits[j] + 1 == n,
    ensures
        rank(digits, n) + 1 == space_size(n, digits.len()),
    decreases digits.len(),
{
    if digits.len() > 0 {
        let front = digits.drop_last();
        lemma_rank_full(front, n);
        let r = rank(front, n);
        assert(r * n + (n - 1) + 1 == n * (r + 1)) by (nonlinear_arith);
    }
}

proof fn lemma_rank_zero(digits: Seq<usize>, n: nat)
    requires
        forall|j: int| 0 <= j < digits.len() ==> digits[j] == 0,
    ensures
        rank(digits, n) == 0,
    decreases digits.len(),
{
    if digits.len() > 0 {
        lemma_rank_zero(digits.drop_last(), n);
        assert(0 * n + 0 == 0) by (nonlinear_arith);
    }
}

proof fn lemma_shorter_next(n: nat, lo: nat, len: nat)
    requires
        lo <= len,
    ensures
        shorter(n, lo, len + 1) == shorter(n, lo, len) + space_size(n, len),
        span_size(n, lo, len) == shorter(n, lo, len) + space_size(n, len),
{
}

/// Moves a row of digits on to the next position, as an odometer does;
/// `false`, and the row untouched, when it stands at the last position.
fn advance(digits: &mut Vec<usize>, n: usize) -> (more: bool)
    requires
        n >= 1,
        digits_valid(old(digits)@, n as nat),
    ensures
        final(digits)@.len() == old(digits)@.len(),
        digits_valid(final(digits)@, n as nat),
        more ==> rank(final(digits)@, n as nat) == rank(old(digits)@, n as nat) + 1,
        !more ==> final(digits)@ == old(digits)@ && rank(old(digits)@, n as nat) + 1 == space_size(
            n as nat,
            old(digits)@.len(),
        ),
{
    let len: usize = digits.len();
    let mut i: usize = len;
    while i > 0 && digits[i - 1] + 1 == n
        invariant
            i <= len,
            len == digits@.len(),
            digits@ == old(digits)@,
            digits_valid(digits@, n as nat),
            forall|j: int| i <= j < len ==> digits@[j] + 1 == n,
        decreases i,
    {
        i -= 1;
    }
    if i == 0 {
        proof {
            lemma_rank_full(digits@, n as nat);
        }
        return false;
    }
    let at: usize = i - 1;
    let bumped: usize = digits[at] + 1;
    digits.set(at, bumped);
    let mut j: usize = i;
    while j < len
        invariant
            at + 1 == i,
            i <= j <= len,
            len == digits@.len(),
            len == old(digits)@.len(),
            bumped < n,
            forall|k: int| 0 <= k < at ==> digits@[k] == old(digits)@[k],
            digits@[at as int] == old(digits)@[at as int] + 1,
            digits@[at as int] == bumped,
            forall|k: int| i <= k < j ==> digits@[k] == 0,
            forall|k: int| j <= k < len ==> digits@[k] == old(digits)@[k],
        decreases len - j,
    {
        digits.set(j, 0);
        j += 1;
    }
    proof {
        lemma_rank_successor(old(digits)@, digits@, at as int, n as nat);
    }
    true
}

/// A row of `len` digits, all zero: the first position of its length.
fn zeros(len: usize) -> (row: Vec<usize>)
    ensures
        row@.len() == len,
        forall|j: int| 0 <= j < len ==> row@[j] == 0,
{
    let mut row: Vec<usize> = Vec::new();
    let mut i: usize = 0;
    while i < len
        invariant
            i <= len,
            row@.len() == i,
            forall|j: int| 0 <= j < i ==> row@[j] == 0,
        decreases len - i,
    {
        row.push(0);
        i += 1;
    }
    row
}

/// The row that follows `digits` among the rows of its length; `None` when
/// `digits` is the last of them.
fn successor(digits: &Vec<usize>, n: usize) -> (next: Option<Vec<usize>>)
    requires
        n >= 1,
        digits_valid(digits@, n as nat),
    ensures
        match next {
            Some(row) => {
                &&& row@.len() == digits@.len()
                &&& digits_valid(row@, n as nat)
                &&& rank(row@, n as nat) == rank(digits@, n as nat) + 1
            },
            None => rank(digits@, n as nat) + 1 == space_size(n as nat, digits@.len()),
        },
{
    let mut row: Vec<usize> = Vec::new();
    let mut i: usize = 0;
    while i < digits.len()
        invariant
            i <= digits@.len(),
            row@ == digits@.subrange(0, i as int),
        decreases digits@.len() - i,
    {
        row.push(digits[i]);
        proof {
            assert(digits@.subrange(0, i + 1) =~= digits@.subrange(0, i as int).push(
                digits@[i as int],
            ));
        }
        i += 1;
    }
    proof {
        assert(digits@.subrange(0, i as int) =~= digits@);
    }
    if advance(&mut row, n) {
        Some(row)
    } else {
        None
    }
}

/// Appends one symbol to a string, by `String::push` of std: the string
/// afterwards is the string before with `c` at its end.
#[verifier::external_body]
fn push_symbol(text: &mut String, c: char)
    ensures
        final(text)@ == old(text)@.push(c),
{
    text.push(c);
}

/// The generator of the candidates over one alphabet with a length in one
/// range.
pub struct Generator {
    alphabet: Alphabet,
    shortest: usize,
    longest: usize,
    digits: Vec<usize>,
    phase: GeneratorPhase,
}

impl View for Generator {
    type V = GeneratorModel;

    closed spec fn view(&self) -> GeneratorModel {
        let n = self.alphabet@.len();
        let at = shorter(n, self.shortest as nat, self.digits@.len()) + rank(self.digits@, n);
        GeneratorModel {
            alphabet: self.alphabet@,
            shortest: self.shortest as nat,
            longest: self.longest as nat,
            handed: match self.phase {
                GeneratorPhase::Offering => at,
                GeneratorPhase::Done(GeneratorEnd::QueueClosed) => at,
                _ => at + 1,
            },
            phase: self.phase,
        }
    }
}

impl Generator {
    /// The invariant of the type: the digits spell a word of the range, and
    /// a generator that ended on exhaustion stands at the last word.
    #[verifier::type_invariant]
    closed spec fn wf(&self) -> bool {
        let n = self.alphabet@.len();
        &&& self.alphabet.wf()
        &&& digits_valid(self.digits@, n)
        &&& self.shortest <= self.digits@.len() <= self.longest
        &&& self.phase == GeneratorPhase::Done(GeneratorEnd::Exhausted) ==> shorter(
            n,
            self.shortest as nat,
            self.digits@.len(),
        ) + rank(self.digits@, n) + 1 == span_size(n, self.shortest as nat, self.longest as nat)
    }

    /// The model of a generator within its invariant is well formed.
    proof fn lemma_model_wf(self)
        requires
            self.wf(),
        ensures
            self@.wf(),
    {
        lemma_rank_bound(self.digits@, self.alphabet@.len());
        lemma_span_word_of_length(
            self.alphabet@,
            self.shortest as nat,
            self.longest as nat,
            self.digits@.len(),
            rank(self.digits@, self.alphabet@.len()),
        );
    }

    /// A generator of the candidates with a length from `shortest` to
    /// `longest`, at the first of them and about to offer it. To search at
    /// one length only, give that length twice.
    pub fn new(alphabet: Alphabet, shortest: usize, longest: usize) -> (g: Generator)
        requires
            shortest <= longest,
        ensures
            g@ == GeneratorModel::start(alphabet@, shortest as nat, longest as nat),
            g@.wf(),
    {
        proof {
            use_type_invariant(&alphabet);
        }
        let digits = zeros(shortest);
        proof {
            lemma_rank_zero(digits@, alphabet@.len());
            lemma_span_size_positive(alphabet@.len(), shortest as nat, longest as nat);
        }
        Generator { alphabet, shortest, longest, digits, phase: GeneratorPhase::Offering }
    }

    /// What the generator is waiting for.
    pub fn phase(&self) -> (p: GeneratorPhase)
        ensures
            p == self@.phase,
    {
        self.phase
    }

    /// The request that is pending.
    pub fn request(&self) -> (action: GeneratorAction)
        ensures
            action == generator_request(self@.phase),
    {
        match self.phase {
            GeneratorPhase::Offering => GeneratorAction::Offer,
            GeneratorPhase::Reading => GeneratorAction::ReadStop,
            GeneratorPhase::Done(end) => GeneratorAction::Finish(end),
        }
    }

    /// The candidate on offer, while one is on offer.
    pub fn candidate(&self) -> (r: Option<String>)
        ensures
            r is Some <==> self@.phase == GeneratorPhase::Offering,
            r matches Some(word) ==> word@ == self@.current(),
    {
        proof {
            use_type_invariant(self);
        }
        match self.phase {
            GeneratorPhase::Offering => {},
            _ => {
                return None;
            },
        }
        let mut word = String::new();
        let mut i: usize = 0;
        while i < self.digits.len()
            invariant
                i <= self.digits@.len(),
                self.wf(),
                word@ == spell(self.alphabet@, self.digits@).subrange(0, i as int),
            decreases self.digits.len() - i,
        {
            let c = self.alphabet.symbol(self.digits[i]);
            push_symbol(&mut word, c);
            proof {
                let spelled = spell(self.alphabet@, self.digits@);
                assert(spelled.subrange(0, i + 1) =~= spelled.subrange(0, i as int).push(c));
            }
            i += 1;
        }
        proof {
            let spelled = spell(self.alphabet@, self.digits@);
            assert(spelled.subrange(0, i as int) =~= spelled);
            lemma_word_of_rank(self.alphabet@, self.digits@);
            lemma_rank_bound(self.digits@, self.alphabet@.len());
            lemma_span_word_of_length(
                self.alphabet@,
                self.shortest as nat,
                self.longest as nat,
                self.digits@.len(),
                rank(self.digits@, self.alphabet@.len()),
            );
        }
        Some(word)
    }

    /// Takes one event and answers with the next request. The generator and
    /// the request follow `generator_next` and `generator_request`.
    pub fn step(&mut self, event: GeneratorEvent) -> (action: GeneratorAction)
        ensures
            final(self)@ == generator_next(old(self)@, event),
            final(self)@.wf(),
            action == generator_request(final(self)@.phase),
    {
        proof {
            use_type_invariant(&*self);
            old(self).lemma_model_wf();
        }
        match (self.phase, event) {
            (GeneratorPhase::Offering, GeneratorEvent::HandedOver) => {
                self.phase = GeneratorPhase::Reading;
            },
            (GeneratorPhase::Offering, GeneratorEvent::Refused) => {
                self.phase = GeneratorPhase::Done(GeneratorEnd::QueueClosed);
            },
            (GeneratorPhase::Reading, GeneratorEvent::StopRead(stop)) => {
                if stop {
                    self.phase = GeneratorPhase::Done(GeneratorEnd::Stopped);
                } else {
                    let n: usize = self.alphabet.len();
                    proof {
                        lemma_shorter_next(
                            n as nat,
                            self.shortest as nat,
                            self.digits@.len(),
                        );
                    }
                    match successor(&self.digits, n) {
                        Some(row) => {
                            self.digits = row;
                            self.phase = GeneratorPhase::Offering;
                        },
                        None => {
                            if self.digits.len() < self.longest {
                                self.digits = zeros(self.digits.len() + 1);
                                proof {
                                    lemma_rank_zero(self.digits@, n as nat);
                                }
                                self.phase = GeneratorPhase::Offering;
                            } else {
                                self.phase = GeneratorPhase::Done(GeneratorEnd::Exhausted);
                            }
                        },
                    }
                    proof {
                        lemma_rank_bound(self.digits@, n as nat);
                        lemma_span_word_of_length(
                            self.alphabet@,
                            self.shortest as nat,
                            self.longest as nat,
                            self.digits@.len(),
                            rank(self.digits@, n as nat),
                        );
                    }
                }
            },
            _ => {},
        }
        proof {
            lemma_generator_next_wf(old(self)@, event);
        }
        self.request()
    }
}

} // verus!

//! The candidate space: every word over an alphabet whose length lies in a
//! given range, the shorter words first and the words of one length in the
//! order of the alphabet. The search for a key of one known length is the
//! range from that length to itself.

use vstd::arithmetic::div_mod::{
    lemma_fundamental_div_mod, lemma_fundamental_div_mod_converse, lemma_multiply_divide_lt,
};
use vstd::arithmetic::power::pow;
use vstd::prelude::*;

verus! {

/// How many words of length `len` exist over `n` symbols: `n` to the power `len`.
pub open spec fn space_size(n: nat, len: nat) -> nat
    decreases len,
{
    if len == 0 {
        1
    } else {
        n * space_size(n, (len - 1) as nat)
    }
}

/// The word at position `k` (counted from zero) among the words of length
/// `len`: the digits of `k` in base `alphabet.len()`, most significant first,
/// each digit standing for the symbol at that place of the alphabet.
pub open spec fn word_at(alphabet: Seq<char>, len: nat, k: nat) -> Seq<char>
    decreases len,
{
    if len == 0 || alphabet.len() == 0 {
        Seq::empty()
    } else {
        word_at(alphabet, (len - 1) as nat, k / alphabet.len()).push(
            alphabet[(k % alphabet.len()) as int],
        )
    }
}

/// How many words over `n` symbols have a length from `lo` to `hi`.
pub open spec fn span_size(n: nat, lo: nat, hi: nat) -> nat
    decreases hi,
{
    if hi < lo {
        0
    } else if hi == lo {
        space_size(n, lo)
    } else {
        span_size(n, lo, (hi - 1) as nat) + space_size(n, hi)
    }
}

/// How many words of the range that starts at length `lo` are shorter than
/// `len`.
pub open spec fn shorter(n: nat, lo: nat, len: nat) -> nat {
    if len <= lo {
        0
    } else {
        span_size(n, lo, (len - 1) as nat)
    }
}

/// The word at position `k` (counted from zero) among the words with a
/// length from `lo` to `hi`.
pub open spec fn span_word(alphabet: Seq<char>, lo: nat, hi: nat, k: nat) -> Seq<char>
    decreases hi,
{
    if hi <= lo {
        word_at(alphabet, lo, k)
    } else if k >= span_size(alphabet.len(), lo, (hi - 1) as nat) {
        word_at(alphabet, hi, (k - span_size(alphabet.len(), lo, (hi - 1) as nat)) as nat)
    } else {
        span_word(alphabet, lo, (hi - 1) as nat, k)
    }
}

/// The whole candidate space in generation order.
pub open spec fn candidates(alphabet: Seq<char>, lo: nat, hi: nat) -> Seq<Seq<char>> {
    Seq::new(span_size(alphabet.len(), lo, hi), |k: int| span_word(alphabet, lo, hi, k as nat))
}

/// Every symbol of `word` is a symbol of `alphabet`.
pub open spec fn over(alphabet: Seq<char>, word: Seq<char>) -> bool {
    forall|i: int| 0 <= i < word.len() ==> alphabet.contains(#[trigger] word[i])
}

/// `space_size` is the power function.
pub proof fn lemma_space_size_is_power(n: nat, len: nat)
    ensures
        space_size(n, len) == pow(n as int, len),
    decreases len,
{
    reveal(pow);
    if len > 0 {
        lemma_space_size_is_power(n, (len - 1) as nat);
    }
}

/// A space over at least one symbol is never empty.
pub proof fn lemma_space_size_positive(n: nat, len: nat)
    requires
        n > 0,
    ensures
        space_size(n, len) > 0,
    decreases len,
{
    if len > 0 {
        lemma_space_size_positive(n, (len - 1) as nat);
        assert(n * space_size(n, (len - 1) as nat) > 0) by (nonlinear_arith)
            requires
                n > 0,
                space_size(n, (len - 1) as nat) > 0,
        ;
    }
}

/// Every word of the space has the asked length and is spelled with symbols of
/// the alphabet.
pub proof fn lemma_word_shape(alphabet: Seq<char>, len: nat, k: nat)
    requires
        alphabet.len() > 0,
    ensures
        word_at(alphabet, len, k).len() == len,
        over(alphabet, word_at(alphabet, len, k)),
    decreases len,
{
    if len > 0 {
        let n = alphabet.len();
        let shorter = word_at(alphabet, (len - 1) as nat, k / n);
        lemma_word_shape(alphabet, (len - 1) as nat, k / n);
        let word = word_at(alphabet, len, k);
        assert(0 <= (k % n) < n) by (nonlinear_arith)
            requires
                n > 0,
        ;
        assert forall|i: int| 0 <= i < word.len() implies alphabet.contains(#[trigger] word[i]) by {
            if i < len - 1 {
                assert(word[i] == shorter[i]);
            } else {
                assert(word[i] == alphabet[(k % n) as int]);
            }
        }
    }
}

/// Two different positions of the space hold two different words, when no
/// symbol occurs twice in the alphabet.
pub proof fn lemma_words_differ(alphabet: Seq<char>, len: nat, j: nat, k: nat)
    requires
        alphabet.len() > 0,
        alphabet.no_duplicates(),
        j < space_size(alphabet.len(), len),
        k < space_size(alphabet.len(), len),
        word_at(alphabet, len, j) == word_at(alphabet, len, k),
    ensures
        j == k,
    decreases len,
{
    if len > 0 {
        let n = alphabet.len();
        let rest = space_size(n, (len - 1) as nat);
        let wj = word_at(alphabet, (len - 1) as nat, j / n);
        let wk = word_at(alphabet, (len - 1) as nat, k / n);
        let cj = alphabet[(j % n) as int];
        let ck = alphabet[(k % n) as int];
        assert(0 <= (j % n) < n && 0 <= (k % n) < n) by (nonlinear_arith)
            requires
                n > 0,
        ;
        assert(wj.push(cj) == wk.push(ck));
        lemma_word_shape(alphabet, (len - 1) as nat, j / n);
        lemma_word_shape(alphabet, (len - 1) as nat, k / n);
        assert(wj.push(cj)[len - 1] == cj);
        assert(wk.push(ck)[len - 1] == ck);
        assert(cj == ck);
        assert(j % n == k % n);
        assert(wj =~= wj.push(cj).drop_last());
        assert(wk =~= wk.push(ck).drop_last());
        lemma_multiply_divide_lt(j as int, n as int, rest as int);
        lemma_multiply_divide_lt(k as int, n as int, rest as int);
        lemma_words_differ(alphabet, (len - 1) as nat, j / n, k / n);
        lemma_fundamental_div_mod(j as int, n as int);
        lemma_fundamental_div_mod(k as int, n as int);
    }
}

/// Every word of the asked length over the alphabet stands at some position of
/// the space.
pub proof fn lemma_word_position(alphabet: Seq<char>, word: Seq<char>) -> (k: nat)
    requires
        alphabet.len() > 0,
        over(alphabet, word),
    ensures
        k < space_size(alphabet.len(), word.len()),
        word_at(alphabet, word.len(), k) == word,
    decreases word.len(),
{
    if word.len() == 0 {
        assert(word =~= Seq::empty());
        0
    } else {
        let n = alphabet.len();
        let len = word.len();
        let front = word.drop_last();
        assert forall|i: int| 0 <= i < front.len() implies alphabet.contains(#[trigger] front[i]) by {
            assert(front[i] == word[i]);
        }
        let q = lemma_word_position(alphabet, front);
        assert(alphabet.contains(word[len - 1]));
        let d = choose|d: int| 0 <= d < alphabet.len() && alphabet[d] == word[len - 1];
        let k = (q * n + d) as nat;
        lemma_fundamental_div_mod_converse(k as int, n as int, q as int, d);
        assert(word_at(alphabet, len, k) =~= word);
        assert(q * n + d < n * space_size(n, (len - 1) as nat)) by (nonlinear_arith)
            requires
                q < space_size(n, (len - 1) as nat),
                0 <= d < n,
        ;
        k
    }
}

/// The range grows with its longest length.
pub proof fn lemma_span_size_grows(n: nat, lo: nat, mid: nat, hi: nat)
    requires
        mid <= hi,
    ensures
        span_size(n, lo, mid) <= span_size(n, lo, hi),
    decreases hi,
{
    if mid < hi {
        lemma_span_size_grows(n, lo, mid, (hi - 1) as nat);
    }
}

/// A range over at least one symbol and at least one length is not empty.
pub proof fn lemma_span_size_positive(n: nat, lo: nat, hi: nat)
    requires
        n > 0,
        lo <= hi,
    ensures
        span_size(n, lo, hi) > 0,
{
    lemma_span_size_grows(n, lo, lo, hi);
    lemma_space_size_positive(n, lo);
}

/// The words of one length stand together in the range, after all shorter
/// ones and in their own order.
pub proof fn lemma_span_word_of_length(alphabet: Seq<char>, lo: nat, hi: nat, len: nat, r: nat)
    requires
        lo <= len <= hi,
        r < space_size(alphabet.len(), len),
    ensures
        shorter(alphabet.len(), lo, len) + r < span_size(alphabet.len(), lo, hi),
        span_word(alphabet, lo, hi, shorter(alphabet.len(), lo, len) + r) == word_at(
            alphabet,
            len,
            r,
        ),
    decreases hi,
{
    let n = alphabet.len();
    if len < hi {
        lemma_span_word_of_length(alphabet, lo, (hi - 1) as nat, len, r);
    }
}

/// Every word of the range has a length within the range and is spelled with
/// symbols of the alphabet.
pub proof fn lemma_span_word_shape(alphabet: Seq<char>, lo: nat, hi: nat, k: nat)
    requires
        alphabet.len() > 0,
        lo <= hi,
    ensures
        lo <= span_word(alphabet, lo, hi, k).len() <= hi,
        over(alphabet, span_word(alphabet, lo, hi, k)),
    decreases hi,
{
    let n = alphabet.len();
    if hi <= lo {
        lemma_word_shape(alphabet, lo, k);
    } else if k >= span_size(n, lo, (hi - 1) as nat) {
        lemma_word_shape(alphabet, hi, (k - span_size(n, lo, (hi - 1) as nat)) as nat);
    } else {
        lemma_span_word_shape(alphabet, lo, (hi - 1) as nat, k);
    }
}

/// Two different positions of the range hold two different words, when no
/// symbol occurs twice in the alphabet.
pub proof fn lemma_span_words_differ(alphabet: Seq<char>, lo: nat, hi: nat, j: nat, k: nat)
    requires
        alphabet.len() > 0,
        alphabet.no_duplicates(),
        lo <= hi,
        j < span_size(alphabet.len(), lo, hi),
        k < span_size(alphabet.len(), lo, hi),
        span_word(alphabet, lo, hi, j) == span_word(alphabet, lo, hi, k),
    ensures
        j == k,
    decreases hi,
{
    let n = alphabet.len();
    if hi <= lo {
        lemma_words_differ(alphabet, lo, j, k);
    } else {
        let below = span_size(n, lo, (hi - 1) as nat);
        if j >= below && k >= below {
            lemma_words_differ(alphabet, hi, (j - below) as nat, (k - below) as nat);
        } else if j < below && k < below {
            lemma_span_words_differ(alphabet, lo, (hi - 1) as nat, j, k);
        } else if j >= below {
            lemma_word_shape(alphabet, hi, (j - below) as nat);
            lemma_span_word_shape(alphabet, lo, (hi - 1) as nat, k);
        } else {
            lemma_word_shape(alphabet, hi, (k - below) as nat);
            lemma_span_word_shape(alphabet, lo, (hi - 1) as nat, j);
        }
    }
}

/// Every word over the alphabet with a length within the range stands at
/// some position of the range.
pub proof fn lemma_span_word_position(alphabet: Seq<char>, lo: nat, hi: nat, word: Seq<char>) -> (k:
    nat)
    requires
        alphabet.len() > 0,
        lo <= word.len() <= hi,
        over(alphabet, word),
    ensures
        k < span_size(alphabet.len(), lo, hi),
        span_word(alphabet, lo, hi, k) == word,
{
    let r = lemma_word_position(alphabet, word);
    lemma_span_word_of_length(alphabet, lo, hi, word.len(), r);
    shorter(alphabet.len(), lo, word.len()) + r
}

/// The candidate space holds each word over the alphabet with a length from
/// `lo` to `hi` exactly once: no word twice, none missing, and nothing else.
pub proof fn law_space_is_exact(alphabet: Seq<char>, lo: nat, hi: nat)
    requires
        alphabet.len() >= 1,
        alphabet.no_duplicates(),
        lo <= hi,
    ensures
        candidates(alphabet, lo, hi).no_duplicates(),
        forall|k: int|
            0 <= k < candidates(alphabet, lo, hi).len() ==> {
                &&& lo <= (#[trigger] candidates(alphabet, lo, hi)[k]).len() <= hi
                &&& over(alphabet, candidates(alphabet, lo, hi)[k])
            },
        forall|word: Seq<char>|
            lo <= word.len() <= hi && over(alphabet, word) ==> #[trigger] candidates(
                alphabet,
                lo,
                hi,
            ).contains(word),
{
    let space = candidates(alphabet, lo, hi);
    assert forall|i: int, j: int| 0 <= i < space.len() && 0 <= j < space.len() && i != j implies space[i]
        != space[j] by {
        if space[i] == space[j] {
            lemma_span_words_differ(alphabet, lo, hi, i as nat, j as nat);
        }
    }
    assert forall|k: int| 0 <= k < space.len() implies {
        &&& lo <= (#[trigger] space[k]).len() <= hi
        &&& over(alphabet, space[k])
    } by {
        lemma_span_word_shape(alphabet, lo, hi, k as nat);
    }
    assert forall|word: Seq<char>| lo <= word.len() <= hi && over(alphabet, word) implies space.contains(
        word,
    ) by {
        let k = lemma_span_word_position(alphabet, lo, hi, word);
        assert(space[k as int] == word);
    }
}

/// The space of the words of one length `len` holds exactly `|alphabet|` to
/// the power `len` words, each of length `len` over the alphabet, no word
/// twice, and no such word is missing from it.
pub proof fn law_space_of_one_length(alphabet: Seq<char>, len: nat)
    requires
        alphabet.len() >= 1,
        alphabet.no_duplicates(),
    ensures
        candidates(alphabet, len, len).len() == pow(alphabet.len() as int, len),
        candidates(alphabet, len, len).no_duplicates(),
        forall|k: int|
            0 <= k < candidates(alphabet, len, len).len() ==> {
                &&& (#[trigger] candidates(alphabet, len, len)[k]).len() == len
                &&& over(alphabet, candidates(alphabet, len, len)[k])
                &&& candidates(alphabet, len, len)[k] == word_at(alphabet, len, k as nat)
            },
        forall|word: Seq<char>|
            word.len() == len && over(alphabet, word) ==> #[trigger] candidates(
                alphabet,
                len,
                len,
            ).contains(word),
{
    lemma_space_size_is_power(alphabet.len(), len);
    law_space_is_exact(alphabet, len, len);
}

} // verus!

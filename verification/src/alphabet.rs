//! The alphabet: the symbols that candidates are spelled with, each once, in
//! the order in which the configuration names them.

use vstd::prelude::*;
use vstd::string::StrSliceExecFns;

verus! {

/// The symbols of `text`, each kept at its first occurrence.
pub open spec fn unique_in_order(text: Seq<char>) -> Seq<char>
    decreases text.len(),
{
    if text.len() == 0 {
        Seq::empty()
    } else {
        let front = unique_in_order(text.drop_last());
        if front.contains(text.last()) {
            front
        } else {
            front.push(text.last())
        }
    }
}

/// `unique_in_order` repeats no symbol, keeps every symbol of the text and
/// adds none.
pub proof fn lemma_unique_in_order(text: Seq<char>)
    ensures
        unique_in_order(text).no_duplicates(),
        forall|c: char| unique_in_order(text).contains(c) <==> text.contains(c),
        text.len() > 0 ==> unique_in_order(text).len() > 0,
        unique_in_order(text).len() <= text.len(),
    decreases text.len(),
{
    if text.len() > 0 {
        let front_text = text.drop_last();
        let front = unique_in_order(front_text);
        let last = text.last();
        let all = unique_in_order(text);
        lemma_unique_in_order(front_text);
        assert forall|c: char| all.contains(c) implies text.contains(c) by {
            let i = choose|i: int| 0 <= i < all.len() && all[i] == c;
            if i < front.len() {
                assert(front[i] == c);
                assert(front.contains(c));
                assert(front_text.contains(c));
                let j = choose|j: int| 0 <= j < front_text.len() && front_text[j] == c;
                assert(text[j] == c);
            } else {
                assert(text[text.len() - 1] == c);
            }
        }
        assert forall|c: char| text.contains(c) implies all.contains(c) by {
            let j = choose|j: int| 0 <= j < text.len() && text[j] == c;
            if j < text.len() - 1 {
                assert(front_text[j] == c);
                assert(front_text.contains(c));
                assert(front.contains(c));
                let i = choose|i: int| 0 <= i < front.len() && front[i] == c;
                assert(all[i] == c);
            } else if front.contains(c) {
            } else {
                assert(all[front.len() as int] == c);
            }
        }
        if front.contains(last) {
            assert(front.len() > 0);
        }
    }
}

/// An ordered set of at least one symbol. That it has a symbol and repeats
/// none is an invariant of the type.
pub struct Alphabet {
    symbols: Vec<char>,
}

impl View for Alphabet {
    type V = Seq<char>;

    closed spec fn view(&self) -> Seq<char> {
        self.symbols@
    }
}

/// `r` says whether `c` is among `symbols`.
fn holds(symbols: &Vec<char>, c: char) -> (r: bool)
    ensures
        r == symbols@.contains(c),
{
    let mut i: usize = 0;
    while i < symbols.len()
        invariant
            i <= symbols.len(),
            forall|j: int| 0 <= j < i ==> symbols@[j] != c,
        decreases symbols.len() - i,
    {
        if symbols[i] == c {
            return true;
        }
        i += 1;
    }
    false
}

impl Alphabet {
    /// Every alphabet has a symbol and repeats none.
    #[verifier::type_invariant]
    pub open spec fn wf(&self) -> bool {
        &&& self@.len() >= 1
        &&& self@.no_duplicates()
    }

    /// The alphabet of the symbols that occur in `text`, in the order of
    /// their first occurrence; `None` exactly when `text` is empty.
    pub fn new(text: &str) -> (r: Option<Alphabet>)
        ensures
            text@.len() == 0 <==> r is None,
            r matches Some(a) ==> a.wf() && a@ == unique_in_order(text@),
    {
        let n: usize = text.unicode_len();
        if n == 0 {
            return None;
        }
        let mut symbols: Vec<char> = Vec::new();
        let mut i: usize = 0;
        while i < n
            invariant
                n == text@.len(),
                i <= n,
                symbols@ == unique_in_order(text@.subrange(0, i as int)),
            decreases n - i,
        {
            let c = text.get_char(i);
            proof {
                assert(text@.subrange(0, i + 1).drop_last() =~= text@.subrange(0, i as int));
                assert(text@.subrange(0, i + 1).last() == c);
            }
            if !holds(&symbols, c) {
                symbols.push(c);
            }
            i += 1;
        }
        proof {
            assert(text@.subrange(0, n as int) =~= text@);
            lemma_unique_in_order(text@);
        }
        Some(Alphabet { symbols })
    }

    /// The number of symbols.
    pub fn len(&self) -> (n: usize)
        ensures
            n == self@.len(),
            n >= 1,
    {
        proof {
            use_type_invariant(self);
        }
        self.symbols.len()
    }

    /// The symbol at place `i`.
    pub fn symbol(&self, i: usize) -> (c: char)
        requires
            i < self@.len(),
        ensures
            c == self@[i as int],
    {
        self.symbols[i]
    }
}

} // verus!

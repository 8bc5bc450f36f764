use keysearch::alphabet::Alphabet;
use keysearch::generator::{
    Generator, GeneratorAction, GeneratorEnd, GeneratorEvent, GeneratorPhase,
};

fn words_of(text: &str, len: usize) -> Vec<String> {
    words_between(text, len, len)
}

fn words_between(text: &str, shortest: usize, longest: usize) -> Vec<String> {
    let alphabet = Alphabet::new(text).unwrap();
    let mut generator = Generator::new(alphabet, shortest, longest);
    let mut words: Vec<String> = Vec::new();
    loop {
        match generator.request() {
            GeneratorAction::Offer => {
                words.push(generator.candidate().unwrap());
                generator.step(GeneratorEvent::HandedOver);
            }
            GeneratorAction::ReadStop => {
                generator.step(GeneratorEvent::StopRead(false));
            }
            GeneratorAction::Finish(end) => {
                assert_eq!(end, GeneratorEnd::Exhausted);
                break;
            }
        }
    }
    words
}

fn symbols_of(text: &str) -> Vec<char> {
    let alphabet = Alphabet::new(text).unwrap();
    let mut symbols: Vec<char> = Vec::new();
    let mut i: usize = 0;
    while i < alphabet.len() {
        symbols.push(alphabet.symbol(i));
        i += 1;
    }
    symbols
}

#[test]
fn two_symbols_length_two_in_order() {
    assert_eq!(words_of("01", 2), vec!["00", "01", "10", "11"]);
}

#[test]
fn three_symbols_length_two_in_order() {
    assert_eq!(
        words_of("abc", 2),
        vec!["aa", "ab", "ac", "ba", "bb", "bc", "ca", "cb", "cc"]
    );
}

#[test]
fn length_one_gives_the_alphabet() {
    assert_eq!(words_of("xyz", 1), vec!["x", "y", "z"]);
}

#[test]
fn space_has_size_of_alphabet_to_the_length() {
    assert_eq!(words_of("abc", 3).len(), 27);
    assert_eq!(words_of("ab", 5).len(), 32);
    assert_eq!(words_of("abcdefghijklmnopqrstuvwxyz0123456789", 2).len(), 1296);
}

#[test]
fn every_word_has_the_length_and_none_comes_twice() {
    let words = words_of("abcd", 3);
    assert_eq!(words.len(), 64);
    for word in &words {
        assert_eq!(word.chars().count(), 3);
        assert!(word.chars().all(|c| "abcd".contains(c)));
    }
    let mut sorted = words.clone();
    sorted.sort();
    sorted.dedup();
    assert_eq!(sorted.len(), 64);
}

#[test]
fn no_word_of_the_space_is_missing() {
    let words = words_of("xy", 3);
    for a in "xy".chars() {
        for b in "xy".chars() {
            for c in "xy".chars() {
                let word: String = [a, b, c].iter().collect();
                assert!(words.contains(&word));
            }
        }
    }
}

#[test]
fn alphabet_of_one_symbol_has_one_word() {
    assert_eq!(words_of("a", 4), vec!["aaaa"]);
    assert_eq!(words_of("zzz", 2), vec!["zz"]);
}

#[test]
fn length_zero_has_the_empty_word_only() {
    assert_eq!(words_of("ab", 0), vec![""]);
}

#[test]
fn symbols_outside_ascii_count_as_one_each() {
    assert_eq!(words_of("aé", 2), vec!["aa", "aé", "éa", "éé"]);
}

#[test]
fn alphabet_keeps_first_occurrences_in_order() {
    assert_eq!(symbols_of("abca"), vec!['a', 'b', 'c']);
    assert_eq!(symbols_of("banana"), vec!['b', 'a', 'n']);
    assert_eq!(symbols_of("aab"), vec!['a', 'b']);
    assert_eq!(symbols_of("q"), vec!['q']);
}

#[test]
fn empty_text_is_no_alphabet() {
    assert!(Alphabet::new("").is_none());
    assert!(Alphabet::new("a").is_some());
}

#[test]
fn repeated_symbols_do_not_repeat_words() {
    assert_eq!(words_of("abab", 2), vec!["aa", "ab", "ba", "bb"]);
}

#[test]
fn agrees_with_allwords_on_its_alphabets() {
    let cases: Vec<(&str, usize)> = vec![("ab", 1), ("ab", 3), ("abc", 2), ("01x9", 3), ("hello", 2)];
    for (text, len) in cases {
        let theirs = allwords::Alphabet::from_chars_in_str(text).unwrap();
        let expected: Vec<String> = theirs.all_words_with_len(len, Some(len)).collect();
        assert_eq!(words_of(text, len), expected);
    }
}

#[test]
fn range_of_lengths_goes_from_short_to_long() {
    assert_eq!(words_between("ab", 1, 2), vec!["a", "b", "aa", "ab", "ba", "bb"]);
    assert_eq!(words_between("01", 2, 3).len(), 4 + 8);
    assert_eq!(words_between("abc", 1, 3).len(), 3 + 9 + 27);
    assert_eq!(words_between("ab", 0, 1), vec!["", "a", "b"]);
    assert_eq!(words_between("x", 1, 3), vec!["x", "xx", "xxx"]);
}

#[test]
fn range_of_lengths_agrees_with_allwords() {
    let cases: Vec<(&str, usize, usize)> = vec![("ab", 1, 3), ("abc", 2, 3), ("01", 1, 4)];
    for (text, shortest, longest) in cases {
        let theirs = allwords::Alphabet::from_chars_in_str(text).unwrap();
        let expected: Vec<String> = theirs.all_words_with_len(shortest, Some(longest)).collect();
        assert_eq!(words_between(text, shortest, longest), expected);
    }
}

#[test]
fn range_of_lengths_repeats_no_word() {
    let words = words_between("abc", 1, 3);
    let mut sorted = words.clone();
    sorted.sort();
    sorted.dedup();
    assert_eq!(sorted.len(), words.len());
    assert!(words.iter().all(|word| 1 <= word.len() && word.len() <= 3));
}

#[test]
fn generator_moves_on_to_the_next_length() {
    let mut generator = Generator::new(Alphabet::new("ab").unwrap(), 1, 2);
    generator.step(GeneratorEvent::HandedOver);
    generator.step(GeneratorEvent::StopRead(false));
    assert_eq!(generator.candidate(), Some(String::from("b")));
    generator.step(GeneratorEvent::HandedOver);
    assert_eq!(generator.step(GeneratorEvent::StopRead(false)), GeneratorAction::Offer);
    assert_eq!(generator.candidate(), Some(String::from("aa")));
}

#[test]
fn generator_starts_by_offering_the_first_word() {
    let generator = Generator::new(Alphabet::new("ab").unwrap(), 2, 2);
    assert_eq!(generator.phase(), GeneratorPhase::Offering);
    assert_eq!(generator.request(), GeneratorAction::Offer);
    assert_eq!(generator.candidate(), Some(String::from("aa")));
}

#[test]
fn generator_reads_the_signal_after_each_handoff() {
    let mut generator = Generator::new(Alphabet::new("ab").unwrap(), 2, 2);
    assert_eq!(generator.step(GeneratorEvent::HandedOver), GeneratorAction::ReadStop);
    assert_eq!(generator.phase(), GeneratorPhase::Reading);
    assert_eq!(generator.candidate(), None);
    assert_eq!(generator.step(GeneratorEvent::StopRead(false)), GeneratorAction::Offer);
    assert_eq!(generator.candidate(), Some(String::from("ab")));
}

#[test]
fn generator_stops_once_it_reads_the_signal_set() {
    let mut generator = Generator::new(Alphabet::new("ab").unwrap(), 2, 2);
    generator.step(GeneratorEvent::HandedOver);
    assert_eq!(
        generator.step(GeneratorEvent::StopRead(true)),
        GeneratorAction::Finish(GeneratorEnd::Stopped)
    );
    assert_eq!(generator.candidate(), None);
    assert_eq!(
        generator.step(GeneratorEvent::HandedOver),
        GeneratorAction::Finish(GeneratorEnd::Stopped)
    );
    assert_eq!(
        generator.step(GeneratorEvent::StopRead(false)),
        GeneratorAction::Finish(GeneratorEnd::Stopped)
    );
    assert_eq!(generator.candidate(), None);
    assert_eq!(generator.phase(), GeneratorPhase::Done(GeneratorEnd::Stopped));
}

#[test]
fn generator_stops_when_the_queue_refuses() {
    let mut generator = Generator::new(Alphabet::new("ab").unwrap(), 2, 2);
    generator.step(GeneratorEvent::HandedOver);
    generator.step(GeneratorEvent::StopRead(false));
    assert_eq!(
        generator.step(GeneratorEvent::Refused),
        GeneratorAction::Finish(GeneratorEnd::QueueClosed)
    );
    assert_eq!(generator.candidate(), None);
    assert_eq!(
        generator.step(GeneratorEvent::StopRead(false)),
        GeneratorAction::Finish(GeneratorEnd::QueueClosed)
    );
}

#[test]
fn generator_ends_on_exhaustion_after_the_last_word() {
    let mut generator = Generator::new(Alphabet::new("ab").unwrap(), 1, 1);
    assert_eq!(generator.candidate(), Some(String::from("a")));
    generator.step(GeneratorEvent::HandedOver);
    generator.step(GeneratorEvent::StopRead(false));
    assert_eq!(generator.candidate(), Some(String::from("b")));
    generator.step(GeneratorEvent::HandedOver);
    assert_eq!(
        generator.step(GeneratorEvent::StopRead(false)),
        GeneratorAction::Finish(GeneratorEnd::Exhausted)
    );
    assert_eq!(generator.request(), GeneratorAction::Finish(GeneratorEnd::Exhausted));
}

#[test]
fn generator_repeats_its_request_on_an_event_it_did_not_ask_for() {
    let mut generator = Generator::new(Alphabet::new("ab").unwrap(), 2, 2);
    assert_eq!(generator.step(GeneratorEvent::StopRead(true)), GeneratorAction::Offer);
    assert_eq!(generator.step(GeneratorEvent::StopRead(false)), GeneratorAction::Offer);
    assert_eq!(generator.candidate(), Some(String::from("aa")));
    generator.step(GeneratorEvent::HandedOver);
    assert_eq!(generator.step(GeneratorEvent::HandedOver), GeneratorAction::ReadStop);
    assert_eq!(generator.step(GeneratorEvent::Refused), GeneratorAction::ReadStop);
    assert_eq!(generator.step(GeneratorEvent::StopRead(false)), GeneratorAction::Offer);
    assert_eq!(generator.candidate(), Some(String::from("ab")));
}

#[test]
fn odometer_carries_over_several_places() {
    let words = words_of("ab", 3);
    assert_eq!(words[3], "abb");
    assert_eq!(words[4], "baa");
    assert_eq!(words[7], "bbb");
}

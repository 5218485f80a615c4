use wosh::record::Record;
use wosh::report::{foreign_letters, found_words};
use wosh::text::WILDCARD;

fn board(letters: &str, words: &[&str]) -> Record {
    Record {
        wordlen: letters.len() as u32,
        longest: letters.to_string(),
        letters: letters.to_string(),
        spaces: letters.len() as u32,
        words: words.iter().map(|word| word.to_string()).collect(),
    }
}

#[test]
fn wildcard_letter_is_reported_as_consumed() {
    let result = wosh::report::derive("cat.", WILDCARD, &board("cats", &["cats"]));
    assert_eq!(result.consumed_wildcards, vec!['s']);
    assert_eq!(result.unused_available, Vec::<char>::new());
    assert_eq!(result.record.letters, "cats");
}

#[test]
fn unused_letters_are_reported() {
    let result = wosh::report::derive("xcatz", WILDCARD, &board("act", &["act"]));
    assert_eq!(result.consumed_wildcards, Vec::<char>::new());
    assert_eq!(result.unused_available, vec!['x', 'z']);
}

#[test]
fn derived_letters_come_once_each_in_order() {
    let result = wosh::report::derive("qaq..a", WILDCARD, &board("sassy", &["sassy"]));
    assert_eq!(result.consumed_wildcards, vec!['s', 'y']);
    assert_eq!(result.unused_available, vec!['q']);
}

#[test]
fn marker_is_never_derived() {
    let result = wosh::report::derive("a.", WILDCARD, &board("b.", &["b"]));
    assert_eq!(result.consumed_wildcards, vec!['b']);
    assert_eq!(result.unused_available, vec!['a']);
    let other = wosh::report::derive("a", WILDCARD, &board("b.", &["b"]));
    assert_eq!(other.consumed_wildcards, vec!['b']);
}

#[test]
fn derived_letters_are_read_as_written() {
    let result = wosh::report::derive("Cat", WILDCARD, &board("cat", &["cat"]));
    assert_eq!(result.consumed_wildcards, vec!['c']);
    assert_eq!(result.unused_available, vec!['C']);
}

#[test]
fn derived_sets_are_disjoint() {
    let available = "abcde..";
    let letters = "cdefgg";
    let result = wosh::report::derive(available, WILDCARD, &board(letters, &[letters]));
    assert_eq!(result.consumed_wildcards, vec!['f', 'g']);
    assert_eq!(result.unused_available, vec!['a', 'b']);
    for c in result.consumed_wildcards.iter() {
        assert!(!result.unused_available.contains(c));
        assert!(!(available.contains(*c) && letters.contains(*c)));
    }
    for c in result.unused_available.iter() {
        assert!(!(available.contains(*c) && letters.contains(*c)));
    }
}

#[test]
fn derive_copies_the_record() {
    let record = board("cats", &["one two", "cat c?ts"]);
    let result = wosh::report::derive("cat.", WILDCARD, &record);
    assert_eq!(result.record.wordlen, record.wordlen);
    assert_eq!(result.record.longest, record.longest);
    assert_eq!(result.record.spaces, record.spaces);
    assert_eq!(result.record.words, record.words);
}

#[test]
fn foreign_letters_skip_marker_and_known() {
    assert_eq!(foreign_letters(&vec!['a', '?', 'b', 'a', 'c'], &vec!['b'], '?'), vec!['a', 'c']);
    assert_eq!(foreign_letters(&vec![], &vec!['b'], '?'), Vec::<char>::new());
}

#[test]
fn found_words_are_split_on_whitespace() {
    let record = board("cats", &["cat  c?ts\tsat "]);
    assert_eq!(found_words(&record), vec!["cat", "c?ts", "sat"]);
}

#[test]
fn found_words_come_from_the_last_entry() {
    let record = board("cats", &["one two", "cat c?ts"]);
    assert_eq!(found_words(&record), vec!["cat", "c?ts"]);
}

#[test]
fn found_words_of_a_board_without_entries() {
    assert!(found_words(&board("cats", &[])).is_empty());
    assert!(found_words(&board("cats", &["  "])).is_empty());
}

#[test]
fn copy_of_a_record_holds_the_same_values() {
    let record = board("cats", &["one two", "cat c?ts"]);
    let copy = record.clone();
    assert_eq!(copy.wordlen, 4);
    assert_eq!(copy.longest, "cats");
    assert_eq!(copy.letters, "cats");
    assert_eq!(copy.spaces, 4);
    assert_eq!(copy.words, vec!["one two".to_string(), "cat c?ts".to_string()]);
    assert_eq!(wosh::record::copy_strings(&record.words), record.words);
    assert!(wosh::record::copy_strings(&Vec::new()).is_empty());
}

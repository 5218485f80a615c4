use wosh::suggest::{annotate, any_unresolved, suggest_unknown, TokenNote};

fn words(list: &[&str]) -> Vec<String> {
    list.iter().map(|word| word.to_string()).collect()
}

#[test]
fn suggestions_are_covered_candidates_of_the_same_length() {
    let candidates = words(&["bat", "cat", "cot"]);
    let found = suggest_unknown("c?t", "cat".to_string(), &candidates);
    assert_eq!(found, words(&["cat"]));
}

#[test]
fn suggestions_keep_candidate_order() {
    let candidates = words(&["tac", "at", "act", "cat", "tact", "cat"]);
    let found = suggest_unknown("???", "tca".to_string(), &candidates);
    assert_eq!(found, words(&["tac", "act", "cat", "cat"]));
}

#[test]
fn suggestions_need_each_letter_as_often_as_the_word_has_it() {
    let candidates = words(&["tat", "att", "tot"]);
    assert_eq!(suggest_unknown("t?t", "cat".to_string(), &candidates), Vec::<String>::new());
    assert_eq!(suggest_unknown("t?t", "tact".to_string(), &candidates), words(&["tat", "att"]));
}

#[test]
fn suggestions_ignore_case() {
    let candidates = words(&["CAT", "Act"]);
    assert_eq!(suggest_unknown("c?t", "TAC".to_string(), &candidates), words(&["CAT", "Act"]));
}

#[test]
fn suggestions_take_no_wildcard() {
    let candidates = words(&["cat"]);
    assert_eq!(suggest_unknown("c?t", "ca.".to_string(), &candidates), Vec::<String>::new());
}

#[test]
fn suggestions_compare_length_in_characters() {
    let candidates = words(&["né", "nee", "ne"]);
    assert_eq!(suggest_unknown("n?", "néee".to_string(), &candidates), words(&["né", "ne"]));
    assert_eq!(suggest_unknown("n??", "néee".to_string(), &candidates), words(&["nee"]));
    assert_eq!(suggest_unknown("é?", "néee".to_string(), &candidates), words(&["né", "ne"]));
    assert_eq!(suggest_unknown("é", "néee".to_string(), &candidates), Vec::<String>::new());
}

#[test]
fn shorter_word_of_as_many_bytes_is_no_suggestion() {
    let candidates = words(&["éa"]);
    assert_eq!(suggest_unknown("c?t", "éa".to_string(), &candidates), Vec::<String>::new());
    assert_eq!(suggest_unknown("c?", "éa".to_string(), &candidates), words(&["éa"]));
}

#[test]
fn tokens_of_the_same_length_get_the_same_suggestions() {
    let candidates = words(&["ab", "ba", "abc"]);
    let first = suggest_unknown("a?", "ab".to_string(), &candidates);
    let second = suggest_unknown("é?", "ab".to_string(), &candidates);
    let third = suggest_unknown("?b", "ab".to_string(), &candidates);
    assert_eq!(first, words(&["ab", "ba"]));
    assert_eq!(second, first);
    assert_eq!(third, first);
}

#[test]
fn no_candidate_gives_no_suggestion() {
    assert!(suggest_unknown("c?t", "cat".to_string(), &Vec::new()).is_empty());
    assert!(suggest_unknown("c?t", "".to_string(), &words(&["cat"])).is_empty());
}

fn is_known(note: &TokenNote) -> bool {
    matches!(note, TokenNote::Known)
}

fn suggested(note: &TokenNote) -> Vec<String> {
    match note {
        TokenNote::Suggested(found) => found.clone(),
        other => panic!("no suggestions: {:?}", other),
    }
}

fn same_as(note: &TokenNote) -> usize {
    match note {
        TokenNote::SameAs(first) => *first,
        other => panic!("no reference: {:?}", other),
    }
}

#[test]
fn annotate_suggests_once_for_each_length() {
    let tokens = words(&["cat", "c?t", "?at", "a?", "tac", "?t"]);
    let candidates = words(&["cat", "act", "at", "to"]);
    let notes = annotate(&tokens, "cat", &candidates);
    assert_eq!(notes.len(), 6);
    assert!(is_known(&notes[0]));
    assert_eq!(suggested(&notes[1]), words(&["cat", "act"]));
    assert_eq!(same_as(&notes[2]), 1);
    assert_eq!(suggested(&notes[3]), words(&["at"]));
    assert!(is_known(&notes[4]));
    assert_eq!(same_as(&notes[5]), 3);
}

#[test]
fn annotate_ignores_known_words_of_the_same_length() {
    let tokens = words(&["cat", "c?t"]);
    let notes = annotate(&tokens, "cat", &words(&["cat"]));
    assert!(is_known(&notes[0]));
    assert_eq!(suggested(&notes[1]), words(&["cat"]));
}

#[test]
fn annotate_starts_afresh_on_every_call() {
    let candidates = words(&["cat", "dog"]);
    let first = annotate(&words(&["c?t"]), "cat", &candidates);
    let second = annotate(&words(&["d?g"]), "dog", &candidates);
    assert_eq!(suggested(&first[0]), words(&["cat"]));
    assert_eq!(suggested(&second[0]), words(&["dog"]));
}

#[test]
fn annotate_without_tokens() {
    assert!(annotate(&Vec::new(), "cat", &words(&["cat"])).is_empty());
}

#[test]
fn annotate_may_find_nothing() {
    let notes = annotate(&words(&["z?z"]), "dog", &words(&["cat"]));
    assert_eq!(suggested(&notes[0]), Vec::<String>::new());
}

#[test]
fn unresolved_words_are_noticed() {
    assert!(any_unresolved(&words(&["cat", "c?t"])));
    assert!(any_unresolved(&words(&["?"])));
    assert!(!any_unresolved(&words(&["cat", "act"])));
    assert!(!any_unresolved(&Vec::new()));
}

#[test]
fn every_suggestion_is_a_covered_candidate_of_the_right_length() {
    let candidates = words(&["cat", "coat", "act", "tact", "at", "taco", "cot", "tac"]);
    let letters = "tacoc";
    let found = suggest_unknown("?a?", letters.to_string(), &candidates);
    assert_eq!(found, words(&["cat", "act", "cot", "tac"]));
    for word in found.iter() {
        assert!(candidates.contains(word));
        assert_eq!(word.len(), 3);
        let mut pool: Vec<char> = letters.chars().collect();
        for c in word.chars() {
            let at = pool.iter().position(|p| *p == c);
            assert!(at.is_some());
            pool.remove(at.unwrap());
        }
    }
}

#[test]
fn annotate_goes_by_length_in_characters() {
    let tokens = words(&["é?", "a?", "?éé"]);
    let candidates = words(&["ab", "éa", "aéé"]);
    let notes = annotate(&tokens, "aébé", &candidates);
    assert_eq!(suggested(&notes[0]), words(&["ab", "éa"]));
    assert_eq!(same_as(&notes[1]), 0);
    assert_eq!(suggested(&notes[2]), words(&["aéé"]));
}

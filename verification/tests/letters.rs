use wosh::letters::LetterMultiset;
use wosh::text::{chars_of, fold, fold_char, has_char, normalize, split_markers, WILDCARD};

#[test]
fn chars_come_in_order() {
    assert_eq!(chars_of("c?t"), vec!['c', '?', 't']);
    assert_eq!(chars_of(""), Vec::<char>::new());
}

#[test]
fn folding_lowers_every_letter() {
    assert_eq!(normalize("CaT."), vec!['c', 'a', 't', '.']);
    assert_eq!(fold(&vec!['Q', 'q', 'É']), vec!['q', 'q', 'é']);
}

#[test]
fn a_character_folds_to_the_first_of_its_mapping() {
    assert_eq!(fold_char('A'), 'a');
    assert_eq!(fold_char('a'), 'a');
    assert_eq!(fold_char('.'), '.');
    assert_eq!(fold_char('İ'), 'i');
}

#[test]
fn has_char_finds_only_what_is_there() {
    let letters = vec!['a', 'b'];
    assert!(has_char(&letters, 'b'));
    assert!(!has_char(&letters, 'c'));
    assert!(!has_char(&Vec::new(), 'a'));
}

#[test]
fn markers_are_split_from_letters() {
    let (kept, markers) = split_markers(&vec!['c', '.', 'a', '.', 't'], WILDCARD);
    assert_eq!(kept, vec!['c', 'a', 't']);
    assert_eq!(markers, 2);
}

#[test]
fn bag_counts_letters_and_wildcards() {
    let bag = LetterMultiset::new("Tact..", WILDCARD);
    assert_eq!(bag.count('t'), 2);
    assert_eq!(bag.count('c'), 1);
    assert_eq!(bag.count('a'), 1);
    assert_eq!(bag.count('T'), 0);
    assert_eq!(bag.count('.'), 0);
    assert_eq!(bag.wildcard_budget(), 2);
}

#[test]
fn bag_with_another_marker() {
    let bag = LetterMultiset::new("a*b.", '*');
    assert_eq!(bag.wildcard_budget(), 1);
    assert_eq!(bag.count('.'), 1);
    assert_eq!(bag.count('*'), 0);
}

#[test]
fn bag_from_letters_takes_them_as_they_are() {
    let bag = LetterMultiset::from_letters(&vec!['A', 'a', 'a'], 3);
    assert_eq!(bag.count('A'), 1);
    assert_eq!(bag.count('a'), 2);
    assert_eq!(bag.wildcard_budget(), 3);
}

#[test]
fn covers_without_wildcards_is_inclusion() {
    let bag = LetterMultiset::from_letters(&vec!['c', 'a', 't', 't'], 0);
    assert!(bag.covers(&vec!['t', 'a', 't']));
    assert!(bag.covers(&vec![]));
    assert!(!bag.covers(&vec!['c', 'c']));
    assert!(!bag.covers(&vec!['c', 'a', 't', 's']));
}

#[test]
fn covers_spends_wildcards_on_missing_letters() {
    let bag = LetterMultiset::from_letters(&vec!['c', 'a', 't'], 1);
    assert!(bag.covers(&vec!['c', 'a', 't', 's']));
    assert!(bag.covers(&vec!['s', 'c', 'a', 't']));
    assert!(!bag.covers(&vec!['c', 'a', 't', 's', 's']));
    assert!(bag.covers(&vec!['c', 'c']));
}

#[test]
fn covers_leaves_the_bag_unchanged() {
    let bag = LetterMultiset::from_letters(&vec!['a'], 1);
    assert!(bag.covers(&vec!['a', 'b']));
    assert!(bag.covers(&vec!['a', 'b']));
    assert_eq!(bag.count('a'), 1);
    assert_eq!(bag.wildcard_budget(), 1);
}

#[test]
fn more_wildcards_never_lose_a_word() {
    let letters = vec!['c', 'a', 't'];
    let word = vec!['c', 'o', 'a', 't', 's'];
    let mut reached = false;
    for budget in 0..5 {
        let now = LetterMultiset::from_letters(&letters, budget).covers(&word);
        assert!(now || !reached);
        reached = now;
    }
    assert!(!LetterMultiset::from_letters(&letters, 1).covers(&word));
    assert!(LetterMultiset::from_letters(&letters, 2).covers(&word));
}

#[test]
fn clone_holds_the_same_letters() {
    let bag = LetterMultiset::new("aab.", WILDCARD);
    let copy = bag.clone();
    assert_eq!(copy.count('a'), 2);
    assert_eq!(copy.count('b'), 1);
    assert_eq!(copy.wildcard_budget(), 1);
}

#[test]
fn a_letter_counts_as_the_first_of_its_lowercase_mapping() {
    let bag = LetterMultiset::new("İ", WILDCARD);
    assert_eq!(bag.count('i'), 1);
    assert_eq!(bag.count('İ'), 0);
    assert_eq!(normalize("İSS"), vec!['i', 's', 's']);
}

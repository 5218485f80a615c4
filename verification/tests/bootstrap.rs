use wosh::bootstrap::{confirms, is_affirmative, ListKind, SUBLIST_URL, WORDLIST_URL};

#[test]
fn lists_go_by_their_names() {
    assert_eq!(ListKind::from_name("word"), Some(ListKind::Word));
    assert_eq!(ListKind::from_name("sub"), Some(ListKind::Sub));
}

#[test]
fn other_names_name_no_list() {
    assert_eq!(ListKind::from_name(""), None);
    assert_eq!(ListKind::from_name("Word"), None);
    assert_eq!(ListKind::from_name("words"), None);
    assert_eq!(ListKind::from_name("su"), None);
    assert_eq!(ListKind::from_name("wordlist"), None);
}

#[test]
fn each_list_has_its_address() {
    assert_eq!(ListKind::Word.url(), WORDLIST_URL);
    assert_eq!(ListKind::Sub.url(), SUBLIST_URL);
    assert_eq!(
        ListKind::Word.url(),
        "https://raw.githubusercontent.com/plsuwu/wosh/master/wordlist"
    );
    assert_eq!(
        ListKind::Sub.url(),
        "https://raw.githubusercontent.com/plsuwu/wosh/master/sublist"
    );
}

#[test]
fn affirmative_answers() {
    assert!(is_affirmative(""));
    assert!(is_affirmative("y"));
    assert!(is_affirmative("yes"));
}

#[test]
fn other_answers_decline() {
    assert!(!is_affirmative("n"));
    assert!(!is_affirmative("no"));
    assert!(!is_affirmative("ye"));
    assert!(!is_affirmative("yess"));
    assert!(!is_affirmative("Y"));
    assert!(!is_affirmative(" y"));
    assert!(!is_affirmative("yea"));
}

#[test]
fn typed_line_is_trimmed_before_it_is_judged() {
    assert!(confirms("y\n"));
    assert!(confirms("  yes \r\n"));
    assert!(confirms("\n"));
    assert!(!confirms("y e s\n"));
}

#[test]
fn typed_line_is_lowercased_before_it_is_judged() {
    assert!(confirms("Y"));
    assert!(confirms("YES\n"));
    assert!(confirms("yEs"));
    assert!(!confirms("NO\n"));
    assert!(!confirms("n\n"));
}

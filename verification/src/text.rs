//! Characters of a string, and the case folding under which letters are counted.

use vstd::prelude::*;

verus! {

/// The marker that stands for one hidden tile in a string of available letters.
pub const WILDCARD: char = '.';

/// The marker that stands for one undetermined letter inside a found word.
pub const UNRESOLVED: char = '?';

/// The lowercase mapping of `c`: the scalar values that `c` is written with
/// in lowercase, in order.
pub uninterp spec fn lowercase_mapping(c: char) -> Seq<char>;

/// The letter that `c` is counted as: the first scalar value of its lowercase mapping.
pub open spec fn lowercase_of(c: char) -> char {
    lowercase_mapping(c)[0]
}

/// A sequence of characters with every one of them case-folded.
pub open spec fn fold_case(s: Seq<char>) -> Seq<char> {
    s.map_values(|c: char| lowercase_of(c))
}

/// The test that a character is `marker`.
pub open spec fn is_marker(marker: char) -> spec_fn(char) -> bool {
    |c: char| c == marker
}

/// The test that a character is not `marker`.
pub open spec fn is_letter(marker: char) -> spec_fn(char) -> bool {
    |c: char| c != marker
}

/// The characters of `s` that are not `marker`, in order.
pub open spec fn without(s: Seq<char>, marker: char) -> Seq<char> {
    s.filter(is_letter(marker))
}

/// How often `marker` occurs in `s`.
pub open spec fn occurrences(s: Seq<char>, marker: char) -> nat {
    s.filter(is_marker(marker)).len()
}

/// Calls `char::to_lowercase` of the standard library and collects what it
/// yields. It yields one scalar value or more for every `char`, and what it
/// yields depends on `c` alone; nothing else is claimed of it.
#[verifier::external_body]
fn lower_mapping(c: char) -> (mapping: Vec<char>)
    ensures
        mapping@ == lowercase_mapping(c),
        mapping@.len() >= 1,
{
    c.to_lowercase().collect()
}

/// The letter that `c` is counted as.
pub fn fold_char(c: char) -> (r: char)
    ensures
        r == lowercase_of(c),
{
    let mapping = lower_mapping(c);
    mapping[0]
}

/// The words of `s`: its maximal runs of characters that are not whitespace, in order.
pub uninterp spec fn words_of(s: Seq<char>) -> Seq<Seq<char>>;

/// Calls `str::split_whitespace` of the standard library and collects what it
/// yields. What it yields depends on `s` alone; nothing else is claimed of it.
#[verifier::external_body]
pub(crate) fn split_words(s: &str) -> (words: Vec<String>)
    ensures
        words.deep_view() == words_of(s@),
{
    s.split_whitespace().map(String::from).collect()
}

/// The scalar values of `s`, in order.
pub fn chars_of(s: &str) -> (v: Vec<char>)
    ensures
        v@ == s@,
{
    let mut v: Vec<char> = Vec::new();
    for c in it: s.chars()
        invariant
            v@ == it.seq().take(it.index() as int),
            it.seq() == s@,
    {
        v.push(c);
    }
    v
}

/// Case-folds every character of `letters`.
pub fn fold(letters: &Vec<char>) -> (v: Vec<char>)
    ensures
        v@ == fold_case(letters@),
{
    let mut v: Vec<char> = Vec::new();
    let mut i: usize = 0;
    while i < letters.len()
        invariant
            i <= letters.len(),
            v@ == fold_case(letters@.take(i as int)),
        decreases letters.len() - i,
    {
        v.push(fold_char(letters[i]));
        i += 1;
    }
    v
}

/// The case-folded characters of `s`, in order.
pub fn normalize(s: &str) -> (v: Vec<char>)
    ensures
        v@ == fold_case(s@),
{
    let raw = chars_of(s);
    fold(&raw)
}

/// Whether `c` occurs among `letters`.
pub fn has_char(letters: &Vec<char>, c: char) -> (found: bool)
    ensures
        found == letters@.contains(c),
{
    let mut i: usize = 0;
    while i < letters.len()
        invariant
            i <= letters.len(),
            forall|j: int| 0 <= j < i ==> letters@[j] != c,
        decreases letters.len() - i,
    {
        if letters[i] == c {
            return true;
        }
        i += 1;
    }
    false
}

/// Splits `letters` into what is not `marker`, in order, and the number of markers.
pub fn split_markers(letters: &Vec<char>, marker: char) -> (parts: (Vec<char>, usize))
    ensures
        parts.0@ == without(letters@, marker),
        parts.1 == occurrences(letters@, marker),
{
    let mut kept: Vec<char> = Vec::new();
    let mut markers: usize = 0;
    let mut i: usize = 0;
    while i < letters.len()
        invariant
            i <= letters.len(),
            kept@ == without(letters@.take(i as int), marker),
            markers == occurrences(letters@.take(i as int), marker),
            markers <= i,
        decreases letters.len() - i,
    {
        let c = letters[i];
        proof {
            let before = letters@.take(i as int);
            assert(letters@.take(i + 1) =~= before.push(c));
            before.lemma_filter_push(c, is_letter(marker));
            before.lemma_filter_push(c, is_marker(marker));
        }
        if c == marker {
            markers += 1;
        } else {
            kept.push(c);
        }
        i += 1;
    }
    assert(letters@.take(i as int) =~= letters@);
    (kept, markers)
}

} // verus!

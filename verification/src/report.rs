//! What is shown with a matching board: the letters that wildcards stood in
//! for, the available letters that the board has no use for, and its found words.

use vstd::prelude::*;
use crate::record::{Record, RecordView};
use crate::text::{chars_of, has_char, split_words, words_of};

verus! {

/// The test that a character is no marker and does not occur in `others`.
pub open spec fn foreign_to(others: Seq<char>, marker: char) -> spec_fn(char) -> bool {
    |c: char| c != marker && !others.contains(c)
}

/// The distinct characters of `s`, each at the place where it first occurs.
pub open spec fn distinct(s: Seq<char>) -> Seq<char>
    decreases s.len(),
{
    if s.len() == 0 {
        Seq::empty()
    } else {
        let before = distinct(s.drop_last());
        if before.contains(s.last()) {
            before
        } else {
            before.push(s.last())
        }
    }
}

/// The letters of a board that a wildcard had to stand in for: the
/// characters of the board's letters that are not written in the available
/// letters, each once, in the order of the board's letters. The marker is never one of them.
pub open spec fn consumed_wildcards(
    available: Seq<char>,
    marker: char,
    letters: Seq<char>,
) -> Seq<char> {
    distinct(letters.filter(foreign_to(available, marker)))
}

/// The available letters that a board has no use for: the characters of the
/// available letters that are not written in the board's letters, each once,
/// in the order of the available letters. The marker is never one of them.
pub open spec fn unused_available(
    available: Seq<char>,
    marker: char,
    letters: Seq<char>,
) -> Seq<char> {
    distinct(available.filter(foreign_to(letters, marker)))
}

/// `distinct` keeps exactly the characters of `s`, and keeps none twice.
pub proof fn lemma_distinct(s: Seq<char>)
    ensures
        distinct(s).no_duplicates(),
        forall|c: char| #[trigger] distinct(s).contains(c) <==> s.contains(c),
    decreases s.len(),
{
    if s.len() > 0 {
        let front = s.drop_last();
        let before = distinct(front);
        lemma_distinct(front);
        assert forall|c: char| #[trigger] distinct(s).contains(c) <==> s.contains(c) by {
            if s.contains(c) {
                let at = choose|at: int| 0 <= at < s.len() && s[at] == c;
                if at < s.len() - 1 {
                    assert(front[at] == c);
                    assert(before.contains(c));
                    let to = choose|to: int| 0 <= to < before.len() && before[to] == c;
                    assert(distinct(s)[to] == c);
                } else if !before.contains(c) {
                    assert(distinct(s)[before.len() as int] == c);
                }
            }
            if distinct(s).contains(c) {
                let at = choose|at: int| 0 <= at < distinct(s).len() && distinct(s)[at] == c;
                if at < before.len() {
                    assert(before.contains(c));
                }
            }
        }
    }
}

/// What passes a filter occurs in the sequence and meets the test, and the other way round.
pub proof fn lemma_filtered(s: Seq<char>, test: spec_fn(char) -> bool, c: char)
    ensures
        s.filter(test).contains(c) <==> s.contains(c) && test(c),
{
    if s.filter(test).contains(c) {
        s.lemma_filter_contains_rev(test, c);
    }
}

/// A character is among the consumed wildcards exactly when it is written in
/// the board's letters, is not written in the available letters, and is not
/// the marker; it is among the unused letters exactly when it is written in
/// the available letters, is not written in the board's letters, and is not the marker.
pub proof fn law_derived_letters(available: Seq<char>, marker: char, letters: Seq<char>, c: char)
    ensures
        consumed_wildcards(available, marker, letters).contains(c) <==> letters.contains(c)
            && !available.contains(c) && c != marker,
        unused_available(available, marker, letters).contains(c) <==> available.contains(c)
            && !letters.contains(c) && c != marker,
        consumed_wildcards(available, marker, letters).no_duplicates(),
        unused_available(available, marker, letters).no_duplicates(),
{
    lemma_distinct(letters.filter(foreign_to(available, marker)));
    lemma_distinct(available.filter(foreign_to(letters, marker)));
    lemma_filtered(letters, foreign_to(available, marker), c);
    lemma_filtered(available, foreign_to(letters, marker), c);
}

/// No letter is both a consumed wildcard and an unused letter, and neither
/// kind holds a letter that the available letters and the board have in common.
pub proof fn law_derived_sets_disjoint(available: Seq<char>, marker: char, letters: Seq<char>)
    ensures
        consumed_wildcards(available, marker, letters).to_set().disjoint(
            unused_available(available, marker, letters).to_set(),
        ),
        consumed_wildcards(available, marker, letters).to_set().disjoint(
            available.to_set().intersect(letters.to_set()),
        ),
        unused_available(available, marker, letters).to_set().disjoint(
            available.to_set().intersect(letters.to_set()),
        ),
{
    assert forall|c: char|
        !(consumed_wildcards(available, marker, letters).to_set().contains(c) && unused_available(
            available,
            marker,
            letters,
        ).to_set().contains(c)) && !(consumed_wildcards(available, marker, letters).to_set().contains(
            c,
        ) && available.to_set().intersect(letters.to_set()).contains(c)) && !(unused_available(
            available,
            marker,
            letters,
        ).to_set().contains(c) && available.to_set().intersect(letters.to_set()).contains(c)) by {
        law_derived_letters(available, marker, letters, c);
    }
}

/// A matching board with the letters derived from it.
#[derive(Debug)]
pub struct MatchResult {
    /// The board.
    pub record: Record,
    /// The letters of the board that a wildcard had to stand in for.
    pub consumed_wildcards: Vec<char>,
    /// The available letters that the board has no use for.
    pub unused_available: Vec<char>,
}

/// The characters of `from` that are not `marker` and do not occur in
/// `others`, each once, in the order in which they first occur.
pub fn foreign_letters(from: &Vec<char>, others: &Vec<char>, marker: char) -> (kept: Vec<char>)
    ensures
        kept@ == distinct(from@.filter(foreign_to(others@, marker))),
{
    let mut kept: Vec<char> = Vec::new();
    let ghost test = foreign_to(others@, marker);
    let mut i: usize = 0;
    while i < from.len()
        invariant
            i <= from.len(),
            test == foreign_to(others@, marker),
            kept@ == distinct(from@.take(i as int).filter(test)),
        decreases from.len() - i,
    {
        let c = from[i];
        proof {
            let done = from@.take(i as int);
            assert(from@.take(i + 1) =~= done.push(c));
            done.lemma_filter_push(c, test);
            assert(done.filter(test).push(c).drop_last() =~= done.filter(test));
        }
        if c != marker && !has_char(others, c) && !has_char(&kept, c) {
            kept.push(c);
        }
        i += 1;
    }
    assert(from@.take(i as int) =~= from@);
    kept
}

/// Derives, for a matching board, the letters that wildcards stood in for
/// and the available letters left unused. Both are read off the letters as
/// written; `available` and `marker` are those that the match was made with.
pub fn derive(available: &str, marker: char, record: &Record) -> (result: MatchResult)
    ensures
        result.record@ == record@,
        result.consumed_wildcards@ == consumed_wildcards(available@, marker, record@.letters),
        result.unused_available@ == unused_available(available@, marker, record@.letters),
{
    let held = chars_of(available);
    let needed = chars_of(record.letters.as_str());
    MatchResult {
        record: record.clone(),
        consumed_wildcards: foreign_letters(&needed, &held, marker),
        unused_available: foreign_letters(&held, &needed, marker),
    }
}

/// The found words of a board: the words of the last entry of its word list,
/// in order. A board without an entry has none.
pub open spec fn found_words_of(record: RecordView) -> Seq<Seq<char>> {
    if record.words.len() == 0 {
        Seq::empty()
    } else {
        words_of(record.words.last())
    }
}

/// The found words of a board, in the order in which the board lists them.
pub fn found_words(record: &Record) -> (words: Vec<String>)
    ensures
        words.deep_view() == found_words_of(record@),
{
    if record.words.len() == 0 {
        Vec::new()
    } else {
        split_words(record.words[record.words.len() - 1].as_str())
    }
}

} // verus!

//! The choices made when a list is missing and may be downloaded.

use vstd::prelude::*;
use crate::text::chars_of;

verus! {

/// Where the catalog of boards is kept for download.
pub const WORDLIST_URL: &'static str =
    "https://raw.githubusercontent.com/plsuwu/wosh/master/wordlist";

/// Where the list of candidate words is kept for download.
pub const SUBLIST_URL: &'static str =
    "https://raw.githubusercontent.com/plsuwu/wosh/master/sublist";

/// One of the two lists that the solver reads.
#[derive(Clone, Copy, Debug, PartialEq, Eq)]
pub enum ListKind {
    /// The catalog of boards.
    Word,
    /// The candidate words for undetermined letters.
    Sub,
}

/// The list that goes by `name`: `word` or `sub`, written exactly so.
pub open spec fn kind_named(name: Seq<char>) -> Option<ListKind> {
    if name == seq!['w', 'o', 'r', 'd'] {
        Some(ListKind::Word)
    } else if name == seq!['s', 'u', 'b'] {
        Some(ListKind::Sub)
    } else {
        None
    }
}

/// Whether an answer, already trimmed and lowercased, agrees to a download:
/// the empty answer, `y` and `yes` do, and nothing else does.
pub open spec fn affirmative(answer: Seq<char>) -> bool {
    answer == Seq::<char>::empty() || answer == seq!['y'] || answer == seq!['y', 'e', 's']
}

/// `s` without the whitespace at its two ends.
pub uninterp spec fn trimmed(s: Seq<char>) -> Seq<char>;

/// The lowercase form of `s`.
pub uninterp spec fn lowercased(s: Seq<char>) -> Seq<char>;

/// Calls `str::trim` of the standard library. What it returns depends on `s`
/// alone; nothing else is claimed of it.
#[verifier::external_body]
fn trim(s: &str) -> (r: &str)
    ensures
        r@ == trimmed(s@),
{
    s.trim()
}

/// Calls `str::to_lowercase` of the standard library. What it returns depends
/// on `s` alone; nothing else is claimed of it.
#[verifier::external_body]
fn lowercase(s: &str) -> (r: String)
    ensures
        r@ == lowercased(s@),
{
    s.to_lowercase()
}

impl ListKind {
    /// The list that goes by `name`, if `name` names one.
    pub fn from_name(name: &str) -> (kind: Option<ListKind>)
        ensures
            kind == kind_named(name@),
    {
        let letters = chars_of(name);
        if letters.len() == 4 && letters[0] == 'w' && letters[1] == 'o' && letters[2] == 'r'
            && letters[3] == 'd' {
            assert(name@ =~= seq!['w', 'o', 'r', 'd']);
            Some(ListKind::Word)
        } else if letters.len() == 3 && letters[0] == 's' && letters[1] == 'u' && letters[2]
            == 'b' {
            assert(name@ =~= seq!['s', 'u', 'b']);
            Some(ListKind::Sub)
        } else {
            None
        }
    }

    /// The address that the list is downloaded from.
    pub fn url(&self) -> (url: &'static str)
        ensures
            url@ == match *self {
                ListKind::Word => WORDLIST_URL@,
                ListKind::Sub => SUBLIST_URL@,
            },
    {
        match self {
            ListKind::Word => WORDLIST_URL,
            ListKind::Sub => SUBLIST_URL,
        }
    }
}

/// Whether an answer that is already trimmed and lowercased agrees to a download.
pub fn is_affirmative(answer: &str) -> (yes: bool)
    ensures
        yes == affirmative(answer@),
{
    let letters = chars_of(answer);
    if letters.len() == 0 {
        assert(answer@ =~= Seq::<char>::empty());
        true
    } else if letters.len() == 1 && letters[0] == 'y' {
        assert(answer@ =~= seq!['y']);
        true
    } else if letters.len() == 3 && letters[0] == 'y' && letters[1] == 'e' && letters[2] == 's' {
        assert(answer@ =~= seq!['y', 'e', 's']);
        true
    } else {
        false
    }
}

/// Whether the line that the user typed agrees to a download. The line is
/// trimmed and lowercased first; an empty line agrees.
pub fn confirms(line: &str) -> (yes: bool)
    ensures
        yes == affirmative(lowercased(trimmed(line@))),
{
    let answer = lowercase(trim(line));
    is_affirmative(answer.as_str())
}

} // verus!

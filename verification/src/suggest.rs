//! Completions for a found word that holds an undetermined letter.

use std::collections::HashMap;
use vstd::prelude::*;
use crate::letters::{lemma_no_wildcards_is_inclusion, LetterMultiset};
use crate::text::{chars_of, fold_case, has_char, normalize, UNRESOLVED};

verus! {

broadcast use vstd::std_specs::hash::group_hash_axioms;

/// Whether `word` can complete a token of `length` characters on a board
/// made of `letters`: it has as many characters as the token, and each of its
/// letters, case-folded, is among the board's letters as often as the word
/// needs it. No wildcard helps here.
pub open spec fn qualifies(length: nat, letters: Seq<char>, word: Seq<char>) -> bool {
    &&& word.len() == length
    &&& fold_case(word).to_multiset().subset_of(fold_case(letters).to_multiset())
}

/// The test that a word can complete a token of `length` characters on a
/// board made of `letters`.
pub open spec fn fits(length: nat, letters: Seq<char>) -> spec_fn(Seq<char>) -> bool {
    |word: Seq<char>| qualifies(length, letters, word)
}

/// The candidates that can complete `token`, in the order of the candidates.
/// Of the token only its number of characters counts.
pub open spec fn suggestions(
    token: Seq<char>,
    letters: Seq<char>,
    candidates: Seq<Seq<char>>,
) -> Seq<Seq<char>> {
    candidates.filter(fits(token.len(), letters))
}

/// Every suggestion is one of the candidates, is as long as the token, and is
/// made of the board's letters alone.
pub proof fn law_suggestions_are_sound(
    token: Seq<char>,
    letters: Seq<char>,
    candidates: Seq<Seq<char>>,
    i: int,
)
    requires
        0 <= i < suggestions(token, letters, candidates).len(),
    ensures
        candidates.contains(suggestions(token, letters, candidates)[i]),
        suggestions(token, letters, candidates)[i].len() == token.len(),
        fold_case(suggestions(token, letters, candidates)[i]).to_multiset().subset_of(
            fold_case(letters).to_multiset(),
        ),
{
    let found = suggestions(token, letters, candidates);
    candidates.lemma_filter_contains_rev(fits(token.len(), letters), found[i]);
}

/// Two tokens of the same number of characters get the same suggestions:
/// neither the known letters of a token nor the place of its undetermined
/// letter has a say.
pub proof fn law_suggestions_go_by_length(
    first: Seq<char>,
    second: Seq<char>,
    letters: Seq<char>,
    candidates: Seq<Seq<char>>,
)
    requires
        first.len() == second.len(),
    ensures
        suggestions(first, letters, candidates) == suggestions(second, letters, candidates),
{
}

/// The words of `sublist` that can stand for `unknown`, a found word with an
/// undetermined letter, on a board made of `letters`: those that have as
/// many characters as `unknown` and are made of the board's letters alone.
/// They come in the order of `sublist`; there may be none.
pub fn suggest_unknown(
    unknown: &str,
    letters: String,
    sublist: &Vec<String>,
) -> (found: Vec<String>)
    ensures
        found.deep_view() == suggestions(unknown@, letters@, sublist.deep_view()),
        forall|i: int|
            0 <= i < found.len() ==> {
                &&& sublist.deep_view().contains(#[trigger] found.deep_view()[i])
                &&& found.deep_view()[i].len() == unknown@.len()
                &&& fold_case(found.deep_view()[i]).to_multiset().subset_of(
                    fold_case(letters@).to_multiset(),
                )
            },
{
    let board = normalize(letters.as_str());
    let bag = LetterMultiset::from_letters(&board, 0);
    let length = unknown.unicode_len();
    let mut found: Vec<String> = Vec::new();
    let ghost all = sublist.deep_view();
    let ghost test = fits(unknown@.len(), letters@);
    let mut i: usize = 0;
    while i < sublist.len()
        invariant
            i <= sublist.len(),
            all == sublist.deep_view(),
            test == fits(unknown@.len(), letters@),
            length == unknown@.len(),
            bag@.letters == fold_case(letters@).to_multiset(),
            bag@.wildcards == 0,
            found.deep_view() == all.take(i as int).filter(test),
        decreases sublist.len() - i,
    {
        let word = &sublist[i];
        proof {
            assert(all.take(i + 1) =~= all.take(i as int).push(word@));
            all.take(i as int).lemma_filter_push(word@, test);
        }
        if word.as_str().unicode_len() == length {
            let folded = normalize(word.as_str());
            proof {
                lemma_no_wildcards_is_inclusion(bag@, folded@.to_multiset());
            }
            if bag.covers(&folded) {
                found.push(word.clone());
            }
        }
        i += 1;
    }
    proof {
        assert(all.take(i as int) =~= all);
        assert forall|k: int| 0 <= k < found.len() implies {
            &&& sublist.deep_view().contains(#[trigger] found.deep_view()[k])
            &&& found.deep_view()[k].len() == unknown@.len()
            &&& fold_case(found.deep_view()[k]).to_multiset().subset_of(
                fold_case(letters@).to_multiset(),
            )
        } by {
            law_suggestions_are_sound(unknown@, letters@, all, k);
        }
    }
    found
}

/// Whether a found word holds an undetermined letter.
pub open spec fn unresolved(token: Seq<char>) -> bool {
    token.contains(UNRESOLVED)
}

/// Whether any of the found words holds an undetermined letter, so that
/// candidates are needed at all.
pub fn any_unresolved(tokens: &Vec<String>) -> (needed: bool)
    ensures
        needed == exists|i: int|
            0 <= i < tokens@.len() && unresolved(#[trigger] tokens.deep_view()[i]),
{
    let mut i: usize = 0;
    while i < tokens.len()
        invariant
            i <= tokens.len(),
            forall|k: int| 0 <= k < i ==> !unresolved(#[trigger] tokens.deep_view()[k]),
        decreases tokens.len() - i,
    {
        if has_char(&chars_of(tokens[i].as_str()), UNRESOLVED) {
            assert(unresolved(tokens.deep_view()[i as int]));
            return true;
        }
        i += 1;
    }
    false
}

/// The first of the tokens before position `upto` that holds an undetermined
/// letter and has `length` characters, if there is one.
pub open spec fn first_alike(tokens: Seq<Seq<char>>, length: nat, upto: int) -> Option<int>
    decreases upto,
{
    if upto <= 0 {
        None
    } else {
        match first_alike(tokens, length, upto - 1) {
            Some(i) => Some(i),
            None => if unresolved(tokens[upto - 1]) && tokens[upto - 1].len() == length {
                Some(upto - 1)
            } else {
                None
            },
        }
    }
}

/// A reference always leads to the first word of its kind: what `first_alike`
/// finds is an earlier unresolved token of the length asked for, and no token
/// before it is one; it finds none only where there is none.
pub proof fn law_first_alike_is_first(tokens: Seq<Seq<char>>, length: nat, upto: int)
    requires
        0 <= upto <= tokens.len(),
    ensures
        match first_alike(tokens, length, upto) {
            Some(i) => {
                &&& 0 <= i < upto
                &&& unresolved(tokens[i])
                &&& tokens[i].len() == length
                &&& forall|k: int|
                    0 <= k < i ==> !(unresolved(#[trigger] tokens[k]) && tokens[k].len() == length)
            },
            None => forall|k: int|
                0 <= k < upto ==> !(unresolved(#[trigger] tokens[k]) && tokens[k].len() == length),
        },
    decreases upto,
{
    if upto > 0 {
        law_first_alike_is_first(tokens, length, upto - 1);
    }
}

/// What is said of one found word.
#[derive(Debug)]
pub enum TokenNote {
    /// The word holds no undetermined letter.
    Known,
    /// The word holds an undetermined letter and is the first of its length:
    /// these are the candidates that can stand for it.
    Suggested(Vec<String>),
    /// The word holds an undetermined letter, and an earlier word of the same
    /// length, at this position, already has the suggestions.
    SameAs(usize),
}

/// Whether `note` is what is to be said of the token at position `at`.
pub open spec fn note_agrees(
    note: TokenNote,
    tokens: Seq<Seq<char>>,
    letters: Seq<char>,
    candidates: Seq<Seq<char>>,
    at: int,
) -> bool {
    if !unresolved(tokens[at]) {
        note is Known
    } else {
        match first_alike(tokens, tokens[at].len(), at) {
            Some(i) => note == TokenNote::SameAs(i as usize),
            None => note matches TokenNote::Suggested(found) && found.deep_view() == suggestions(
                tokens[at],
                letters,
                candidates,
            ),
        }
    }
}

/// Goes through the found words of one board, in order, and says of each
/// what is to be shown with it. Suggestions are looked up once for each
/// length in characters: a later unresolved word of a length seen before
/// refers back to the first one of that length. Nothing is remembered from
/// one call to the next.
pub fn annotate(
    tokens: &Vec<String>,
    letters: &str,
    candidates: &Vec<String>,
) -> (notes: Vec<TokenNote>)
    ensures
        notes@.len() == tokens@.len(),
        forall|j: int|
            0 <= j < notes@.len() ==> note_agrees(
                #[trigger] notes@[j],
                tokens.deep_view(),
                letters@,
                candidates.deep_view(),
                j,
            ),
{
    let mut notes: Vec<TokenNote> = Vec::new();
    let mut seen: HashMap<usize, usize> = HashMap::new();
    let ghost all = tokens.deep_view();
    let mut j: usize = 0;
    while j < tokens.len()
        invariant
            j <= tokens.len(),
            all == tokens.deep_view(),
            notes@.len() == j,
            forall|k: int|
                0 <= k < j ==> note_agrees(
                    #[trigger] notes@[k],
                    all,
                    letters@,
                    candidates.deep_view(),
                    k,
                ),
            forall|length: usize| #[trigger]
                seen@.contains_key(length) <==> first_alike(all, length as nat, j as int) is Some,
            forall|length: usize| #[trigger]
                seen@.contains_key(length) ==> first_alike(all, length as nat, j as int)
                    == Some(seen@[length] as int),
        decreases tokens.len() - j,
    {
        let token = &tokens[j];
        let written = chars_of(token.as_str());
        let length = written.len();
        let marked = has_char(&written, UNRESOLVED);
        proof {
            assert forall|other: usize| #[trigger]
                first_alike(all, other as nat, j + 1) == (match first_alike(
                    all,
                    other as nat,
                    j as int,
                ) {
                    Some(i) => Some(i),
                    None => if marked && length == other {
                        Some(j as int)
                    } else {
                        None
                    },
                }) by {}
        }
        let note = if !marked {
            TokenNote::Known
        } else {
            match seen.get(&length) {
                Some(first) => TokenNote::SameAs(*first),
                None => {
                    let found = suggest_unknown(
                        token.as_str(),
                        String::from_str(letters),
                        candidates,
                    );
                    seen.insert(length, j);
                    TokenNote::Suggested(found)
                },
            }
        };
        notes.push(note);
        j += 1;
    }
    notes
}

} // verus!

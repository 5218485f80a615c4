//! The bag of letters a player holds, with a budget of wildcards.

use std::collections::HashMap;
use vstd::prelude::*;
use vstd::multiset::Multiset;
use vstd::seq_lib::lemma_multiset_commutative;
use crate::text::{chars_of, fold, fold_case, occurrences, split_markers, without};

verus! {

broadcast use vstd::std_specs::hash::group_hash_axioms;

/// How many of the `required` letters the `available` ones cannot supply.
pub open spec fn shortfall(required: Multiset<char>, available: Multiset<char>) -> nat {
    required.sub(available).len()
}

/// What a [`LetterMultiset`] holds, as mathematical values.
pub struct LetterBag {
    /// The letters held, each as often as it is held.
    pub letters: Multiset<char>,
    /// The number of wildcards held.
    pub wildcards: nat,
}

/// The bag that a string of available letters stands for: every `marker` in
/// it is one wildcard, and every other character is one letter, case-folded.
pub open spec fn bag_of(letters: Seq<char>, marker: char) -> LetterBag {
    LetterBag {
        letters: fold_case(without(letters, marker)).to_multiset(),
        wildcards: occurrences(letters, marker),
    }
}

/// Whether `required` can be laid out from `bag`, where each wildcard of the
/// bag may stand in for one missing letter.
pub open spec fn reachable(bag: LetterBag, required: Multiset<char>) -> bool {
    shortfall(required, bag.letters) <= bag.wildcards
}

/// The code point of `c`, by which the counts are keyed.
spec fn code_point(c: char) -> u32 {
    c as u32
}

/// Distinct characters have distinct code points.
proof fn lemma_code_points_differ(c: char, d: char)
    ensures
        c != d ==> code_point(c) != code_point(d),
{
}

/// The count that a table keyed by code point holds for `c`.
spec fn tally(counts: Map<u32, usize>, c: char) -> nat {
    if counts.contains_key(code_point(c)) {
        counts[code_point(c)] as nat
    } else {
        0
    }
}

/// The key under which the count of `c` is kept.
fn key_of(c: char) -> (k: u32)
    ensures
        k == code_point(c),
{
    c as u32
}

/// Whether a table keyed by code point holds exactly the counts of `bag`.
spec fn tallies(counts: Map<u32, usize>, bag: Multiset<char>) -> bool {
    forall|c: char| #[trigger] tally(counts, c) == bag.count(c)
}

/// With no wildcard to spend, a word is reachable exactly when each of its
/// letters is available as often as the word needs it.
pub proof fn lemma_no_wildcards_is_inclusion(bag: LetterBag, required: Multiset<char>)
    requires
        bag.wildcards == 0,
    ensures
        reachable(bag, required) <==> required.subset_of(bag.letters),
{
    let available = bag.letters;
    let missing = required.sub(available);
    if required.subset_of(available) {
        assert(missing =~= Multiset::<char>::empty());
    }
    if missing.len() == 0 {
        assert forall|c: char| required.count(c) <= available.count(c) by {
            assert(missing.count(c) <= missing.len());
        }
    }
}

/// A word needs at least the wildcards that any part of it needs.
pub proof fn lemma_shortfall_grows(
    part: Multiset<char>,
    whole: Multiset<char>,
    available: Multiset<char>,
)
    requires
        part.subset_of(whole),
    ensures
        shortfall(part, available) <= shortfall(whole, available),
{
    let small = part.sub(available);
    let large = whole.sub(available);
    assert(large =~= small.add(large.sub(small)));
}

/// Taking one more letter `c` into a word costs one wildcard exactly when the
/// available letters hold no `c` beyond those that the word already uses.
pub proof fn lemma_shortfall_step(word: Multiset<char>, c: char, available: Multiset<char>)
    ensures
        shortfall(word.insert(c), available) == shortfall(word, available) + (if word.count(c)
            < available.count(c) {
            0nat
        } else {
            1nat
        }),
{
    let before = word.sub(available);
    let after = word.insert(c).sub(available);
    if word.count(c) < available.count(c) {
        assert(after =~= before);
    } else {
        assert(after =~= before.insert(c));
    }
}

/// No characters hold no letters.
pub proof fn lemma_no_letters()
    ensures
        Seq::<char>::empty().to_multiset() == Multiset::<char>::empty(),
{
    Seq::<char>::empty().to_multiset_ensures();
}

/// The letters of the first `n` characters of `s` are among the letters of `s`.
pub proof fn lemma_prefix_letters(s: Seq<char>, n: int)
    requires
        0 <= n <= s.len(),
    ensures
        s.take(n).to_multiset().subset_of(s.to_multiset()),
{
    lemma_multiset_commutative(s.take(n), s.skip(n));
    assert(s.take(n) + s.skip(n) =~= s);
}

/// A bag of case-folded letters together with a number of wildcards, each of
/// which can stand in for any one letter.
pub struct LetterMultiset {
    counts: HashMap<u32, usize>,
    budget: usize,
    bag: Ghost<Multiset<char>>,
}

impl View for LetterMultiset {
    type V = LetterBag;

    closed spec fn view(&self) -> LetterBag {
        LetterBag { letters: self.bag@, wildcards: self.budget as nat }
    }
}

impl LetterMultiset {
    #[verifier::type_invariant]
    spec fn consistent(&self) -> bool {
        tallies(self.counts@, self.bag@)
    }

    /// The bag that holds exactly `letters`, taken as they are, and `wildcards` wildcards.
    pub fn from_letters(letters: &Vec<char>, wildcards: usize) -> (bag: LetterMultiset)
        ensures
            bag@.letters == letters@.to_multiset(),
            bag@.wildcards == wildcards,
    {
        let mut counts: HashMap<u32, usize> = HashMap::new();
        let mut i: usize = 0;
        proof {
            assert(letters@.take(0) =~= Seq::<char>::empty());
            lemma_no_letters();
        }
        while i < letters.len()
            invariant
                i <= letters.len(),
                tallies(counts@, letters@.take(i as int).to_multiset()),
            decreases letters.len() - i,
        {
            let c = letters[i];
            let ghost seen = letters@.take(i as int);
            let held: usize = match counts.get(&key_of(c)) {
                Some(n) => *n,
                None => 0,
            };
            proof {
                assert(letters@.take(i + 1) =~= seen.push(c));
                seen.to_multiset_ensures();
                assert(held == tally(counts@, c));
            }
            let ghost earlier = counts@;
            counts.insert(key_of(c), held + 1);
            i += 1;
            proof {
                let now = letters@.take(i as int).to_multiset();
                assert forall|d: char| #[trigger] tally(counts@, d) == now.count(d) by {
                    assert(tally(earlier, d) == seen.to_multiset().count(d));
                    lemma_code_points_differ(c, d);
                }
            }
        }
        assert(letters@.take(i as int) =~= letters@);
        LetterMultiset { counts, budget: wildcards, bag: Ghost(letters@.to_multiset()) }
    }

    /// The bag for a string of available letters: every `marker` in it is one
    /// wildcard, and every other character is one letter, counted case-folded.
    pub fn new(letters: &str, marker: char) -> (bag: LetterMultiset)
        ensures
            bag@ == bag_of(letters@, marker),
    {
        let raw = chars_of(letters);
        let (kept, markers) = split_markers(&raw, marker);
        let folded = fold(&kept);
        LetterMultiset::from_letters(&folded, markers)
    }

    /// The number of wildcards held.
    pub fn wildcard_budget(&self) -> (n: usize)
        ensures
            n == self@.wildcards,
    {
        self.budget
    }

    /// How often the letter `c` is held.
    pub fn count(&self, c: char) -> (n: usize)
        ensures
            n == self@.letters.count(c),
    {
        proof {
            use_type_invariant(self);
        }
        let held: usize = match self.counts.get(&key_of(c)) {
            Some(n) => *n,
            None => 0,
        };
        assert(held == tally(self.counts@, c));
        held
    }

    /// Whether the letters of `required`, taken as they are, can be laid out from
    /// this bag. Letters are consumed from left to right; one that the bag has
    /// run out of takes a wildcard, and the word fails once none is left. The
    /// bag itself is not changed: the counting is done on a copy.
    pub fn covers(&self, required: &Vec<char>) -> (ok: bool)
        ensures
            ok == reachable(self@, required@.to_multiset()),
    {
        proof {
            use_type_invariant(self);
        }
        let mut working: HashMap<u32, usize> = self.counts.clone();
        let mut left: usize = self.budget;
        let mut i: usize = 0;
        let ghost held = self.bag@;
        proof {
            assert(required@.take(0) =~= Seq::<char>::empty());
            lemma_no_letters();
            assert(Multiset::<char>::empty().sub(held) =~= Multiset::<char>::empty());
        }
        while i < required.len()
            invariant
                i <= required.len(),
                held == self.bag@,
                left <= self.budget,
                tallies(working@, held.sub(required@.take(i as int).to_multiset())),
                left + shortfall(required@.take(i as int).to_multiset(), held) == self.budget,
            decreases required.len() - i,
        {
            let c = required[i];
            let ghost seen = required@.take(i as int).to_multiset();
            let ghost earlier = working@;
            let remaining: usize = match working.get(&key_of(c)) {
                Some(n) => *n,
                None => 0,
            };
            proof {
                assert(required@.take(i + 1) =~= required@.take(i as int).push(c));
                required@.take(i as int).to_multiset_ensures();
                assert(remaining == tally(earlier, c));
                lemma_shortfall_step(seen, c, held);
            }
            if remaining > 0 {
                working.insert(key_of(c), remaining - 1);
            } else if left > 0 {
                left -= 1;
            } else {
                proof {
                    lemma_prefix_letters(required@, i + 1);
                    lemma_shortfall_grows(seen.insert(c), required@.to_multiset(), held);
                }
                return false;
            }
            proof {
                let rest = held.sub(seen.insert(c));
                assert forall|d: char| #[trigger] tally(working@, d) == rest.count(d) by {
                    assert(tally(earlier, d) == held.sub(seen).count(d));
                    lemma_code_points_differ(c, d);
                }
            }
            i += 1;
        }
        assert(required@.take(i as int) =~= required@);
        true
    }
}

impl Clone for LetterMultiset {
    /// A bag of its own with the same letters and wildcards.
    fn clone(&self) -> (copy: Self)
        ensures
            copy@ == self@,
    {
        proof {
            use_type_invariant(self);
        }
        LetterMultiset { counts: self.counts.clone(), budget: self.budget, bag: self.bag }
    }
}

} // verus!

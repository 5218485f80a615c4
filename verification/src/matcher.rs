//! Whether one board of the catalog agrees with what the player knows.

use vstd::prelude::*;
use vstd::multiset::Multiset;
use crate::letters::{lemma_no_wildcards_is_inclusion, reachable, LetterBag, LetterMultiset};
use crate::record::{Record, RecordView};
use crate::text::{chars_of, fold, fold_case, has_char};

verus! {

/// Whether a board of `spaces` tiles is too large for a bound of `capacity`
/// tiles. A bound of zero is no bound.
pub open spec fn over_capacity(capacity: nat, spaces: nat) -> bool {
    capacity > 0 && spaces > capacity
}

/// Whether some character of `letters` is one of `banned`.
pub open spec fn mentions_any(letters: Seq<char>, banned: Set<char>) -> bool {
    exists|i: int| 0 <= i < letters.len() && banned.contains(#[trigger] letters[i])
}

/// Whether a board passes the two rules that look at no letter count: it is
/// not larger than the bound, and none of its letters, as written, is banned.
pub open spec fn admissible(banned: Set<char>, capacity: nat, record: RecordView) -> bool {
    &&& !over_capacity(capacity, record.spaces as nat)
    &&& !mentions_any(record.letters, banned)
}

/// The letters that a board needs, case-folded.
pub open spec fn required_letters(record: RecordView) -> Multiset<char> {
    fold_case(record.letters).to_multiset()
}

/// Whether a board agrees with what the player knows: it is admissible, and
/// its letters can be laid out from the available ones and the wildcards.
pub open spec fn record_matches(
    available: LetterBag,
    banned: Set<char>,
    capacity: nat,
    record: RecordView,
) -> bool {
    &&& admissible(banned, capacity, record)
    &&& reachable(available, required_letters(record))
}

/// Whether some character of `letters` is one of `banned`.
pub fn mentions_banned(letters: &Vec<char>, banned: &Vec<char>) -> (found: bool)
    ensures
        found == mentions_any(letters@, banned@.to_set()),
{
    let mut i: usize = 0;
    while i < letters.len()
        invariant
            i <= letters.len(),
            forall|j: int| 0 <= j < i ==> !banned@.to_set().contains(#[trigger] letters@[j]),
        decreases letters.len() - i,
    {
        if has_char(banned, letters[i]) {
            return true;
        }
        i += 1;
    }
    false
}

/// Decides whether `record` agrees with the available letters, the banned
/// letters and the bound on the board's size.
pub fn is_match(
    available: &LetterMultiset,
    banned: &Vec<char>,
    capacity: usize,
    record: &Record,
) -> (hit: bool)
    ensures
        hit == record_matches(available@, banned@.to_set(), capacity as nat, record@),
{
    if capacity > 0 && capacity < record.spaces as usize {
        return false;
    }
    let raw = chars_of(record.letters.as_str());
    if mentions_banned(&raw, banned) {
        return false;
    }
    let required = fold(&raw);
    available.covers(&required)
}

/// With no wildcard among the available letters, an admissible board matches
/// exactly when each of its letters is available as often as the board needs it.
pub proof fn law_no_wildcards_is_inclusion(
    available: LetterBag,
    banned: Set<char>,
    capacity: nat,
    record: RecordView,
)
    requires
        available.wildcards == 0,
        admissible(banned, capacity, record),
    ensures
        record_matches(available, banned, capacity, record) <==> required_letters(
            record,
        ).subset_of(available.letters),
{
    lemma_no_wildcards_is_inclusion(available, required_letters(record));
}

/// A board that matches keeps matching when the wildcard budget grows, all
/// else unchanged: more wildcards never turn a match into a miss.
pub proof fn law_wildcards_monotone(
    fewer: LetterBag,
    more: LetterBag,
    banned: Set<char>,
    capacity: nat,
    record: RecordView,
)
    requires
        fewer.letters == more.letters,
        fewer.wildcards <= more.wildcards,
        record_matches(fewer, banned, capacity, record),
    ensures
        record_matches(more, banned, capacity, record),
{
}

/// A board larger than a positive bound never matches, whatever its letters.
pub proof fn law_over_capacity_never_matches(
    available: LetterBag,
    banned: Set<char>,
    capacity: nat,
    record: RecordView,
)
    requires
        capacity > 0,
        record.spaces > capacity,
    ensures
        !record_matches(available, banned, capacity, record),
{
}

/// A board that holds a banned letter never matches, whatever is available.
pub proof fn law_banned_never_matches(
    available: LetterBag,
    banned: Set<char>,
    capacity: nat,
    record: RecordView,
    at: int,
)
    requires
        0 <= at < record.letters.len(),
        banned.contains(record.letters[at]),
    ensures
        !record_matches(available, banned, capacity, record),
{
}

} // verus!

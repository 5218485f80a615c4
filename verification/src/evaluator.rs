//! Matching a whole catalog, in one pass or chunk by chunk.

use std::sync::Arc;
use vstd::prelude::*;
use crate::chunks::{
    chunk_bounds, chunk_count, chunk_start, lemma_chunk_ends, lemma_chunk_order, lemma_chunk_step,
};
use crate::letters::{bag_of, LetterBag, LetterMultiset};
use crate::matcher::{is_match, record_matches};
use crate::record::{Record, RecordView};
use crate::text::{chars_of, WILDCARD};

verus! {

/// The test that a board agrees with what the player knows.
pub open spec fn hit(
    available: LetterBag,
    banned: Set<char>,
    capacity: nat,
) -> spec_fn(RecordView) -> bool {
    |record: RecordView| record_matches(available, banned, capacity, record)
}

/// The boards of `catalog` that match, in the order of the catalog.
pub open spec fn matching(
    catalog: Seq<RecordView>,
    available: LetterBag,
    banned: Set<char>,
    capacity: nat,
) -> Seq<RecordView> {
    catalog.filter(hit(available, banned, capacity))
}

/// The part of `catalog` from `start` up to `end`, both cut down to the
/// catalog's length; it is empty where `end` does not lie behind `start`.
pub open spec fn span(catalog: Seq<RecordView>, start: int, end: int) -> Seq<RecordView> {
    let lo = if start < catalog.len() {
        start
    } else {
        catalog.len() as int
    };
    let hi = if end < catalog.len() {
        end
    } else {
        catalog.len() as int
    };
    if 0 <= lo <= hi {
        catalog.subrange(lo, hi)
    } else {
        Seq::empty()
    }
}

/// The matching boards among those at the positions `start..end` of the
/// catalog, in the catalog's order. This is the work of one chunk.
pub fn select(
    catalog: &Vec<Record>,
    start: usize,
    end: usize,
    available: &LetterMultiset,
    banned: &Vec<char>,
    capacity: usize,
) -> (found: Vec<Record>)
    ensures
        found.deep_view() == matching(
            span(catalog.deep_view(), start as int, end as int),
            available@,
            banned@.to_set(),
            capacity as nat,
        ),
{
    let hi: usize = if end < catalog.len() {
        end
    } else {
        catalog.len()
    };
    let lo: usize = if start < catalog.len() {
        start
    } else {
        catalog.len()
    };
    let mut found: Vec<Record> = Vec::new();
    let ghost test = hit(available@, banned@.to_set(), capacity as nat);
    let ghost all = catalog.deep_view();
    if lo > hi {
        return found;
    }
    let mut i: usize = lo;
    while i < hi
        invariant
            lo <= i <= hi <= catalog.len(),
            all == catalog.deep_view(),
            test == hit(available@, banned@.to_set(), capacity as nat),
            found.deep_view() == all.subrange(lo as int, i as int).filter(test),
        decreases hi - i,
    {
        let record = &catalog[i];
        proof {
            let done = all.subrange(lo as int, i as int);
            assert(all.subrange(lo as int, i + 1) =~= done.push(record@));
            done.lemma_filter_push(record@, test);
        }
        if is_match(available, banned, capacity, record) {
            found.push(record.clone());
        }
        i += 1;
    }
    found
}

/// The boards of `wordlist` that the letters in `letters` can reach. A `.`
/// in `letters` is a wildcard. A board is left out if it holds any character
/// of `ignored`, or if it takes more than `board_size` tiles while
/// `board_size` is not zero.
pub fn filtered(
    wordlist: Arc<Vec<Record>>,
    letters: &str,
    ignored: &str,
    board_size: usize,
) -> (found: Vec<Record>)
    ensures
        found.deep_view() == matching(
            wordlist.deep_view(),
            bag_of(letters@, WILDCARD),
            ignored@.to_set(),
            board_size as nat,
        ),
{
    let available = LetterMultiset::new(letters, WILDCARD);
    let banned = chars_of(ignored);
    let catalog: &Vec<Record> = &wordlist;
    let found = select(catalog, 0, catalog.len(), &available, &banned, board_size);
    assert(span(catalog.deep_view(), 0, catalog.len() as int) =~= catalog.deep_view());
    found
}

/// What became of one chunk.
#[derive(Debug)]
pub enum ChunkOutcome {
    /// The chunk was matched through; these are its matching boards, in order.
    Matched(Vec<Record>),
    /// The work on the chunk broke off; nothing is known of its boards.
    Faulted,
}

/// The merged result of all chunks.
#[derive(Debug)]
pub struct Evaluation {
    /// The matching boards of the chunks that were matched through, in the
    /// order of the catalog.
    pub matches: Vec<Record>,
    /// The positions of the chunks that broke off, in ascending order.
    pub faults: Vec<usize>,
}

/// The boards that one chunk contributes: none where it broke off.
pub open spec fn contribution(outcome: ChunkOutcome) -> Seq<RecordView> {
    match outcome {
        ChunkOutcome::Matched(found) => found.deep_view(),
        ChunkOutcome::Faulted => Seq::empty(),
    }
}

/// What the chunks contribute, one behind the other in the order of the chunks.
pub open spec fn merged(outcomes: Seq<ChunkOutcome>) -> Seq<RecordView> {
    outcomes.map_values(|outcome: ChunkOutcome| contribution(outcome)).flatten()
}

/// Chunk `i` of `catalog` when it is cut into `chunks` chunks.
pub open spec fn chunk_of(catalog: Seq<RecordView>, chunks: nat, i: int) -> Seq<RecordView> {
    catalog.subrange(
        chunk_start(catalog.len(), chunks, i as nat) as int,
        chunk_start(catalog.len(), chunks, (i + 1) as nat) as int,
    )
}

/// The matching boards of each of the `chunks` chunks of `catalog`.
pub open spec fn chunk_matches(
    catalog: Seq<RecordView>,
    available: LetterBag,
    banned: Set<char>,
    capacity: nat,
    chunks: nat,
) -> Seq<Seq<RecordView>> {
    Seq::new(
        chunks,
        |i: int| matching(chunk_of(catalog, chunks, i), available, banned, capacity),
    )
}

/// The result of matching `catalog` chunk by chunk, with `requested` chunks
/// asked for, and putting the results together in the order of the chunks.
pub open spec fn evaluation(
    catalog: Seq<RecordView>,
    available: LetterBag,
    banned: Set<char>,
    capacity: nat,
    requested: nat,
) -> Seq<RecordView> {
    chunk_matches(
        catalog,
        available,
        banned,
        capacity,
        chunk_count(catalog.len(), requested),
    ).flatten()
}

/// The first `n` chunks together hold the matches of the boards before chunk `n`.
pub proof fn lemma_chunks_so_far(
    catalog: Seq<RecordView>,
    available: LetterBag,
    banned: Set<char>,
    capacity: nat,
    chunks: nat,
    n: nat,
)
    requires
        chunks > 0,
        n <= chunks,
    ensures
        chunk_matches(catalog, available, banned, capacity, chunks).take(n as int).flatten()
            == matching(
            catalog.subrange(0, chunk_start(catalog.len(), chunks, n) as int),
            available,
            banned,
            capacity,
        ),
    decreases n,
{
    let all = chunk_matches(catalog, available, banned, capacity, chunks);
    let test = hit(available, banned, capacity);
    let len = catalog.len();
    lemma_chunk_ends(len, chunks);
    if n == 0 {
    } else {
        let m = (n - 1) as nat;
        lemma_chunks_so_far(catalog, available, banned, capacity, chunks, m);
        lemma_chunk_step(len, chunks, m);
        lemma_chunk_order(len, chunks, n, chunks);
        let cut = chunk_start(len, chunks, m) as int;
        let end = chunk_start(len, chunks, n) as int;
        assert(all.take(n as int) =~= all.take(m as int).push(all[m as int]));
        all.take(m as int).lemma_flatten_push(all[m as int]);
        assert(catalog.subrange(0, end) =~= catalog.subrange(0, cut) + catalog.subrange(cut, end));
        Seq::filter_distributes_over_add(
            catalog.subrange(0, cut),
            catalog.subrange(cut, end),
            test,
        );
    }
}

/// Cutting the catalog into chunks changes nothing: whatever number of chunks
/// is asked for, the merged result holds the matching boards of the whole
/// catalog, each once, in the catalog's order.
pub proof fn law_chunking_is_transparent(
    catalog: Seq<RecordView>,
    available: LetterBag,
    banned: Set<char>,
    capacity: nat,
    requested: nat,
)
    ensures
        evaluation(catalog, available, banned, capacity, requested) == matching(
            catalog,
            available,
            banned,
            capacity,
        ),
{
    let chunks = chunk_count(catalog.len(), requested);
    let all = chunk_matches(catalog, available, banned, capacity, chunks);
    lemma_chunks_so_far(catalog, available, banned, capacity, chunks, chunks);
    lemma_chunk_ends(catalog.len(), chunks);
    assert(all.take(chunks as int) =~= all);
    assert(catalog.subrange(0, catalog.len() as int) =~= catalog);
}

/// One chunk and any other number of chunks give the same boards in the same order.
pub proof fn law_chunk_count_is_immaterial(
    catalog: Seq<RecordView>,
    available: LetterBag,
    banned: Set<char>,
    capacity: nat,
    requested: nat,
)
    ensures
        evaluation(catalog, available, banned, capacity, 1) == evaluation(
            catalog,
            available,
            banned,
            capacity,
            requested,
        ),
{
    law_chunking_is_transparent(catalog, available, banned, capacity, 1);
    law_chunking_is_transparent(catalog, available, banned, capacity, requested);
}

/// Appends a copy of every record of `more` to `list`, in order.
pub fn append_copies(list: &mut Vec<Record>, more: &Vec<Record>)
    ensures
        final(list).deep_view() == old(list).deep_view() + more.deep_view(),
{
    let ghost before = list.deep_view();
    let mut j: usize = 0;
    while j < more.len()
        invariant
            j <= more.len(),
            list.deep_view() == before + more.deep_view().take(j as int),
        decreases more.len() - j,
    {
        let ghost so_far = list.deep_view();
        list.push(more[j].clone());
        j += 1;
        assert(list.deep_view() =~= so_far.push(more@[j - 1]@));
        assert(more.deep_view().take(j as int) =~= more.deep_view().take(j - 1).push(
            more@[j - 1]@,
        ));
    }
}

/// Puts the outcomes of the chunks together, in the order of the chunks. A
/// chunk that broke off contributes no board and is reported by its position;
/// the other chunks are not affected by it. Chunks without a match are passed over.
pub fn merge(outcomes: &Vec<ChunkOutcome>) -> (result: Evaluation)
    ensures
        result.matches.deep_view() == merged(outcomes@),
        forall|i: usize|
            #[trigger] result.faults@.contains(i) <==> i < outcomes@.len() && outcomes@[i as int]
                is Faulted,
        forall|a: int, b: int|
            0 <= a < b < result.faults@.len() ==> result.faults@[a] < result.faults@[b],
{
    let mut matches: Vec<Record> = Vec::new();
    let mut faults: Vec<usize> = Vec::new();
    let ghost parts = outcomes@.map_values(|outcome: ChunkOutcome| contribution(outcome));
    let mut i: usize = 0;
    while i < outcomes.len()
        invariant
            i <= outcomes.len(),
            parts == outcomes@.map_values(|outcome: ChunkOutcome| contribution(outcome)),
            matches.deep_view() == parts.take(i as int).flatten(),
            forall|k: usize|
                #[trigger] faults@.contains(k) <==> k < i && outcomes@[k as int] is Faulted,
            forall|a: int, b: int| 0 <= a < b < faults@.len() ==> faults@[a] < faults@[b],
            forall|a: int| 0 <= a < faults@.len() ==> faults@[a] < i,
        decreases outcomes.len() - i,
    {
        proof {
            assert(parts.take(i + 1) =~= parts.take(i as int).push(parts[i as int]));
            parts.take(i as int).lemma_flatten_push(parts[i as int]);
        }
        match &outcomes[i] {
            ChunkOutcome::Matched(found) => {
                if found.len() > 0 {
                    append_copies(&mut matches, found);
                }
            },
            ChunkOutcome::Faulted => {
                let ghost earlier = faults@;
                faults.push(i);
                proof {
                    assert forall|k: usize|
                        #[trigger] faults@.contains(k) <==> k < i + 1 && outcomes@[k as int]
                            is Faulted by {
                        if faults@.contains(k) {
                            let at = choose|at: int| 0 <= at < faults@.len() && faults@[at] == k;
                            if at < earlier.len() {
                                assert(earlier.contains(k));
                            }
                        }
                        if k < i && outcomes@[k as int] is Faulted {
                            assert(earlier.contains(k));
                            let at = choose|at: int| 0 <= at < earlier.len() && earlier[at] == k;
                            assert(faults@[at] == k);
                        }
                        if k == i {
                            assert(faults@[earlier.len() as int] == i);
                        }
                    }
                }
            },
        }
        i += 1;
    }
    assert(parts.take(i as int) =~= parts);
    Evaluation { matches, faults }
}

/// Matches the catalog chunk by chunk and merges the results. The number of
/// chunks asked for is clamped to at least one and to no more than there are
/// boards; whatever it is, the result holds the matching boards of the whole
/// catalog in the catalog's order. Every chunk is worked on a copy of the
/// available letters, and no chunk breaks off.
pub fn evaluate(
    catalog: &Vec<Record>,
    available: &LetterMultiset,
    banned: &Vec<char>,
    capacity: usize,
    requested: usize,
) -> (result: Evaluation)
    ensures
        result.matches.deep_view() == evaluation(
            catalog.deep_view(),
            available@,
            banned@.to_set(),
            capacity as nat,
            requested as nat,
        ),
        result.matches.deep_view() == matching(
            catalog.deep_view(),
            available@,
            banned@.to_set(),
            capacity as nat,
        ),
        result.faults@.len() == 0,
{
    let bounds = chunk_bounds(catalog.len(), requested);
    let mut outcomes: Vec<ChunkOutcome> = Vec::new();
    let ghost all = catalog.deep_view();
    let ghost chunks = bounds@.len();
    let ghost expected = chunk_matches(all, available@, banned@.to_set(), capacity as nat, chunks);
    let mut i: usize = 0;
    while i < bounds.len()
        invariant
            i <= bounds.len(),
            chunks == bounds@.len(),
            chunks == chunk_count(catalog@.len(), requested as nat),
            all == catalog.deep_view(),
            forall|k: int|
                0 <= k < bounds@.len() ==> (#[trigger] bounds@[k]).0 == chunk_start(
                    catalog@.len(),
                    chunks,
                    k as nat,
                ) && bounds@[k].1 == chunk_start(catalog@.len(), chunks, (k + 1) as nat),
            expected == chunk_matches(all, available@, banned@.to_set(), capacity as nat, chunks),
            outcomes@.len() == i,
            forall|k: int|
                0 <= k < i ==> #[trigger] outcomes@[k] is Matched && contribution(outcomes@[k])
                    == expected[k],
        decreases bounds.len() - i,
    {
        let (start, end) = bounds[i];
        let own = available.clone();
        let found = select(catalog, start, end, &own, banned, capacity);
        proof {
            lemma_chunk_step(catalog@.len(), chunks, i as nat);
            lemma_chunk_order(catalog@.len(), chunks, (i + 1) as nat, chunks);
            lemma_chunk_ends(catalog@.len(), chunks);
        }
        outcomes.push(ChunkOutcome::Matched(found));
        i += 1;
    }
    let result = merge(&outcomes);
    proof {
        let parts = outcomes@.map_values(|outcome: ChunkOutcome| contribution(outcome));
        assert(parts =~= expected);
        law_chunking_is_transparent(
            all,
            available@,
            banned@.to_set(),
            capacity as nat,
            requested as nat,
        );
        if result.faults@.len() > 0 {
            let k = result.faults@[0];
            assert(result.faults@.contains(k));
        }
    }
    result
}

} // verus!

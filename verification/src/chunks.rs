//! Cutting a catalog into contiguous chunks of nearly equal length.

use vstd::prelude::*;
use vstd::arithmetic::div_mod::lemma_fundamental_div_mod;

verus! {

/// The number of chunks that a catalog of `len` boards is cut into when
/// `requested` chunks are asked for: at least one, and no more than there
/// are boards.
pub open spec fn chunk_count(len: nat, requested: nat) -> nat {
    if requested == 0 || len == 0 {
        1
    } else if requested > len {
        len
    } else {
        requested
    }
}

/// The position at which chunk `i` begins when `len` boards are cut into
/// `chunks` chunks. Every chunk has `len / chunks` boards, and each of the
/// first `len % chunks` chunks has one more.
pub open spec fn chunk_start(len: nat, chunks: nat, i: nat) -> nat {
    let base = len / chunks;
    let extra = len % chunks;
    i * base + if i < extra {
        i
    } else {
        extra
    }
}

/// The number of boards in chunk `i`.
pub open spec fn chunk_len(len: nat, chunks: nat, i: nat) -> nat {
    len / chunks + if i < len % chunks {
        1nat
    } else {
        0nat
    }
}

/// A chunk ends where the next one begins.
pub proof fn lemma_chunk_step(len: nat, chunks: nat, i: nat)
    requires
        chunks > 0,
    ensures
        chunk_start(len, chunks, i + 1) == chunk_start(len, chunks, i) + chunk_len(len, chunks, i),
{
    let base = len / chunks;
    assert((i + 1) * base == i * base + base) by (nonlinear_arith);
}

/// The chunks begin at the first board and end behind the last.
pub proof fn lemma_chunk_ends(len: nat, chunks: nat)
    requires
        chunks > 0,
    ensures
        chunk_start(len, chunks, 0) == 0,
        chunk_start(len, chunks, chunks) == len,
{
    let base = len / chunks;
    lemma_fundamental_div_mod(len as int, chunks as int);
    assert(0 * base == 0) by (nonlinear_arith);
}

/// Later chunks begin later.
pub proof fn lemma_chunk_order(len: nat, chunks: nat, i: nat, j: nat)
    requires
        chunks > 0,
        i <= j,
    ensures
        chunk_start(len, chunks, i) <= chunk_start(len, chunks, j),
    decreases j - i,
{
    if i < j {
        lemma_chunk_order(len, chunks, i, (j - 1) as nat);
        lemma_chunk_step(len, chunks, (j - 1) as nat);
    }
}

/// The chunks lie one behind the other and cover all the boards, so every
/// board falls into exactly one chunk; and no two chunks differ in length by
/// more than one board.
pub proof fn law_chunks_partition(len: nat, chunks: nat, i: nat, j: nat)
    requires
        chunks > 0,
        i < chunks,
        j < chunks,
    ensures
        chunk_start(len, chunks, 0) == 0,
        chunk_start(len, chunks, chunks) == len,
        chunk_start(len, chunks, i + 1) == chunk_start(len, chunks, i) + chunk_len(len, chunks, i),
        chunk_start(len, chunks, i + 1) <= len,
        chunk_len(len, chunks, i) <= chunk_len(len, chunks, j) + 1,
{
    lemma_chunk_ends(len, chunks);
    lemma_chunk_step(len, chunks, i);
    lemma_chunk_order(len, chunks, i + 1, chunks);
}

/// Clamps a requested number of chunks: at least one, and no more than there
/// are boards.
pub fn effective_chunks(len: usize, requested: usize) -> (chunks: usize)
    ensures
        chunks == chunk_count(len as nat, requested as nat),
        chunks >= 1,
{
    if requested == 0 || len == 0 {
        1
    } else if requested > len {
        len
    } else {
        requested
    }
}

/// The bounds `(start, end)` of each chunk, in order, for a catalog of `len`
/// boards and a requested number of chunks.
pub fn chunk_bounds(len: usize, requested: usize) -> (bounds: Vec<(usize, usize)>)
    ensures
        bounds@.len() == chunk_count(len as nat, requested as nat),
        forall|i: int|
            0 <= i < bounds@.len() ==> (#[trigger] bounds@[i]).0 == chunk_start(
                len as nat,
                bounds@.len(),
                i as nat,
            ) && bounds@[i].1 == chunk_start(len as nat, bounds@.len(), (i + 1) as nat),
{
    let chunks = effective_chunks(len, requested);
    let base: usize = len / chunks;
    let extra: usize = len % chunks;
    let mut bounds: Vec<(usize, usize)> = Vec::new();
    let mut start: usize = 0;
    let mut i: usize = 0;
    while i < chunks
        invariant
            chunks >= 1,
            i <= chunks,
            base == len / chunks,
            extra == len % chunks,
            bounds@.len() == i,
            start == chunk_start(len as nat, chunks as nat, i as nat),
            forall|j: int|
                0 <= j < i ==> (#[trigger] bounds@[j]).0 == chunk_start(
                    len as nat,
                    chunks as nat,
                    j as nat,
                ) && bounds@[j].1 == chunk_start(len as nat, chunks as nat, (j + 1) as nat),
        decreases chunks - i,
    {
        proof {
            lemma_chunk_step(len as nat, chunks as nat, i as nat);
            lemma_chunk_order(len as nat, chunks as nat, (i + 1) as nat, chunks as nat);
            lemma_chunk_ends(len as nat, chunks as nat);
        }
        let size: usize = if i < extra {
            base + 1
        } else {
            base
        };
        let end: usize = start + size;
        bounds.push((start, end));
        start = end;
        i += 1;
    }
    bounds
}

} // verus!

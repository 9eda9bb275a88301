//! Partitioning the input into contiguous chunks and assigning the chunks to
//! workers in round-robin order.

use crate::merge::combined;
use vstd::prelude::*;

verus! {

/// Why a sequence cannot be split as asked.
#[derive(Debug, Clone, Copy, PartialEq, Eq, Structural)]
pub enum ChunkError {
    /// Zero chunks were requested.
    NoChunks,
    /// More chunks were requested than there are values, so a chunk would be
    /// empty.
    EmptyChunk,
}

/// The common chunk size: the length divided by the chunk count, rounded
/// down.
pub open spec fn chunk_size(len: nat, num_chunks: nat) -> nat
    recommends
        num_chunks > 0,
{
    len / num_chunks
}

/// The error, if any, with which a split of `len` values into `num_chunks`
/// chunks is refused.
pub open spec fn split_error(len: nat, num_chunks: nat) -> Option<ChunkError> {
    if num_chunks == 0 {
        Some(ChunkError::NoChunks)
    } else if len / num_chunks == 0 {
        Some(ChunkError::EmptyChunk)
    } else {
        None
    }
}

/// Chunk number `i` of `v` split into `num_chunks` chunks: every chunk but
/// the last has the common size, and the last one runs to the end of `v`,
/// taking the remainder with it.
pub open spec fn chunk_at(v: Seq<i64>, num_chunks: nat, i: int) -> Seq<i64>
    recommends
        num_chunks > 0,
        0 <= i < num_chunks,
{
    let size = chunk_size(v.len(), num_chunks);
    if i + 1 < num_chunks {
        v.subrange(i * size, (i + 1) * size)
    } else {
        v.subrange(i * size, v.len() as int)
    }
}

/// The chunks laid end to end, in order.
pub open spec fn concat(chunks: Seq<Seq<i64>>) -> Seq<i64>
    decreases chunks.len(),
{
    if chunks.len() == 0 {
        Seq::<i64>::empty()
    } else {
        concat(chunks.drop_last()) + chunks.last()
    }
}

/// The contents of a vector of chunks.
pub open spec fn chunk_views(chunks: Seq<Vec<i64>>) -> Seq<Seq<i64>> {
    Seq::new(chunks.len(), |i: int| chunks[i]@)
}

/// The split of `v` into `num_chunks` chunks, as a sequence of sequences.
pub open spec fn split_spec(v: Seq<i64>, num_chunks: nat) -> Seq<Seq<i64>> {
    Seq::new(num_chunks, |i: int| chunk_at(v, num_chunks, i))
}

/// The bounds of every chunk lie inside the sequence.
pub proof fn lemma_chunk_bounds(len: nat, num_chunks: nat, i: int)
    requires
        num_chunks > 0,
        0 <= i < num_chunks,
    ensures
        0 <= i * chunk_size(len, num_chunks),
        (i + 1) * chunk_size(len, num_chunks) <= len,
        i * chunk_size(len, num_chunks) + chunk_size(len, num_chunks) == (i + 1) * chunk_size(
            len,
            num_chunks,
        ),
{
    let size = chunk_size(len, num_chunks);
    assert(size * num_chunks <= len) by (nonlinear_arith)
        requires
            size == len / num_chunks,
            num_chunks > 0,
    ;
    assert((i + 1) * size <= num_chunks * size) by (nonlinear_arith)
        requires
            0 <= i,
            i + 1 <= num_chunks,
            size >= 0,
    ;
    assert(0 <= i * size) by (nonlinear_arith)
        requires
            0 <= i,
            size >= 0,
    ;
    assert(i * size + size == (i + 1) * size) by (nonlinear_arith);
}

/// Laid end to end, the first `n` chunks of a split are the values before
/// the start of chunk `n`.
proof fn lemma_concat_prefix(v: Seq<i64>, num_chunks: nat, n: int)
    requires
        num_chunks > 0,
        0 <= n < num_chunks,
    ensures
        n * chunk_size(v.len(), num_chunks) <= v.len(),
        concat(split_spec(v, num_chunks).take(n)) == v.take(n * chunk_size(v.len(), num_chunks)),
    decreases n,
{
    let size = chunk_size(v.len(), num_chunks);
    let parts = split_spec(v, num_chunks);
    lemma_chunk_bounds(v.len(), num_chunks, n);
    if n == 0 {
        assert(n * size == 0) by (nonlinear_arith)
            requires
                n == 0,
        ;
        assert(concat(parts.take(0)) =~= v.take(0));
    } else {
        lemma_concat_prefix(v, num_chunks, n - 1);
        lemma_chunk_bounds(v.len(), num_chunks, n - 1);
        let lo = (n - 1) * size;
        let hi = n * size;
        assert(lo + size == hi && 0 <= lo && hi <= (n + 1) * size) by (nonlinear_arith)
            requires
                lo == (n - 1) * size,
                hi == n * size,
                n >= 1,
                size >= 0,
        ;
        assert(chunk_at(v, num_chunks, n - 1) == v.subrange(lo, hi));
        assert(parts.take(n).drop_last() =~= parts.take(n - 1));
        assert(parts.take(n).last() == chunk_at(v, num_chunks, n - 1));
        assert(v.take(lo) + v.subrange(lo, hi) =~= v.take(hi));
    }
}

/// The chunks of a split cover the sequence: there are exactly as many as
/// asked for, and laid end to end in order they are the sequence itself.
pub proof fn lemma_split_covers(v: Seq<i64>, num_chunks: nat)
    requires
        split_error(v.len(), num_chunks) is None,
    ensures
        split_spec(v, num_chunks).len() == num_chunks,
        concat(split_spec(v, num_chunks)) == v,
        forall|i: int|
            0 <= i < num_chunks - 1 ==> (#[trigger] split_spec(v, num_chunks)[i]).len()
                == chunk_size(v.len(), num_chunks),
        split_spec(v, num_chunks).last().len() == v.len() - (num_chunks - 1) * chunk_size(
            v.len(),
            num_chunks,
        ),
        split_spec(v, num_chunks).last().len() >= chunk_size(v.len(), num_chunks),
{
    let size = chunk_size(v.len(), num_chunks);
    let parts = split_spec(v, num_chunks);
    let n = num_chunks - 1;
    lemma_concat_prefix(v, num_chunks, n);
    lemma_chunk_bounds(v.len(), num_chunks, n);
    assert(parts.drop_last() =~= parts.take(n));
    assert(parts.last() == v.subrange(n * size, v.len() as int));
    assert(v.take(n * size) + v.subrange(n * size, v.len() as int) =~= v);
    assert forall|i: int| 0 <= i < num_chunks - 1 implies (#[trigger] parts[i]).len() == size by {
        lemma_chunk_bounds(v.len(), num_chunks, i);
    }
}

/// Laid end to end, chunks hold what they hold together.
pub proof fn lemma_combined_is_concat(chunks: Seq<Seq<i64>>)
    ensures
        concat(chunks).to_multiset() == combined(chunks),
    decreases chunks.len(),
{
    broadcast use vstd::multiset::group_multiset_axioms, vstd::seq_lib::group_to_multiset_ensures;
    if chunks.len() == 0 {
        assert(concat(chunks).to_multiset() =~= combined(chunks));
    } else {
        lemma_combined_is_concat(chunks.drop_last());
        vstd::seq_lib::lemma_multiset_commutative(concat(chunks.drop_last()), chunks.last());
    }
}

/// A copy of `v[start..end]`.
fn copy_range(v: &Vec<i64>, start: usize, end: usize) -> (out: Vec<i64>)
    requires
        start <= end <= v.len(),
    ensures
        out@ == v@.subrange(start as int, end as int),
{
    let mut out: Vec<i64> = Vec::new();
    let mut i: usize = start;
    while i < end
        invariant
            start <= i <= end <= v.len(),
            out@ == v@.subrange(start as int, i as int),
        decreases end - i,
    {
        out.push(v[i]);
        i += 1;
        proof {
            assert(out@ =~= v@.subrange(start as int, i as int));
        }
    }
    out
}

/// Splits `v` into exactly `num_chunks` contiguous chunks of
/// `v.len() / num_chunks` values each, the last chunk also taking the
/// remainder. Refuses a chunk count of zero and one larger than the number
/// of values.
pub fn split_vec(v: &Vec<i64>, num_chunks: usize) -> (result: Result<Vec<Vec<i64>>, ChunkError>)
    ensures
        match result {
            Ok(chunks) => {
                &&& split_error(v@.len(), num_chunks as nat) is None
                &&& chunk_views(chunks@) == split_spec(v@, num_chunks as nat)
                &&& chunks@.len() == num_chunks
                &&& concat(chunk_views(chunks@)) == v@
            },
            Err(e) => split_error(v@.len(), num_chunks as nat) == Some(e),
        },
{
    if num_chunks == 0 {
        return Err(ChunkError::NoChunks);
    }
    let size: usize = v.len() / num_chunks;
    if size == 0 {
        return Err(ChunkError::EmptyChunk);
    }
    let mut result: Vec<Vec<i64>> = Vec::new();
    let mut i: usize = 0;
    let mut start: usize = 0;
    while i + 1 < num_chunks
        invariant
            num_chunks > 0,
            size == chunk_size(v@.len(), num_chunks as nat),
            i < num_chunks,
            start == i * size,
            start <= v.len(),
            result@.len() == i,
            forall|k: int|
                0 <= k < i ==> (#[trigger] result@[k])@ == chunk_at(v@, num_chunks as nat, k),
        decreases num_chunks - i,
    {
        proof {
            lemma_chunk_bounds(v@.len(), num_chunks as nat, i as int);
            lemma_chunk_bounds(v@.len(), num_chunks as nat, i + 1);
        }
        let end: usize = start + size;
        let chunk = copy_range(v, start, end);
        result.push(chunk);
        start = end;
        i += 1;
    }
    let last = copy_range(v, start, v.len());
    result.push(last);
    proof {
        assert(chunk_views(result@) =~= split_spec(v@, num_chunks as nat));
        lemma_split_covers(v@, num_chunks as nat);
    }
    Ok(result)
}

/// The worker that chunk number `i` goes to when there are `workers` of them.
pub open spec fn assigned_worker(i: int, workers: nat) -> int
    recommends
        workers > 0,
{
    i % (workers as int)
}

/// Pairs the chunks with the actors in cyclic order: chunk `i` goes with
/// actor `i mod N`, whatever the chunk holds. Without actors nothing is
/// assigned.
pub fn round_robin_assign(actors: Vec<usize>, chunks: Vec<Vec<i64>>) -> (assignments: Vec<
    (usize, Vec<i64>),
>)
    ensures
        assignments@.len() == (if actors@.len() == 0 {
            0
        } else {
            chunks@.len()
        }),
        forall|i: int|
            0 <= i < assignments@.len() ==> (#[trigger] assignments@[i]).0 == actors@[assigned_worker(
                i,
                actors@.len(),
            )] && assignments@[i].1 == chunks@[i],
{
    let mut assignments: Vec<(usize, Vec<i64>)> = Vec::new();
    if actors.len() == 0 {
        return assignments;
    }
    let mut chunks = chunks;
    let ghost all = chunks@;
    let total = chunks.len();
    let mut next: usize = 0;
    let mut i: usize = 0;
    while i < total
        invariant
            actors@.len() > 0,
            total == all.len(),
            chunks@.len() == total,
            i <= total,
            next < actors.len(),
            next == assigned_worker(i as int, actors@.len()),
            assignments@.len() == i,
            forall|k: int| i <= k < total ==> chunks@[k] == all[k],
            forall|k: int|
                0 <= k < i ==> (#[trigger] assignments@[k]).0 == actors@[assigned_worker(
                    k,
                    actors@.len(),
                )] && assignments@[k].1 == all[k],
        decreases total - i,
    {
        let mut chunk: Vec<i64> = Vec::new();
        std::mem::swap(&mut chunk, &mut chunks[i]);
        assignments.push((actors[next], chunk));
        proof {
            lemma_next_worker(i as int, actors@.len());
        }
        i += 1;
        next = if next + 1 == actors.len() {
            0
        } else {
            next + 1
        };
    }
    assignments
}

/// Stepping to the next chunk steps to the next worker, wrapping round after
/// the last one.
proof fn lemma_next_worker(i: int, workers: nat)
    requires
        0 <= i,
        workers > 0,
    ensures
        0 <= assigned_worker(i, workers) < workers,
        assigned_worker(i + 1, workers) == (if assigned_worker(i, workers) + 1 == workers {
            0
        } else {
            assigned_worker(i, workers) + 1
        }),
{
    let n = workers as int;
    assert(0 <= i % n < n && (i + 1) % n == (if i % n + 1 == n {
        0
    } else {
        i % n + 1
    })) by (nonlinear_arith)
        requires
            0 <= i,
            n > 0,
    ;
}

} // verus!

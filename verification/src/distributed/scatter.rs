//! What a variable-count scatter from the root delivers.
//!
//! The root holds a buffer with one element for each global index. A scatter
//! with the counts and displacements of a distributed layout hands every rank
//! the elements of the indices it owns. Gathering the parts again in rank
//! order gives the buffer back.
use vstd::prelude::*;

verus! {

/// The part of `buffer` that a scatter delivers to rank `r` when the `n`
/// indices of the buffer are split over `p` ranks.
pub open spec fn rank_part<T>(buffer: Seq<T>, n: nat, p: nat, r: nat) -> Seq<T> {
    buffer.subrange(
        crate::partition::owned_offset(n, p, r) as int,
        (crate::partition::owned_offset(n, p, r) + crate::partition::owned_count(n, p, r)) as int,
    )
}

/// The parts of the ranks below `k`, one after the other in rank order.
pub open spec fn gathered_parts<T>(buffer: Seq<T>, n: nat, p: nat, k: nat) -> Seq<T>
    decreases k,
{
    if k == 0 {
        Seq::empty()
    } else {
        gathered_parts(buffer, n, p, (k - 1) as nat) + rank_part(buffer, n, p, (k - 1) as nat)
    }
}

/// The parts of the ranks below `k` make up the start of the buffer, up to
/// where rank `k` begins.
proof fn lemma_gathered_parts_are_a_prefix<T>(buffer: Seq<T>, p: nat, k: nat)
    requires
        p > 0,
        k <= p,
    ensures
        gathered_parts(buffer, buffer.len(), p, k) == buffer.subrange(
            0,
            crate::partition::owned_offset(buffer.len(), p, k) as int,
        ),
    decreases k,
{
    let n = buffer.len();
    if k > 0 {
        let j = (k - 1) as nat;
        lemma_gathered_parts_are_a_prefix(buffer, p, j);
        crate::partition::lemma_partition_is_contiguous(n, p, j);
        assert(buffer.subrange(0, crate::partition::owned_offset(n, p, j) as int) + rank_part(
            buffer,
            n,
            p,
            j,
        ) =~= buffer.subrange(0, crate::partition::owned_offset(n, p, k) as int));
    }
}

/// Scatter round trip: the parts that a scatter delivers to the ranks,
/// gathered in rank order, are the buffer that the root held.
pub proof fn lemma_scatter_round_trip<T>(buffer: Seq<T>, p: nat)
    requires
        p > 0,
    ensures
        gathered_parts(buffer, buffer.len(), p, p) == buffer,
{
    lemma_gathered_parts_are_a_prefix(buffer, p, p);
    crate::partition::lemma_partition_is_contiguous(buffer.len(), p, 0);
}

/// The element of a global index is found in the part of the rank that owns
/// the index, at the position of the index within the range of that rank.
pub proof fn lemma_part_holds_owned_elements<T>(buffer: Seq<T>, p: nat, r: nat, g: nat)
    requires
        p > 0,
        r < p,
        crate::partition::owns(buffer.len(), p, r, g),
    ensures
        g < buffer.len(),
        rank_part(buffer, buffer.len(), p, r).len() == crate::partition::owned_count(
            buffer.len(),
            p,
            r,
        ),
        rank_part(buffer, buffer.len(), p, r)[g - crate::partition::owned_offset(
            buffer.len(),
            p,
            r,
        )] == buffer[g as int],
{
    crate::partition::lemma_partition_is_contiguous(buffer.len(), p, r);
}

/// The elements that a scatter of `buffer` with the given counts and
/// displacements delivers to `rank`: `counts[rank]` elements from position
/// `displacements[rank]` on.
pub fn scatter_part<T: Copy>(
    buffer: &[T],
    counts: &[usize],
    displacements: &[usize],
    rank: usize,
) -> (part: Vec<T>)
    requires
        rank < counts@.len(),
        rank < displacements@.len(),
        displacements@[rank as int] + counts@[rank as int] <= buffer@.len(),
    ensures
        part@ == buffer@.subrange(
            displacements@[rank as int] as int,
            displacements@[rank as int] + counts@[rank as int],
        ),
{
    let first = displacements[rank];
    let count = counts[rank];
    let mut part: Vec<T> = Vec::with_capacity(count);
    let mut i: usize = 0;
    while i < count
        invariant
            i <= count,
            first + count <= buffer.len(),
            part@.len() == i,
            forall|j: int| 0 <= j < i ==> part@[j] == buffer@[first + j],
        decreases count - i,
    {
        part.push(buffer[first + i]);
        i += 1;
    }
    part
}

} // verus!

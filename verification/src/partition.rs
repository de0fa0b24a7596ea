//! The balanced partition of a contiguous index range over the ranks of a
//! process group.
//!
//! `n` indices are split over `p` ranks in increasing rank order. With at most
//! as many indices as ranks, the first `n` ranks own one index each and the
//! others own nothing. Otherwise every rank owns `n / p` indices and the first
//! `n % p` ranks own one more. The partition depends on `n` and `p` alone, so
//! every rank computes the same one without talking to the others.
use vstd::prelude::*;

verus! {

/// Number of indices that rank `r` owns when `n` indices are split over `p` ranks.
pub open spec fn owned_count(n: nat, p: nat, r: nat) -> nat {
    if n <= p {
        if r < n {
            1
        } else {
            0
        }
    } else if r < n % p {
        n / p + 1
    } else {
        n / p
    }
}

/// Number of indices owned by the ranks below `r`: the running total of the
/// counts, which is where the slice of rank `r` starts in the global order.
pub open spec fn owned_offset(n: nat, p: nat, r: nat) -> nat
    decreases r,
{
    if r == 0 {
        0
    } else {
        owned_offset(n, p, (r - 1) as nat) + owned_count(n, p, (r - 1) as nat)
    }
}

/// The running total of the counts in closed form.
pub open spec fn offset_formula(n: nat, p: nat, r: nat) -> nat {
    if n <= p {
        if r < n {
            r
        } else {
            n
        }
    } else if r < n % p {
        r * (n / p + 1)
    } else {
        r * (n / p) + n % p
    }
}

/// Whether rank `r` owns the index at position `g` of the global order.
pub open spec fn owns(n: nat, p: nat, r: nat, g: nat) -> bool {
    owned_offset(n, p, r) <= g < owned_offset(n, p, r) + owned_count(n, p, r)
}

/// The half-open range of global indices that rank `r` owns when `range` is
/// split over `p` ranks, or `None` where the rank owns nothing.
pub open spec fn rank_range(range: (usize, usize), p: usize, r: usize) -> Option<(usize, usize)> {
    let n = (range.1 - range.0) as nat;
    let first = range.0 + owned_offset(n, p as nat, r as nat);
    let count = owned_count(n, p as nat, r as nat);
    if count == 0 {
        None
    } else {
        Some((first as usize, (first + count) as usize))
    }
}

/// The number of indices in an owned range, zero where nothing is owned.
pub open spec fn range_width(range: Option<(usize, usize)>) -> int {
    match range {
        Some((first, last)) => last - first,
        None => 0,
    }
}

/// The running total of the counts equals its closed form.
pub proof fn lemma_offset_formula(n: nat, p: nat, r: nat)
    requires
        p > 0,
        r <= p,
    ensures
        owned_offset(n, p, r) == offset_formula(n, p, r),
    decreases r,
{
    if r > 0 {
        let k = (r - 1) as nat;
        lemma_offset_formula(n, p, k);
        if n > p {
            let c = n / p;
            let m = n % p;
            if k < m {
                assert((k + 1) * (c + 1) == k * (c + 1) + (c + 1)) by (nonlinear_arith);
                assert(k * (c + 1) == k * c + k) by (nonlinear_arith);
                assert((k + 1) * c == k * c + c) by (nonlinear_arith);
            } else {
                assert((k + 1) * c == k * c + c) by (nonlinear_arith);
            }
        }
    }
}

/// A higher rank never starts before a lower one.
pub proof fn lemma_offset_monotone(n: nat, p: nat, r1: nat, r2: nat)
    requires
        r1 <= r2,
    ensures
        owned_offset(n, p, r1) <= owned_offset(n, p, r2),
    decreases r2,
{
    if r1 < r2 {
        lemma_offset_monotone(n, p, r1, (r2 - 1) as nat);
    }
}

/// Partition completeness, first half: the slices follow each other without
/// gap or overlap, start at the beginning of the global order and end at its
/// end. The slice of rank `r` starts where the slice of rank `r - 1` ends, the
/// first starts at 0 and the last ends at `n`.
pub proof fn lemma_partition_is_contiguous(n: nat, p: nat, r: nat)
    requires
        p > 0,
        r < p,
    ensures
        owned_offset(n, p, 0) == 0,
        owned_offset(n, p, r + 1) == owned_offset(n, p, r) + owned_count(n, p, r),
        owned_offset(n, p, p) == n,
        owned_offset(n, p, r) + owned_count(n, p, r) <= n,
{
    lemma_offset_formula(n, p, p);
    if n > p {
        assert(n == p * (n / p) + n % p) by (nonlinear_arith)
            requires
                p > 0,
        ;
    }
    lemma_offset_monotone(n, p, r + 1, p);
}

/// Every index below the start of rank `k` is owned by a rank below `k`.
proof fn lemma_owner_below(n: nat, p: nat, g: nat, k: nat)
    requires
        g < owned_offset(n, p, k),
    ensures
        exists|r: nat| r < k && owns(n, p, r, g),
    decreases k,
{
    let j = (k - 1) as nat;
    if g >= owned_offset(n, p, j) {
        assert(owns(n, p, j, g));
    } else {
        lemma_owner_below(n, p, g, j);
        let r = choose|r: nat| r < j && owns(n, p, r, g);
        assert(r < k && owns(n, p, r, g));
    }
}

/// Partition completeness, second half: every index of the global order is
/// owned by exactly one rank.
pub proof fn lemma_index_has_one_owner(n: nat, p: nat, g: nat)
    requires
        p > 0,
        g < n,
    ensures
        exists|r: nat| r < p && owns(n, p, r, g),
        forall|r1: nat, r2: nat| owns(n, p, r1, g) && owns(n, p, r2, g) ==> r1 == r2,
{
    lemma_partition_is_contiguous(n, p, 0);
    lemma_owner_below(n, p, g, p);
    assert forall|r1: nat, r2: nat| owns(n, p, r1, g) && owns(n, p, r2, g) implies r1 == r2 by {
        if r1 < r2 {
            lemma_offset_monotone(n, p, r1 + 1, r2);
        }
        if r2 < r1 {
            lemma_offset_monotone(n, p, r2 + 1, r1);
        }
    }
}

/// Partition balance: no rank owns more than one index more than another.
pub proof fn lemma_partition_is_balanced(n: nat, p: nat, r1: nat, r2: nat)
    requires
        p > 0,
        r1 < p,
        r2 < p,
    ensures
        owned_count(n, p, r1) <= owned_count(n, p, r2) + 1,
{
}

/// Few indices: with at most as many indices as ranks, each of the first `n`
/// ranks owns the one index whose position is its rank, and the ranks from `n`
/// on own nothing.
pub proof fn lemma_few_indices(range: (usize, usize), p: usize, r: usize)
    requires
        range.0 <= range.1,
        range.1 - range.0 <= p,
        r < p,
    ensures
        r < range.1 - range.0 ==> rank_range(range, p, r) == Some(
            ((range.0 + r) as usize, (range.0 + r + 1) as usize),
        ),
        r >= range.1 - range.0 ==> rank_range(range, p, r).is_none(),
{
    lemma_offset_formula((range.1 - range.0) as nat, p as nat, r as nat);
}

/// An owned range lies inside the global range, is not empty, starts at the
/// rank's offset and is as wide as the rank's count.
pub proof fn lemma_rank_range_bounds(range: (usize, usize), p: usize, r: usize)
    requires
        range.0 <= range.1,
        r < p,
    ensures
        match rank_range(range, p, r) {
            Some((first, last)) => {
                &&& range.0 <= first < last <= range.1
                &&& first == range.0 + owned_offset((range.1 - range.0) as nat, p as nat, r as nat)
                &&& last - first == owned_count((range.1 - range.0) as nat, p as nat, r as nat)
            },
            None => owned_count((range.1 - range.0) as nat, p as nat, r as nat) == 0,
        },
{
    lemma_partition_is_contiguous((range.1 - range.0) as nat, p as nat, r as nat);
}

/// Whether the global index `g` lies in the owned range `range`.
pub open spec fn range_holds(range: Option<(usize, usize)>, g: usize) -> bool {
    match range {
        Some((first, last)) => first <= g < last,
        None => false,
    }
}

/// Partition completeness for ranges: every index of the global range lies in
/// the range of exactly one rank, so that the ranges of all ranks together are
/// the global range, without overlap and without gap.
pub proof fn lemma_ranges_partition_the_global_range(range: (usize, usize), p: usize, g: usize)
    requires
        p > 0,
        range.0 <= g < range.1,
    ensures
        exists|r: usize| r < p && range_holds(#[trigger] rank_range(range, p, r), g),
        forall|r1: usize, r2: usize|
            r1 < p && r2 < p && range_holds(#[trigger] rank_range(range, p, r1), g) && range_holds(
                #[trigger] rank_range(range, p, r2),
                g,
            ) ==> r1 == r2,
{
    let n = (range.1 - range.0) as nat;
    let position = (g - range.0) as nat;
    lemma_index_has_one_owner(n, p as nat, position);
    assert forall|r: usize| r < p implies (range_holds(#[trigger] rank_range(range, p, r), g)
        <==> owns(n, p as nat, r as nat, position)) by {
        lemma_rank_range_bounds(range, p, r);
    }
    let owner = choose|r: nat| r < p && owns(n, p as nat, r, position);
    assert(range_holds(rank_range(range, p, owner as usize), g));
}

/// An index that lies in the range of a rank lies in the global range.
pub proof fn lemma_ranges_stay_in_the_global_range(
    range: (usize, usize),
    p: usize,
    r: usize,
    g: usize,
)
    requires
        range.0 <= range.1,
        r < p,
        range_holds(rank_range(range, p, r), g),
    ensures
        range.0 <= g < range.1,
{
    lemma_rank_range_bounds(range, p, r);
}

/// Splits `range` over `process_count` ranks: entry `r` of the result is the
/// range that rank `r` owns, `None` where it owns nothing.
pub fn partition_ranges(range: (usize, usize), process_count: usize) -> (ranges: Vec<
    Option<(usize, usize)>,
>)
    requires
        range.0 <= range.1,
        process_count > 0,
    ensures
        ranges@.len() == process_count,
        forall|r: int|
            0 <= r < process_count ==> #[trigger] ranges@[r] == rank_range(
                range,
                process_count,
                r as usize,
            ),
{
    let number_of_global_indices: usize = range.1 - range.0;
    let ghost n = number_of_global_indices as nat;
    let ghost p = process_count as nat;
    let mut ranges: Vec<Option<(usize, usize)>> = Vec::with_capacity(process_count);

    if number_of_global_indices <= process_count {
        // Fewer indices than ranks: one index for each rank until none is
        // left, nothing for the others.
        let mut index: usize = range.0;
        while index < range.1
            invariant
                range.0 <= index <= range.1,
                n == range.1 - range.0,
                p == process_count,
                n <= p,
                ranges@.len() == index - range.0,
                forall|r: int|
                    0 <= r < ranges@.len() ==> #[trigger] ranges@[r] == rank_range(
                        range,
                        process_count,
                        r as usize,
                    ),
            decreases range.1 - index,
        {
            proof {
                lemma_few_indices(range, process_count, (index - range.0) as usize);
            }
            ranges.push(Some((index, index + 1)));
            index += 1;
        }
        let mut rank: usize = number_of_global_indices;
        while rank < process_count
            invariant
                number_of_global_indices <= rank <= process_count,
                range.0 <= range.1,
                number_of_global_indices == range.1 - range.0,
                ranges@.len() == rank,
                forall|r: int|
                    0 <= r < ranges@.len() ==> #[trigger] ranges@[r] == rank_range(
                        range,
                        process_count,
                        r as usize,
                    ),
            decreases process_count - rank,
        {
            proof {
                lemma_few_indices(range, process_count, rank);
            }
            ranges.push(None);
            rank += 1;
        }
    } else {
        // More indices than ranks: every rank gets `chunk` indices, and the
        // first `remainder` ranks get one more.
        let chunk: usize = number_of_global_indices / process_count;
        let remainder: usize = number_of_global_indices % process_count;
        let mut count: usize = range.0;
        let mut rank: usize = 0;
        while rank < process_count
            invariant
                rank <= process_count,
                range.0 <= range.1,
                n == range.1 - range.0,
                p == process_count,
                n > p > 0,
                chunk == n / p,
                remainder == n % p,
                count == range.0 + owned_offset(n, p, rank as nat),
                ranges@.len() == rank,
                forall|r: int|
                    0 <= r < ranges@.len() ==> #[trigger] ranges@[r] == rank_range(
                        range,
                        process_count,
                        r as usize,
                    ),
            decreases process_count - rank,
        {
            proof {
                lemma_partition_is_contiguous(n, p, rank as nat);
                assert(n / p >= 1) by (nonlinear_arith)
                    requires
                        n > p > 0,
                ;
            }
            let new_count: usize = if rank < remainder {
                count + chunk + 1
            } else {
                count + chunk
            };
            ranges.push(Some((count, new_count)));
            count = new_count;
            rank += 1;
        }
    }
    ranges
}

} // verus!

//! Bracket nesting arithmetic and the matching-bracket relation.
//!
//! The loader and the machine both reason about loop brackets through one
//! notion: the net nesting depth of a range of the program, where a
//! loop-start counts +1 and a loop-end counts -1. The machine's lazy scans
//! stop at the first position where a counter started at 1 reaches 0; the
//! relations below pin down exactly which position that is.

use vstd::prelude::*;

verus! {

/// Contribution of one character to the bracket nesting depth.
pub open spec fn bracket_delta(c: char) -> int {
    if c == '[' {
        1
    } else if c == ']' {
        -1
    } else {
        0
    }
}

/// Net nesting depth of the half-open range `[i, j)` of `p`.
pub open spec fn net(p: Seq<char>, i: int, j: int) -> int
    recommends
        0 <= i,
        j <= p.len(),
    decreases j - i,
{
    if i >= j {
        0
    } else {
        net(p, i, j - 1) + bracket_delta(p[j - 1])
    }
}

/// Net nesting depth of a whole character sequence.
pub open spec fn net_depth(p: Seq<char>) -> int {
    net(p, 0, p.len() as int)
}

/// `net` can also be unfolded at its left end.
pub proof fn lemma_net_unfold_left(p: Seq<char>, i: int, j: int)
    requires
        0 <= i < j <= p.len(),
    ensures
        net(p, i, j) == bracket_delta(p[i]) + net(p, i + 1, j),
    decreases j - i,
{
    if i + 1 == j {
        assert(net(p, i, j) == net(p, i, i) + bracket_delta(p[i]));
        assert(net(p, i + 1, j) == 0);
    } else {
        lemma_net_unfold_left(p, i, j - 1);
        assert(net(p, i, j) == net(p, i, j - 1) + bracket_delta(p[j - 1]));
        assert(net(p, i + 1, j) == net(p, i + 1, j - 1) + bracket_delta(p[j - 1]));
    }
}

/// The net depth of a range is bounded by the range's width.
pub proof fn lemma_net_bounds(p: Seq<char>, i: int, j: int)
    requires
        0 <= i <= j <= p.len(),
    ensures
        -(j - i) <= net(p, i, j) <= j - i,
    decreases j - i,
{
    if i < j {
        lemma_net_bounds(p, i, j - 1);
    }
}

/// `net` only looks at the characters inside the range, so two sequences
/// that agree there have the same net depth.
pub proof fn lemma_net_same_range(p: Seq<char>, q: Seq<char>, i: int, j: int)
    requires
        0 <= i,
        j <= p.len(),
        j <= q.len(),
        forall|k: int| i <= k < j ==> p[k] == q[k],
    ensures
        net(p, i, j) == net(q, i, j),
    decreases j - i,
{
    if i < j {
        lemma_net_same_range(p, q, i, j - 1);
    }
}

/// Position `j` is where a forward scan from the loop-start at `i` stops:
/// a counter started at 1 just after `i` first returns to 0 at `j`.
/// This is the matching loop-end of `i`.
pub open spec fn fwd_match_at(p: Seq<char>, i: int, j: int) -> bool {
    &&& i < j < p.len()
    &&& 1 + net(p, i + 1, j + 1) == 0
    &&& forall|k: int| i < k < j ==> 1 + #[trigger] net(p, i + 1, k + 1) != 0
}

/// The loop-start at `i` has a matching loop-end somewhere in `p`.
pub open spec fn has_fwd_match(p: Seq<char>, i: int) -> bool {
    exists|j: int| fwd_match_at(p, i, j)
}

/// The position of the matching loop-end of the loop-start at `i`.
pub open spec fn fwd_match(p: Seq<char>, i: int) -> int {
    choose|j: int| fwd_match_at(p, i, j)
}

/// Position `j` is where a backward scan from the loop-end at `i` stops:
/// a counter started at 1 just before `i` first returns to 0 at `j`.
/// This is the matching loop-start of `i`.
pub open spec fn bwd_match_at(p: Seq<char>, i: int, j: int) -> bool {
    &&& 0 <= j < i
    &&& net(p, j, i) == 1
    &&& forall|k: int| j < k < i ==> #[trigger] net(p, k, i) != 1
}

/// The loop-end at `i` has a matching loop-start somewhere in `p`.
pub open spec fn has_bwd_match(p: Seq<char>, i: int) -> bool {
    exists|j: int| bwd_match_at(p, i, j)
}

/// The position of the matching loop-start of the loop-end at `i`.
pub open spec fn bwd_match(p: Seq<char>, i: int) -> int {
    choose|j: int| bwd_match_at(p, i, j)
}

/// A loop-start has at most one matching position.
pub proof fn lemma_fwd_match_unique(p: Seq<char>, i: int, j1: int, j2: int)
    requires
        fwd_match_at(p, i, j1),
        fwd_match_at(p, i, j2),
    ensures
        j1 == j2,
{
    if j1 < j2 {
        assert(1 + net(p, i + 1, j1 + 1) != 0);
    } else if j2 < j1 {
        assert(1 + net(p, i + 1, j2 + 1) != 0);
    }
}

/// A witness for the forward match pins down `fwd_match` itself.
pub proof fn lemma_fwd_match_is(p: Seq<char>, i: int, j: int)
    requires
        fwd_match_at(p, i, j),
    ensures
        has_fwd_match(p, i),
        fwd_match(p, i) == j,
{
    assert(has_fwd_match(p, i));
    lemma_fwd_match_unique(p, i, j, fwd_match(p, i));
}

/// A loop-end has at most one matching position.
pub proof fn lemma_bwd_match_unique(p: Seq<char>, i: int, j1: int, j2: int)
    requires
        bwd_match_at(p, i, j1),
        bwd_match_at(p, i, j2),
    ensures
        j1 == j2,
{
    if j1 < j2 {
        assert(net(p, j2, i) != 1);
    } else if j2 < j1 {
        assert(net(p, j1, i) != 1);
    }
}

/// A witness for the backward match pins down `bwd_match` itself.
pub proof fn lemma_bwd_match_is(p: Seq<char>, i: int, j: int)
    requires
        bwd_match_at(p, i, j),
    ensures
        has_bwd_match(p, i),
        bwd_match(p, i) == j,
{
    assert(has_bwd_match(p, i));
    lemma_bwd_match_unique(p, i, j, bwd_match(p, i));
}

} // verus!

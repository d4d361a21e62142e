//! Who sends to whom in the two communication patterns.
use crate::algebra::sum;
use crate::dkg::network::{ceil_log2, law_ceil_log2, links, links_upto, TreeGossip};
use crate::sim::tree::{height, hits, pair_hits, width};
use vstd::arithmetic::power2::pow2;
use vstd::prelude::*;

verus! {

proof fn lemma_link(n: int, from: int, to: int, i: int, j: int)
    requires
        0 <= from <= n <= usize::MAX,
        0 <= to <= n,
        from == n ==> to == 0,
        0 <= i < n,
        0 <= j < n,
        i != j,
        i < from || (i == from && j < to),
    ensures
        ({
            let at = i * (n - 1) + if j > i {
                j - 1
            } else {
                j
            };
            &&& 0 <= at < links_upto(n, from, to).len()
            &&& links_upto(n, from, to)[at] == (i as usize, j as usize)
        }),
        links_upto(n, from, to).len() == from * (n - 1) + to - if from < to {
            1int
        } else {
            0
        },
    decreases from, to,
{
    lemma_links_len(n, from, to);
    if to == 0 {
        lemma_link(n, from - 1, n, i, j);
    } else {
        let rest = links_upto(n, from, to - 1);
        lemma_links_len(n, from, to - 1);
        if i == from && j == to - 1 {
            assert(links_upto(n, from, to) == rest.push((i as usize, j as usize)));
            assert(0 <= from * (n - 1)) by (nonlinear_arith)
                requires
                    0 <= from,
                    n >= 1,
            ;
        } else {
            lemma_link(n, from, to - 1, i, j);
        }
    }
}

proof fn lemma_links_len(n: int, from: int, to: int)
    requires
        0 <= from <= n,
        0 <= to <= n,
        from == n ==> to == 0,
    ensures
        links_upto(n, from, to).len() == from * (n - 1) + to - if from < to {
            1int
        } else {
            0
        },
    decreases from, to,
{
    if from == 0 && to == 0 {
        assert(0 * (n - 1) == 0) by (nonlinear_arith);
    } else if to == 0 {
        lemma_links_len(n, from - 1, n);
        assert((from - 1) * (n - 1) + n - 1 == from * (n - 1)) by (nonlinear_arith);
    } else {
        lemma_links_len(n, from, to - 1);
    }
}

/// In the all-to-all pattern every node sends to every other one: the links of a node stand together,
/// in the order of the nodes, and so do the links to its peers.
pub proof fn law_every_link(n: int, i: int, j: int)
    requires
        0 <= i < n <= usize::MAX,
        0 <= j < n,
        i != j,
    ensures
        j < i ==> links(n)[i * (n - 1) + j] == (i as usize, j as usize),
        j > i ==> links(n)[i * (n - 1) + j - 1] == (i as usize, j as usize),
        links(n).contains((i as usize, j as usize)),
{
    lemma_link(n, n, 0, i, j);
}

/// The participant at the end of the node at place `j` of level `k`.
pub open spec fn end_of(n: int, k: nat, j: int) -> int {
    if (j + 1) * pow2(k) <= n {
        (j + 1) * pow2(k) - 1
    } else {
        n - 1
    }
}

proof fn lemma_pairs(n: int, k: nat, i: int, side: int, p: int)
    requires
        p >= 0,
    ensures
        pair_hits(n, k, i, side, p) == sum(
            |q: int|
                if end_of(n, k, 2 * q + side) == i {
                    1int
                } else {
                    0
                },
            0,
            p,
        ),
    decreases p,
{
    if p > 0 {
        lemma_pairs(n, k, i, side, p - 1);
    }
}

/// How often participant `i` is at the end of the left, or of the right, node of a pair of level `k`.
pub open spec fn at_ends(n: int, k: nat, i: int, side: int) -> int {
    sum(
        |q: int|
            if end_of(n, k, 2 * q + side) == i {
                1int
            } else {
                0
            },
        0,
        width(n, k) / 2,
    )
}

/// Up the tree a participant sends for every pair whose left node it ends, and receives for every pair
/// whose right node it ends, level after level.
pub proof fn law_gossip(n: int, i: int, levels: nat)
    requires
        n >= 1,
    ensures
        hits(n, i, 0, levels as int) == sum(|k: int| at_ends(n, k as nat, i, 0), 0, levels as int),
        hits(n, i, 1, levels as int) == sum(|k: int| at_ends(n, k as nat, i, 1), 0, levels as int),
    decreases levels,
{
    if levels > 0 {
        let k = (levels - 1) as nat;
        law_gossip(n, i, k);
        crate::sim::tree::lemma_width(n, k);
        lemma_pairs(n, k, i, 0, width(n, k) / 2);
        lemma_pairs(n, k, i, 1, width(n, k) / 2);
    }
}

/// The first participant never receives a transcript.
pub proof fn law_first_receives_nothing(n: int, levels: nat)
    requires
        n >= 2,
    ensures
        hits(n, 0, 1, levels as int) == 0,
    decreases levels,
{
    if levels > 0 {
        let k = (levels - 1) as nat;
        law_first_receives_nothing(n, k);
        crate::sim::tree::lemma_width(n, k);
        lemma_no_hits(n, k, width(n, k) / 2);
    }
}

proof fn lemma_no_hits(n: int, k: nat, p: int)
    requires
        n >= 2,
        p >= 0,
    ensures
        pair_hits(n, k, 0, 1, p) == 0,
    decreases p,
{
    if p > 0 {
        lemma_no_hits(n, k, p - 1);
        vstd::arithmetic::power2::lemma_pow2_pos(k);
        assert((2 * (p - 1) + 2) * pow2(k) >= 2) by (nonlinear_arith)
            requires
                p >= 1,
                pow2(k) >= 1,
        ;
    }
}

/// An aggregation that has come down to one node has delivered one message fewer than it has leaves,
/// all of the same size, in as many rounds as the number of leaves is halved until one is left.
pub proof fn law_gossip_cost(g: TreeGossip, n: int, payload: int, k: nat)
    requires
        n >= 1,
        g.on_course(n, payload),
        g.active == 1,
    ensures
        g.tally.messages == n - 1,
        g.tally.bytes == (n - 1) * payload,
        n <= pow2(g.rounds as nat),
        n <= pow2(k) ==> g.rounds <= k,
{
    assert(ceil_log2(1) == 0);
    law_height(n, k);
}

/// The tree has one level more than the least number of halvings that leave one node.
pub proof fn law_height(n: int, k: nat)
    requires
        n >= 1,
    ensures
        n <= pow2((height(n) - 1) as nat),
        n <= pow2(k) ==> height(n) - 1 <= k,
{
    law_ceil_log2(n);
    if n <= pow2(k) && ceil_log2(n) > k {
        if n > 1 {
            let h = (ceil_log2(n) - 1) as nat;
            if k < h {
                vstd::arithmetic::power2::lemma_pow2_strictly_increases(k, h);
            }
        }
    }
}

} // verus!

//! The binary tree along which transcripts of the layer for `z` are folded.
//!
//! The leaves are the participants. On each level neighbours are merged in pairs, the left sending
//! to the right, and an odd last node is carried up. The node at position `j` of level `k` thus
//! covers the participants from `j 2^k` on, `2^k` of them or up to the last, and its aggregator is
//! the rightmost of these.
use crate::algebra::{lemma_sum_linear, sum};
use crate::collections::copied;
use crate::dkg::network::{ceil_log2, law_ceil_log2};
use vstd::arithmetic::div_mod::{
    lemma_div_pos_is_pos, lemma_fundamental_div_mod, lemma_fundamental_div_mod_converse,
    lemma_small_mod,
};
use vstd::arithmetic::power2::{lemma2_to64, lemma_pow2_pos, lemma_pow2_unfold, pow2};
use vstd::prelude::*;

verus! {

/// One node of the tree.
pub struct ZTreePlanNode {
    /// The participants whose shares are combined in this subtree.
    pub real: Vec<usize>,
    /// The rightmost of them, which receives the transcripts from the left.
    pub aggregator: Option<usize>,
}

/// How many nodes level `k` has.
pub open spec fn width(n: int, k: nat) -> int
    decreases k,
{
    if k == 0 {
        n
    } else {
        (width(n, (k - 1) as nat) + 1) / 2
    }
}

/// How many levels the tree over `n` participants has.
pub open spec fn height(n: int) -> int {
    ceil_log2(n) + 1
}

/// The first participant of the node at position `j` of level `k`.
pub open spec fn low(k: nat, j: int) -> int {
    j * pow2(k)
}

/// The participant after the last of the node at position `j` of level `k`.
pub open spec fn high(n: int, k: nat, j: int) -> int {
    if (j + 1) * pow2(k) <= n {
        (j + 1) * pow2(k)
    } else {
        n
    }
}

/// The participants from `lo` to before `hi`.
pub open spec fn span(lo: int, hi: int) -> Seq<usize> {
    Seq::new((hi - lo) as nat, |i: int| (lo + i) as usize)
}

/// What the node at position `j` of level `k` is.
pub open spec fn is_node(node: ZTreePlanNode, n: int, k: nat, j: int) -> bool {
    &&& node.real@ == span(low(k, j), high(n, k, j))
    &&& node.aggregator == Some((high(n, k, j) - 1) as usize)
}

/// The nodes are those of level `k`.
pub open spec fn is_level(nodes: Seq<ZTreePlanNode>, n: int, k: nat) -> bool {
    &&& nodes.len() == width(n, k)
    &&& forall|j: int| 0 <= j < nodes.len() ==> is_node(#[trigger] nodes[j], n, k, j)
}

/// The levels are those of the tree over `n` participants.
pub open spec fn is_plan(plan: Seq<Vec<ZTreePlanNode>>, n: int) -> bool {
    &&& plan.len() == height(n)
    &&& forall|k: int| 0 <= k < plan.len() ==> is_level((#[trigger] plan[k])@, n, k as nat)
}

/// The nodes of a level cover the participants, each of them some.
pub proof fn lemma_width(n: int, k: nat)
    requires
        n >= 1,
    ensures
        1 <= width(n, k) <= n,
        (width(n, k) - 1) * pow2(k) < n <= width(n, k) * pow2(k),
    decreases k,
{
    lemma_pow2_pos(k);
    if k == 0 {
        lemma2_to64();
    } else {
        let q = (k - 1) as nat;
        lemma_width(n, q);
        lemma_pow2_pos(q);
        lemma_pow2_unfold(k);
        let (v, w, p) = (width(n, q), width(n, k), pow2(q) as int);
        assert(2 * w >= v && 2 * (w - 1) <= v - 1);
        assert((w - 1) * (2 * p) <= (v - 1) * p) by (nonlinear_arith)
            requires
                2 * (w - 1) <= v - 1,
                p > 0,
        ;
        assert(v * p <= w * (2 * p)) by (nonlinear_arith)
            requires
                2 * w >= v,
                p > 0,
        ;
    }
}

/// What remains to be merged shrinks as the number of levels says.
proof fn lemma_height(n: int, k: nat)
    requires
        n >= 1,
        k <= ceil_log2(n),
    ensures
        ceil_log2(width(n, k)) == ceil_log2(n) - k,
    decreases k,
{
    if k > 0 {
        let q = (k - 1) as nat;
        lemma_height(n, q);
        lemma_width(n, q);
        let v = width(n, q);
        assert(v > 1);
        assert(v - v / 2 == (v + 1) / 2);
    }
}

/// A copy of a node.
fn copy_node(node: &ZTreePlanNode) -> (r: ZTreePlanNode)
    ensures
        r.real@ == node.real@,
        r.aggregator == node.aggregator,
{
    ZTreePlanNode { real: copied(&node.real), aggregator: node.aggregator }
}

/// Two neighbours merged.
proof fn lemma_merge(n: int, k: nat, j: int)
    requires
        n >= 1,
        0 <= j,
        2 * j + 1 < width(n, k),
    ensures
        low(k + 1, j) == low(k, 2 * j),
        high(n, k, 2 * j) == low(k, 2 * j + 1),
        low(k, 2 * j) < low(k, 2 * j + 1) < high(n, k, 2 * j + 1),
        high(n, k + 1, j) == high(n, k, 2 * j + 1),
        span(low(k, 2 * j), high(n, k, 2 * j)) + span(low(k, 2 * j + 1), high(n, k, 2 * j + 1))
            == span(low(k + 1, j), high(n, k + 1, j)),
{
    lemma_width(n, k);
    lemma_pow2_pos(k);
    lemma_pow2_unfold(k + 1);
    let (p, w) = (pow2(k) as int, width(n, k));
    assert(j * (2 * p) == 2 * j * p) by (nonlinear_arith);
    assert((j + 1) * (2 * p) == (2 * j + 1 + 1) * p) by (nonlinear_arith);
    assert((2 * j + 1) * p == 2 * j * p + p) by (nonlinear_arith);
    assert((2 * j + 1 + 1) * p == (2 * j + 1) * p + p) by (nonlinear_arith);
    assert((2 * j + 1) * p <= (w - 1) * p) by (nonlinear_arith)
        requires
            2 * j + 1 <= w - 1,
            p > 0,
    ;
    let (a, b, c) = (low(k, 2 * j), low(k, 2 * j + 1), high(n, k, 2 * j + 1));
    assert(span(a, b) + span(b, c) =~= span(a, c));
}

/// An odd last node is carried up as it is.
proof fn lemma_carry(n: int, k: nat, j: int)
    requires
        n >= 1,
        0 <= j,
        2 * j + 1 == width(n, k),
    ensures
        low(k + 1, j) == low(k, 2 * j),
        low(k, 2 * j) < n,
        high(n, k, 2 * j) == n,
        high(n, k + 1, j) == n,
{
    lemma_width(n, k);
    lemma_pow2_pos(k);
    lemma_pow2_unfold(k + 1);
    let p = pow2(k) as int;
    assert(j * (2 * p) == 2 * j * p) by (nonlinear_arith);
    assert((j + 1) * (2 * p) == (2 * j + 1) * p + p) by (nonlinear_arith);
}

/// The level above a level.
fn merge_level(nodes: &Vec<ZTreePlanNode>, Ghost(n): Ghost<int>, Ghost(k): Ghost<nat>) -> (r: Vec<
    ZTreePlanNode,
>)
    requires
        1 <= n <= usize::MAX,
        is_level(nodes@, n, k),
        nodes.len() < usize::MAX,
    ensures
        is_level(r@, n, k + 1),
{
    let mut next: Vec<ZTreePlanNode> = Vec::new();
    let mut i: usize = 0;
    proof {
        lemma_width(n, k);
    }
    while i < nodes.len()
        invariant
            1 <= n <= usize::MAX,
            is_level(nodes@, n, k),
            nodes.len() < usize::MAX,
            nodes.len() == width(n, k),
            i <= nodes.len(),
            i % 2 == 0 || i == nodes.len(),
            next.len() == (i + 1) / 2,
            forall|j: int| 0 <= j < next.len() ==> is_node(#[trigger] next[j], n, k + 1, j),
        decreases nodes.len() - i,
    {
        let ghost j = (i / 2) as int;
        if i + 1 < nodes.len() {
            let mut covered = copied(&nodes[i].real);
            let mut right = copied(&nodes[i + 1].real);
            let aggregator = nodes[i + 1].aggregator;
            proof {
                lemma_merge(n, k, j);
                assert(is_node(nodes[i as int], n, k, 2 * j));
                assert(is_node(nodes[i + 1], n, k, 2 * j + 1));
            }
            covered.append(&mut right);
            let node = ZTreePlanNode { real: covered, aggregator };
            assert(is_node(node, n, k + 1, j));
            next.push(node);
            i = i + 2;
        } else {
            proof {
                lemma_carry(n, k, j);
                assert(is_node(nodes[i as int], n, k, 2 * j));
            }
            let node = copy_node(&nodes[i]);
            assert(is_node(node, n, k + 1, j));
            next.push(node);
            i = i + 1;
        }
    }
    next
}

/// Builds the tree over `n` participants, level by level from the leaves.
pub fn build_z_tree_plan(n: usize) -> (plan: Vec<Vec<ZTreePlanNode>>)
    requires
        1 <= n < usize::MAX,
    ensures
        is_plan(plan@, n as int),
{
    let mut leaves: Vec<ZTreePlanNode> = Vec::new();
    proof {
        lemma2_to64();
    }
    for i in 0..n
        invariant
            pow2(0) == 1,
            leaves.len() == i,
            forall|j: int| 0 <= j < i ==> is_node(#[trigger] leaves[j], n as int, 0, j),
    {
        let mut covered: Vec<usize> = Vec::new();
        covered.push(i);
        let node = ZTreePlanNode { real: covered, aggregator: Some(i) };
        assert(low(0, i as int) == i && high(n as int, 0, i as int) == i + 1);
        assert(node.real@ =~= span(i as int, i + 1));
        leaves.push(node);
    }
    let mut plan: Vec<Vec<ZTreePlanNode>> = Vec::new();
    plan.push(leaves);
    let ghost mut k: nat = 0;
    assert(is_level(plan[0]@, n as int, 0));
    proof {
        law_ceil_log2(n as int);
    }
    while plan[plan.len() - 1].len() > 1
        invariant
            1 <= n < usize::MAX,
            plan.len() == k + 1,
            k <= ceil_log2(n as int),
            forall|q: int|
                0 <= q < plan.len() ==> is_level((#[trigger] plan[q])@, n as int, q as nat),
        decreases ceil_log2(n as int) - k,
    {
        let top = plan.len() - 1;
        proof {
            lemma_width(n as int, k);
            lemma_height(n as int, k);
            assert(is_level(plan[k as int]@, n as int, k));
            let w = width(n as int, k);
            law_ceil_log2(w - w / 2);
        }
        let next = merge_level(&plan[top], Ghost(n as int), Ghost(k));
        plan.push(next);
        proof {
            k = k + 1;
        }
    }
    proof {
        lemma_width(n as int, k);
        lemma_height(n as int, k);
        assert(is_level(plan[k as int]@, n as int, k));
    }
    plan
}

/// The tree ends in one root, which covers everybody and whose aggregator is the last participant.
pub proof fn law_root(n: int)
    requires
        n >= 1,
    ensures
        height(n) >= 1,
        width(n, (height(n) - 1) as nat) == 1,
        low((height(n) - 1) as nat, 0) == 0,
        high(n, (height(n) - 1) as nat, 0) == n,
{
    let k = (height(n) - 1) as nat;
    law_ceil_log2(n);
    lemma_height(n, k);
    lemma_width(n, k);
    let w = width(n, k);
    if w > 1 {
        law_ceil_log2(w);
        assert(ceil_log2(w) == 1 + ceil_log2(w - w / 2));
        law_ceil_log2(w - w / 2);
    }
    assert(0 * pow2(k) == 0);
    assert(1 * pow2(k) == pow2(k));
}

/// The aggregator of the root: the participant that ends up with the folded transcript. `None` before
/// the tree is built.
pub fn z_root(plan: &Vec<Vec<ZTreePlanNode>>, n: usize) -> (r: Option<usize>)
    requires
        n >= 1,
        plan.len() == 0 || is_plan(plan@, n as int),
    ensures
        r == if plan.len() == 0 {
            None
        } else {
            Some((n - 1) as usize)
        },
{
    if plan.len() == 0 {
        return None;
    }
    proof {
        law_root(n as int);
        assert(is_level(plan[plan.len() - 1]@, n as int, (plan.len() - 1) as nat));
        assert(is_node(plan[plan.len() - 1]@[0], n as int, (plan.len() - 1) as nat, 0));
    }
    plan[plan.len() - 1][0].aggregator
}

/// How many of the first `p` merged pairs of level `k` have participant `i` as the aggregator of
/// their left (`side` is 0) or right (`side` is 1) node.
pub open spec fn pair_hits(n: int, k: nat, i: int, side: int, p: int) -> int
    decreases p,
{
    if p <= 0 {
        0
    } else {
        pair_hits(n, k, i, side, p - 1) + if high(n, k, 2 * (p - 1) + side) - 1 == i {
            1int
        } else {
            0
        }
    }
}

/// The same over all pairs of the first `levels` levels.
pub open spec fn hits(n: int, i: int, side: int, levels: int) -> int
    decreases levels,
{
    if levels <= 0 {
        0
    } else {
        hits(n, i, side, levels - 1) + pair_hits(
            n,
            (levels - 1) as nat,
            i,
            side,
            width(n, (levels - 1) as nat) / 2,
        )
    }
}

/// On a level a participant sends where the nodes up to and with its own are an odd number of full
/// ones.
proof fn lemma_pair_sends(n: int, k: nat, i: int, p: int)
    requires
        n >= 1,
        0 <= i < n,
        0 <= p <= width(n, k) / 2,
    ensures
        pair_hits(n, k, i, 0, p) == if (i + 1) % (pow2(k) as int) == 0 && ((i + 1) / (
        pow2(k) as int)) % 2 == 1 && (i + 1) / (pow2(k) as int) < 2 * p {
            1int
        } else {
            0
        },
    decreases p,
{
    let w = pow2(k) as int;
    lemma_pow2_pos(k);
    lemma_fundamental_div_mod(i + 1, w);
    if p > 0 {
        lemma_pair_sends(n, k, i, p - 1);
        lemma_width(n, k);
        let odd = 2 * p - 1;
        // The left node is full: it ends where `odd` full nodes do.
        assert(odd * w < n) by (nonlinear_arith)
            requires
                odd <= width(n, k) - 1,
                (width(n, k) - 1) * w < n,
                w > 0,
        ;
        assert(high(n, k, 2 * (p - 1)) == odd * w);
        if i + 1 == odd * w {
            lemma_fundamental_div_mod_converse(i + 1, w, odd, 0);
        }
        let c = (i + 1) / w;
        if (i + 1) % w == 0 && c == odd {
            assert(i + 1 == odd * w) by (nonlinear_arith)
                requires
                    i + 1 == w * c,
                    c == odd,
            ;
        }
    } else {
        lemma_div_pos_is_pos(i + 1, w);
    }
}

/// Divisibility by twice a number: divisibility by the number, with an even quotient.
proof fn lemma_double_divides(x: int, w: int)
    requires
        w > 0,
    ensures
        x % (2 * w) == 0 <==> x % w == 0 && (x / w) % 2 == 0,
{
    lemma_fundamental_div_mod(x, w);
    lemma_fundamental_div_mod(x, 2 * w);
    if x % (2 * w) == 0 {
        let q = x / (2 * w);
        assert(x == (2 * q) * w) by (nonlinear_arith)
            requires
                x == (2 * w) * q,
        ;
        lemma_fundamental_div_mod_converse(x, w, 2 * q, 0);
    }
    if x % w == 0 && (x / w) % 2 == 0 {
        let h = (x / w) / 2;
        let c = x / w;
        assert(c == 2 * h);
        assert(x == h * (2 * w)) by (nonlinear_arith)
            requires
                x == w * c,
                c == 2 * h,
        ;
        lemma_fundamental_div_mod_converse(x, 2 * w, h, 0);
    }
}

/// Up to a level, a participant other than the last has sent unless it still aggregates there.
proof fn lemma_sends(n: int, i: int, levels: nat)
    requires
        0 <= i < n,
    ensures
        hits(n, i, 0, levels as int) == if i == n - 1 || (i + 1) % (pow2(levels) as int) == 0 {
            0int
        } else {
            1
        },
    decreases levels,
{
    if levels == 0 {
        lemma2_to64();
    } else {
        let k = (levels - 1) as nat;
        let w = pow2(k) as int;
        lemma_sends(n, i, k);
        lemma_pow2_pos(k);
        lemma_pow2_unfold(levels);
        lemma_width(n, k);
        let half = width(n, k) / 2;
        lemma_pair_sends(n, k, i, half);
        lemma_double_divides(i + 1, w);
        lemma_fundamental_div_mod(i + 1, w);
        let (c, v) = ((i + 1) / w, width(n, k));
        if (i + 1) % w == 0 && c % 2 == 1 {
            if i == n - 1 {
                assert(c >= v) by (nonlinear_arith)
                    requires
                        w * c > (v - 1) * w,
                        w > 0,
                ;
                assert(c >= 2 * half);
            } else {
                assert(c < v) by (nonlinear_arith)
                    requires
                        w * c < v * w,
                        w > 0,
                ;
                assert(c < 2 * half);
            }
        }
    }
}

/// Up the whole tree every participant but the last, who is the root, sends exactly one partial
/// transcript.
pub proof fn law_everybody_sends_once(n: int, i: int)
    requires
        0 <= i < n,
    ensures
        hits(n, i, 0, height(n) - 1) == if i == n - 1 {
            0int
        } else {
            1
        },
{
    let k = (height(n) - 1) as nat;
    law_root(n);
    lemma_sends(n, i, k);
    lemma_width(n, k);
    if i < n - 1 {
        lemma_small_mod((i + 1) as nat, pow2(k));
    }
}

/// A single participant stands at a given place.
proof fn lemma_sum_single(x: int, n: int)
    requires
        0 <= n,
    ensures
        sum(
            |i: int|
                if x == i {
                    1int
                } else {
                    0
                },
            0,
            n,
        ) == if 0 <= x < n {
            1int
        } else {
            0
        },
    decreases n,
{
    if n > 0 {
        lemma_sum_single(x, n - 1);
    }
}

/// On a level every pair makes one message.
proof fn lemma_level_total(n: int, k: nat, side: int, p: int)
    requires
        n >= 1,
        side == 0 || side == 1,
        0 <= p <= width(n, k) / 2,
    ensures
        sum(|i: int| pair_hits(n, k, i, side, p), 0, n) == p,
    decreases p,
{
    let now = |i: int| pair_hits(n, k, i, side, p);
    if p == 0 {
        lemma_sum_linear(now, now, now, 0, 0, 0, n);
        assert(0 * sum(now, 0, n) == 0) by (nonlinear_arith);
    } else {
        let x = high(n, k, 2 * (p - 1) + side) - 1;
        let before = |i: int| pair_hits(n, k, i, side, p - 1);
        let here = |i: int|
            if x == i {
                1int
            } else {
                0
            };
        lemma_level_total(n, k, side, p - 1);
        lemma_high(n, k, 2 * (p - 1) + side);
        lemma_sum_single(x, n);
        assert forall|i: int| 0 <= i < n implies #[trigger] now(i) == 1 * before(i) + 1 * here(
            i,
        ) by {
        }
        lemma_sum_linear(before, here, now, 1, 1, 0, n);
    }
}

/// Up to a level, all participants together have sent, and received, as many partial transcripts as
/// nodes have gone.
pub proof fn law_gossip_total(n: int, side: int, levels: nat)
    requires
        n >= 1,
        side == 0 || side == 1,
    ensures
        sum(|i: int| hits(n, i, side, levels as int), 0, n) == n - width(n, levels),
        levels == height(n) - 1 ==> sum(|i: int| hits(n, i, side, levels as int), 0, n) == n - 1,
    decreases levels,
{
    let now = |i: int| hits(n, i, side, levels as int);
    law_root(n);
    if levels == 0 {
        lemma_sum_linear(now, now, now, 0, 0, 0, n);
        assert(0 * sum(now, 0, n) == 0) by (nonlinear_arith);
    } else {
        let k = (levels - 1) as nat;
        let half = width(n, k) / 2;
        let before = |i: int| hits(n, i, side, k as int);
        let here = |i: int| pair_hits(n, k, i, side, half);
        lemma_width(n, k);
        law_gossip_total(n, side, k);
        lemma_level_total(n, k, side, half);
        assert forall|i: int| 0 <= i < n implies #[trigger] now(i) == 1 * before(i) + 1 * here(
            i,
        ) by {
        }
        lemma_sum_linear(before, here, now, 1, 1, 0, n);
    }
}

/// How many partial transcripts participant `i` has sent and received once `done` levels are folded:
/// between two levels the aggregator of each left node sends to that of the right.
pub fn z_tree_counts(
    plan: &Vec<Vec<ZTreePlanNode>>,
    n: usize,
    done: usize,
    i: usize,
) -> (r: (usize, usize))
    requires
        1 <= n,
        plan.len() == 0 || is_plan(plan@, n as int),
        done <= plan.len(),
        plan.len() * n <= usize::MAX,
    ensures
        ({
            let levels = if done >= 1 {
                done - 1
            } else {
                0
            };
            &&& r.0 == hits(n as int, i as int, 0, levels)
            &&& r.1 == hits(n as int, i as int, 1, levels)
        }),
{
    let mut sent: usize = 0;
    let mut recv: usize = 0;
    if done == 0 {
        return (sent, recv);
    }
    let levels: usize = done - 1;
    for k in 0..levels
        invariant
            1 <= n,
            levels < plan.len(),
            is_plan(plan@, n as int),
            plan.len() * n <= usize::MAX,
            sent == hits(n as int, i as int, 0, k as int),
            recv == hits(n as int, i as int, 1, k as int),
            sent <= k * n,
            recv <= k * n,
    {
        let nodes = &plan[k];
        let ghost (s0, r0) = (sent, recv);
        proof {
            assert(is_level(plan[k as int]@, n as int, k as nat));
            lemma_width(n as int, k as nat);
            assert(k * n + n <= plan.len() * n) by (nonlinear_arith)
                requires
                    k + 1 <= plan.len(),
                    n >= 1,
            ;
        }
        let mut idx: usize = 0;
        while idx + 1 < nodes.len()
            invariant
                1 <= n,
                is_level(nodes@, n as int, k as nat),
                nodes.len() == width(n as int, k as nat),
                nodes.len() <= n,
                idx <= nodes.len(),
                idx % 2 == 0,
                k * n + n <= usize::MAX,
                s0 <= k * n,
                r0 <= k * n,
                sent == s0 + pair_hits(n as int, k as nat, i as int, 0, (idx / 2) as int),
                recv == r0 + pair_hits(n as int, k as nat, i as int, 1, (idx / 2) as int),
                sent <= s0 + idx / 2,
                recv <= r0 + idx / 2,
            decreases nodes.len() - idx,
        {
            proof {
                assert(is_node(nodes[idx as int], n as int, k as nat, idx as int));
                assert(is_node(nodes[idx + 1], n as int, k as nat, idx + 1));
                let p = (idx / 2) as int + 1;
                assert(2 * (p - 1) == idx);
                lemma_high(n as int, k as nat, idx as int);
                lemma_high(n as int, k as nat, idx + 1);
                assert(pair_hits(n as int, k as nat, i as int, 0, p) == pair_hits(
                    n as int,
                    k as nat,
                    i as int,
                    0,
                    p - 1,
                ) + if high(n as int, k as nat, idx as int) - 1 == i {
                    1int
                } else {
                    0
                });
                assert(pair_hits(n as int, k as nat, i as int, 1, p) == pair_hits(
                    n as int,
                    k as nat,
                    i as int,
                    1,
                    p - 1,
                ) + if high(n as int, k as nat, idx + 1) - 1 == i {
                    1int
                } else {
                    0
                });
            }
            if nodes[idx].aggregator == Some(i) {
                sent = sent + 1;
            }
            if nodes[idx + 1].aggregator == Some(i) {
                recv = recv + 1;
            }
            idx = idx + 2;
        }
        proof {
            assert(idx / 2 == nodes.len() / 2);
            assert((k + 1) * n == k * n + n) by (nonlinear_arith);
        }
    }
    (sent, recv)
}

/// A node ends at a participant.
proof fn lemma_high(n: int, k: nat, j: int)
    requires
        n >= 1,
        0 <= j < width(n, k),
    ensures
        0 < high(n, k, j) <= n,
{
    lemma_pow2_pos(k);
    assert((j + 1) * pow2(k) >= 1) by (nonlinear_arith)
        requires
            j >= 0,
            pow2(k) >= 1,
    ;
}

} // verus!

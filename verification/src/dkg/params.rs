//! What the parties of a run derive from its size and threshold, and from who was rejected.
use std::collections::BTreeSet;
use vstd::arithmetic::power2::{lemma2_to64, lemma_pow2_unfold, pow2};
use vstd::prelude::*;

verus! {

broadcast use {vstd::laws_cmp::group_laws_cmp, vstd::std_specs::btree::group_btree_axioms};

/// `m` is the least power of two that is at least `n`.
pub open spec fn pads_to(n: int, m: int) -> bool {
    &&& exists|k: nat| m == #[trigger] pow2(k)
    &&& n <= m
    &&& m == 1 || m < 2 * n
}

/// The least power of two that is at least `n`.
pub fn next_power_of_two(n: usize) -> (m: usize)
    requires
        n <= usize::MAX / 2,
    ensures
        pads_to(n as int, m as int),
{
    let mut m: usize = 1;
    let ghost mut k: nat = 0;
    proof {
        lemma2_to64();
    }
    while m < n
        invariant
            n <= usize::MAX / 2,
            m == pow2(k),
            m >= 1,
            m == 1 || m < 2 * n,
        decreases 2 * n - m,
    {
        m = m * 2;
        proof {
            lemma_pow2_unfold(k + 1);
            k = k + 1;
        }
    }
    m
}

/// Whether the threshold leaves the adversary bound: `t - 1` reaches half of `n`, rounded up.
pub open spec fn exceeds_bound(threshold: int, n: int) -> bool {
    (if threshold >= 1 {
        threshold - 1
    } else {
        0
    }) >= n - n / 2
}

/// Tells whether the threshold leaves the adversary bound.
pub fn bound_exceeded(threshold: usize, n: usize) -> (r: bool)
    ensures
        r == exceeds_bound(threshold as int, n as int),
{
    let faults: usize = if threshold >= 1 {
        threshold - 1
    } else {
        0
    };
    faults >= n - n / 2
}

/// How many neutral parties take part in a disputation: all but two, and at least one.
pub fn neutral_count(n: usize) -> (r: usize)
    ensures
        r == if n >= 3 {
            n - 2
        } else {
            1
        },
{
    if n >= 3 {
        n - 2
    } else {
        1
    }
}

/// How many receivers are asked for what they hold: one more than the degree, as far as there are so
/// many.
pub fn receivers_asked(degree: usize, n: usize) -> (r: usize)
    ensures
        r == if degree + 1 <= n {
            degree + 1
        } else {
            n as int
        },
{
    if degree < n {
        degree + 1
    } else {
        n
    }
}

/// The dealers that public verification rejected, by its answers.
pub fn rejected_dealers(ok: &Vec<bool>) -> (r: BTreeSet<usize>)
    ensures
        forall|i: usize| #[trigger] r@.contains(i) <==> i < ok.len() && !ok[i as int],
{
    let mut r: BTreeSet<usize> = BTreeSet::new();
    for k in 0..ok.len()
        invariant
            forall|i: usize| #[trigger] r@.contains(i) <==> i < k && !ok[i as int],
    {
        if !ok[k] {
            r.insert(k);
        }
    }
    r
}

} // verus!

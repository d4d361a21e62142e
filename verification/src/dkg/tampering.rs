//! What dishonest dealers tamper with: by how much each shifts the share of its victim.
use crate::algebra::cong;
use crate::collections::lemma_take_set;
use crate::curve::{Curve, Scalar};
use rand_chacha::ChaCha20Rng;
use std::collections::BTreeMap;
use vstd::prelude::*;

verus! {

broadcast use {vstd::laws_cmp::group_laws_cmp, vstd::std_specs::btree::group_btree_axioms};

/// By how much dealer `i` shifts the share of its victim: nothing where it is not listed.
pub open spec fn offset_of<C: Curve>(offsets: Map<usize, Scalar<C>>, i: int) -> int {
    if 0 <= i <= usize::MAX && offsets.contains_key(i as usize) {
        offsets[i as usize]@
    } else {
        0
    }
}

/// By how much a dealer with the given shift moves a share.
pub open spec fn shift_value<C: Curve>(shift: Option<Scalar<C>>) -> int {
    match shift {
        Some(delta) => delta@,
        None => 0,
    }
}

/// By how much the share of the receiver at index `j` is off, where that of the victim is off by
/// `delta`.
pub open spec fn offset_at(j: int, victim: int, delta: int) -> int {
    if j == victim {
        delta
    } else {
        0
    }
}

/// Every offset shows in the exponent of `g`: none of them moves the element `g^offset` to the
/// neutral one.
pub open spec fn telling<C: Curve>(offsets: Map<usize, Scalar<C>>, g: int) -> bool {
    forall|i: usize| #[trigger]
        offsets.contains_key(i) ==> !cong(g * offsets[i]@, 0, C::order())
}

/// Draws an offset at random for each of the listed dealers.
pub fn draw_offsets<C: Curve>(dealers: &Vec<usize>, rng: &mut ChaCha20Rng) -> (r: BTreeMap<
    usize,
    Scalar<C>,
>)
    ensures
        r@.dom() == dealers@.to_set(),
{
    let mut r: BTreeMap<usize, Scalar<C>> = BTreeMap::new();
    for k in 0..dealers.len()
        invariant
            forall|i: usize| #[trigger]
                r@.contains_key(i) <==> dealers@.take(k as int).to_set().contains(i),
    {
        proof {
            lemma_take_set(dealers@, k as int);
        }
        r.insert(dealers[k], Scalar::random(rng));
    }
    proof {
        assert(dealers@.take(dealers.len() as int) =~= dealers@);
        assert(r@.dom() =~= dealers@.to_set());
    }
    r
}

/// Of `n` dealers, those that are not among the bad ones are `n` less the number of these.
pub proof fn lemma_rest_len(n: int, bad: Set<usize>, rest: Set<usize>)
    requires
        0 <= n <= usize::MAX,
        forall|d: usize| #[trigger] bad.contains(d) ==> d < n,
        forall|d: usize| #[trigger] rest.contains(d) <==> d < n && !bad.contains(d),
    ensures
        bad.finite(),
        rest.finite(),
        rest.len() == n - bad.len(),
{
    let all = Seq::new(n as nat, |i: int| i as usize);
    let everybody = all.to_set();
    vstd::seq_lib::seq_to_set_is_finite(all);
    assert(all.no_duplicates());
    all.unique_seq_to_set();
    assert forall|d: usize| everybody.contains(d) == (d < n) by {
        if d < n {
            assert(all[d as int] == d);
        }
    }
    assert(bad.subset_of(everybody));
    assert(rest.subset_of(everybody));
    vstd::set_lib::lemma_len_subset(bad, everybody);
    vstd::set_lib::lemma_len_subset(rest, everybody);
    assert(bad.disjoint(rest));
    vstd::set_lib::lemma_set_disjoint_lens(bad, rest);
    assert(bad + rest =~= everybody);
}

} // verus!

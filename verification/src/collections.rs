//! Ordered sets of machine words.
use std::collections::{BTreeMap, BTreeSet};
use vstd::laws_cmp::obeys_cmp;
use vstd::prelude::*;
use vstd::std_specs::cmp::OrdSpec;
use vstd::std_specs::iter::IteratorSpec;

verus! {

/// Strictly increasing.
pub open spec fn increasing(s: Seq<usize>) -> bool {
    forall|i: int, j: int| 0 <= i < j < s.len() ==> s[i] < s[j]
}

/// `order` lists the members of `set`, least first.
pub open spec fn enumerates(order: Seq<usize>, set: Set<usize>) -> bool {
    increasing(order) && order.to_set() == set
}

/// A set is listed in ascending order in one way only.
pub proof fn lemma_enumeration_unique(a: Seq<usize>, b: Seq<usize>, set: Set<usize>)
    requires
        enumerates(a, set),
        enumerates(b, set),
    ensures
        a == b,
{
    lemma_prefix(a, b, set, a.len() as int);
    lemma_prefix(b, a, set, b.len() as int);
    assert(a =~= b);
}

/// The first `n` members agree.
proof fn lemma_prefix(a: Seq<usize>, b: Seq<usize>, set: Set<usize>, n: int)
    requires
        enumerates(a, set),
        enumerates(b, set),
        0 <= n <= a.len(),
    ensures
        n <= b.len(),
        forall|k: int| 0 <= k < n ==> a[k] == b[k],
    decreases n,
{
    if n > 0 {
        let i = n - 1;
        lemma_prefix(a, b, set, i);
        assert(a.to_set().contains(a[i]));
        assert(b.to_set().contains(a[i]));
        let k = choose|k: int| 0 <= k < b.len() && b[k] == a[i];
        if k < i {
            assert(a[k] == a[i]);
        } else {
            assert(b.to_set().contains(b[i]));
            assert(a.to_set().contains(b[i]));
            let q = choose|q: int| 0 <= q < a.len() && a[q] == b[i];
            if k > i {
                assert(b[i] < b[k]);
                assert(a[q] < a[i]);
                assert(q < i);
                assert(a[q] == b[q]);
            }
        }
    }
}

/// The members of a finite set, least first.
pub open spec fn listed(set: Set<usize>) -> Seq<usize> {
    choose|order: Seq<usize>| enumerates(order, set)
}

/// An ascending sequence lists its own members.
pub proof fn lemma_listed(order: Seq<usize>)
    requires
        increasing(order),
    ensures
        order == listed(order.to_set()),
{
    let set = order.to_set();
    assert(enumerates(order, set));
    lemma_enumeration_unique(order, listed(set), set);
}

/// The members of a set below `d`, least first.
spec fn below(set: Set<usize>, d: int) -> Seq<usize>
    decreases d,
{
    if d <= 0 {
        Seq::empty()
    } else if set.contains((d - 1) as usize) {
        below(set, d - 1).push((d - 1) as usize)
    } else {
        below(set, d - 1)
    }
}

proof fn lemma_below(set: Set<usize>, d: int)
    requires
        0 <= d <= usize::MAX + 1,
    ensures
        increasing(below(set, d)),
        forall|i: usize| #[trigger] below(set, d).contains(i) <==> set.contains(i) && i < d,
    decreases d,
{
    if d > 0 {
        lemma_below(set, d - 1);
        let (less, x) = (below(set, d - 1), (d - 1) as usize);
        let all = below(set, d);
        assert forall|k: int| 0 <= k < less.len() implies #[trigger] less[k] < x by {
            assert(less.contains(less[k]));
        }
        assert forall|i: usize| #[trigger] all.contains(i) <==> set.contains(i) && i < d by {
            if set.contains(x) {
                if all.contains(i) {
                    let k = choose|k: int| 0 <= k < all.len() && all[k] == i;
                    if k < less.len() {
                        assert(less[k] == i);
                        assert(less.contains(i));
                    }
                }
                if set.contains(i) && i < d {
                    if i == x {
                        assert(all[less.len() as int] == i);
                    } else {
                        assert(less.contains(i));
                        let k = choose|k: int| 0 <= k < less.len() && less[k] == i;
                        assert(all[k] == i);
                    }
                }
            } else {
                assert(less.contains(i) <==> set.contains(i) && i < d - 1);
            }
        }
    }
}

/// The list of a set holds each of its members and nobody else, in ascending order and so once.
pub proof fn law_listed(set: Set<usize>)
    ensures
        increasing(listed(set)),
        forall|i: usize| #[trigger] listed(set).contains(i) <==> set.contains(i),
{
    let order = below(set, usize::MAX + 1);
    lemma_below(set, usize::MAX + 1);
    assert forall|i: usize| #[trigger] order.to_set().contains(i) <==> set.contains(i) by {
        assert(order.contains(i) <==> set.contains(i));
    }
    assert(order.to_set() =~= set);
    assert(enumerates(order, set));
    let list = listed(set);
    assert(enumerates(list, set));
    assert forall|i: usize| #[trigger] list.contains(i) <==> set.contains(i) by {
        assert(list.to_set().contains(i) <==> set.contains(i));
    }
}

/// References to words are ordered as the words are.
proof fn lemma_reference_order()
    ensures
        obeys_cmp::<&usize>(),
{
    broadcast use vstd::laws_eq::group_laws_eq;

    reveal(vstd::laws_eq::obeys_eq_spec_properties);
    reveal(vstd::laws_cmp::obeys_partial_cmp_spec_properties);
    reveal(vstd::laws_cmp::obeys_cmp_partial_ord);
    reveal(vstd::laws_cmp::obeys_cmp_ord);
}

proof fn lemma_take_all(s: Seq<usize>)
    ensures
        s.take(s.len() as int) == s,
{
    assert(s.take(s.len() as int) =~= s);
}

/// The members of a set, least first.
pub fn ascending(set: &BTreeSet<usize>) -> (r: Vec<usize>)
    ensures
        increasing(r@),
        r@.to_set() == set@,
        r@ == listed(set@),
{
    broadcast use {
        vstd::std_specs::btree::group_btree_axioms,
        vstd::laws_cmp::group_laws_cmp,
    };

    let ghost s = vstd::std_specs::btree::spec_btree_keys_iter(set).remaining();
    let mut r: Vec<usize> = Vec::new();
    for x in it: set.iter()
        invariant
            it.seq() == s,
            r@ == s.unref().take(it.index()),
    {
        r.push(*x);
        assert(s.unref().take(it.index()).push(*x) =~= s.unref().take(it.index() + 1));
    }
    proof {
        lemma_take_all(s.unref());
        lemma_reference_order();
        assert(vstd::std_specs::btree::increasing_seq(s));
        vstd::std_specs::btree::axiom_increasing_seq_meaning::<&usize>(s);
        assert forall|i: int, j: int| 0 <= i < j < r@.len() implies r@[i] < r@[j] by {
            assert(OrdSpec::cmp_spec(&s[i], &s[j]) is Less);
        }
        lemma_listed(r@);
    }
    r
}

/// The keys of a map, least first.
pub fn keys_ascending<V>(map: &BTreeMap<usize, V>) -> (r: Vec<usize>)
    ensures
        increasing(r@),
        r@.to_set() == map@.dom(),
        r@ == listed(map@.dom()),
{
    broadcast use {
        vstd::std_specs::btree::group_btree_axioms,
        vstd::laws_cmp::group_laws_cmp,
    };

    let ghost s = vstd::std_specs::btree::spec_keys_iter(map).remaining();
    let mut r: Vec<usize> = Vec::new();
    for x in it: map.keys()
        invariant
            it.seq() == s,
            r@ == s.unref().take(it.index()),
    {
        r.push(*x);
        assert(s.unref().take(it.index()).push(*x) =~= s.unref().take(it.index() + 1));
    }
    proof {
        lemma_take_all(s.unref());
        lemma_reference_order();
        assert(vstd::std_specs::btree::increasing_seq(s));
        vstd::std_specs::btree::axiom_increasing_seq_meaning::<&usize>(s);
        assert forall|i: int, j: int| 0 <= i < j < r@.len() implies r@[i] < r@[j] by {
            assert(OrdSpec::cmp_spec(&s[i], &s[j]) is Less);
        }
        lemma_listed(r@);
    }
    r
}

/// A copy of a vector of plain values.
pub fn copied<T: Copy>(v: &Vec<T>) -> (r: Vec<T>)
    ensures
        r@ == v@,
{
    let mut r: Vec<T> = Vec::new();
    for i in 0..v.len()
        invariant
            r@ == v@.take(i as int),
    {
        r.push(v[i]);
        assert(v@.take(i as int).push(v[i as int]) =~= v@.take(i + 1));
    }
    assert(v@.take(v.len() as int) =~= v@);
    r
}

/// The members of a longer prefix.
pub proof fn lemma_take_set(s: Seq<usize>, i: int)
    requires
        0 <= i < s.len(),
    ensures
        s.take(i + 1).to_set() == s.take(i).to_set().insert(s[i]),
{
    let (a, b) = (s.take(i), s.take(i + 1));
    assert forall|x: usize| b.to_set().contains(x) == a.to_set().insert(s[i]).contains(x) by {
        if b.contains(x) {
            let k = choose|k: int| 0 <= k < b.len() && b[k] == x;
            if k < i {
                assert(a[k] == x);
            }
        }
        if a.contains(x) {
            let k = choose|k: int| 0 <= k < a.len() && a[k] == x;
            assert(b[k] == x);
        }
        assert(b[i] == s[i]);
    }
    assert(b.to_set() =~= a.to_set().insert(s[i]));
}

/// The first id, in ascending order, that is no participant's.
pub fn first_out_of_range<V>(map: &BTreeMap<usize, V>, n: usize) -> (r: Option<usize>)
    ensures
        match r {
            Some(bad) => map@.contains_key(bad) && bad >= n && forall|id: usize|
                map@.contains_key(id) && id >= n ==> bad <= id,
            None => forall|id: usize| map@.contains_key(id) ==> id < n,
        },
{
    let ids = keys_ascending(map);
    for i in 0..ids.len()
        invariant
            increasing(ids@),
            ids@.to_set() == map@.dom(),
            forall|k: int| 0 <= k < i ==> (#[trigger] ids[k]) < n,
    {
        let id = ids[i];
        if id >= n {
            proof {
                assert(ids@.to_set().contains(ids@[i as int]));
                assert forall|d: usize| map@.contains_key(d) && d >= n implies id <= d by {
                    assert(ids@.to_set().contains(d));
                    let k = choose|k: int| 0 <= k < ids@.len() && ids@[k] == d;
                    assert(k >= i);
                }
            }
            return Some(id);
        }
    }
    proof {
        assert forall|d: usize| map@.contains_key(d) implies d < n by {
            assert(ids@.to_set().contains(d));
            let k = choose|k: int| 0 <= k < ids@.len() && ids@[k] == d;
            assert(ids[k] < n);
        }
    }
    None
}

} // verus!

//! Who accuses whom, and what becomes of the accused.
use crate::dkg::errors::VssError;
use std::collections::BTreeSet;
use vstd::prelude::*;

verus! {

broadcast use {vstd::laws_cmp::group_laws_cmp, vstd::std_specs::btree::group_btree_axioms};

/// The dealers that some accusation `(dealer, complainer)` names.
pub open spec fn accused(accusations: Seq<(usize, usize)>) -> Set<usize> {
    Set::new(|d: usize| exists|i: int| 0 <= i < accusations.len() && accusations[i].0 == d)
}

/// The receivers that accuse `dealer`.
pub open spec fn complainers(accusations: Seq<(usize, usize)>, dealer: usize) -> Set<usize> {
    Set::new(
        |c: usize| exists|i: int| 0 <= i < accusations.len() && accusations[i] == (dealer, c),
    )
}

/// The set of accused dealers.
pub fn accused_dealers(accusations: &Vec<(usize, usize)>) -> (r: BTreeSet<usize>)
    ensures
        r@ == accused(accusations@),
{
    let mut r: BTreeSet<usize> = BTreeSet::new();
    for i in 0..accusations.len()
        invariant
            forall|d: usize|
                r@.contains(d) <==> exists|k: int| 0 <= k < i && accusations[k].0 == d,
    {
        r.insert(accusations[i].0);
    }
    assert(r@ =~= accused(accusations@));
    r
}

/// The set of receivers that accuse `dealer`.
pub fn complainers_of(accusations: &Vec<(usize, usize)>, dealer: usize) -> (r: BTreeSet<usize>)
    ensures
        r@ == complainers(accusations@, dealer),
{
    let mut r: BTreeSet<usize> = BTreeSet::new();
    for i in 0..accusations.len()
        invariant
            forall|c: usize|
                r@.contains(c) <==> exists|k: int| 0 <= k < i && accusations[k] == (dealer, c),
    {
        if accusations[i].0 == dealer {
            r.insert(accusations[i].1);
        }
    }
    assert(r@ =~= complainers(accusations@, dealer));
    r
}

/// What the disputations of one dealer come to.
#[derive(Clone, Copy, Debug, PartialEq, Eq, Structural)]
pub enum Settlement {
    /// Every opening was sound.
    Cleared,
    /// An opening was unsound.
    Lost,
    /// There was no opening for a complainer.
    Missing,
}

/// The complainer before whom every opening was sound, and whose own is not.
pub open spec fn first_unsettled(
    complainers: Set<usize>,
    sound: spec_fn(usize) -> Option<bool>,
    c: usize,
) -> bool {
    &&& complainers.contains(c)
    &&& sound(c) != Some(true)
    &&& forall|d: usize| complainers.contains(d) && d < c ==> sound(d) == Some(true)
}

/// Complainers are taken in ascending order; `sound` tells whether the opening for one is sound, or
/// `None` where there is none. The first opening that is unsound or missing decides.
pub open spec fn settled(
    complainers: Set<usize>,
    sound: spec_fn(usize) -> Option<bool>,
    outcome: Settlement,
) -> bool {
    match outcome {
        Settlement::Cleared => forall|c: usize|
            complainers.contains(c) ==> #[trigger] sound(c) == Some(true),
        Settlement::Lost => exists|c: usize|
            #[trigger] first_unsettled(complainers, sound, c) && sound(c) == Some(false),
        Settlement::Missing => exists|c: usize|
            #[trigger] first_unsettled(complainers, sound, c) && sound(c) == None::<bool>,
    }
}

/// The settlement is determined.
pub proof fn law_settled_unique(
    complainers: Set<usize>,
    sound: spec_fn(usize) -> Option<bool>,
    a: Settlement,
    b: Settlement,
)
    requires
        settled(complainers, sound, a),
        settled(complainers, sound, b),
    ensures
        a == b,
{
}

/// The verdict over one dealer, as a function of the dealer: disqualified for a reason, cleared, or
/// not to be judged for want of data.
pub type Judgement<R> = Result<Option<R>, VssError>;

/// Dealers are judged in ascending order; the first that cannot be judged fails the phase.
pub open spec fn first_failure<R>(
    dealers: Set<usize>,
    judge: spec_fn(usize) -> Judgement<R>,
    e: VssError,
) -> bool {
    exists|d: usize|
        {
            &&& dealers.contains(d)
            &&& #[trigger] judge(d) == Judgement::<R>::Err(e)
            &&& forall|c: usize| dealers.contains(c) && c < d ==> judge(c) is Ok
        }
}

/// The disqualified among the accused, each with the reason.
pub open spec fn sentences<R>(
    dealers: Set<usize>,
    judge: spec_fn(usize) -> Judgement<R>,
) -> Map<usize, R> {
    Map::new(
        |d: usize| dealers.contains(d) && judge(d) matches Ok(Some(_)),
        |d: usize| judge(d)->Ok_0->Some_0,
    )
}

/// The accusations that arise where every receiver checks every dealer, up to the dealers before `d`
/// and, for `d`, the receivers before `j`: dealers ascending, for each the receivers, counted from
/// one, whose check fails, ascending. `sound` is over indices of dealer and receiver.
pub open spec fn failures_upto(
    sound: spec_fn(int, int) -> bool,
    n: int,
    d: int,
    j: int,
) -> Seq<(usize, usize)>
    decreases d, j,
{
    if d <= 0 && j <= 0 {
        Seq::empty()
    } else if j <= 0 {
        failures_upto(sound, n, d - 1, n)
    } else {
        let rest = failures_upto(sound, n, d, j - 1);
        if sound(d, j - 1) {
            rest
        } else {
            rest.push((d as usize, j as usize))
        }
    }
}

/// The accusations that arise among `n` parties.
pub open spec fn failures(sound: spec_fn(int, int) -> bool, n: int) -> Seq<(usize, usize)> {
    failures_upto(sound, n, n, 0)
}

/// The receivers, counted from one, whose check of dealer `d` fails.
pub open spec fn failing_receivers(
    sound: spec_fn(int, int) -> bool,
    n: int,
    d: int,
) -> Set<usize> {
    Set::new(|c: usize| 1 <= c <= n && !sound(d, c - 1))
}

/// The dealers whose check fails for some receiver.
pub open spec fn failing_dealers(sound: spec_fn(int, int) -> bool, n: int) -> Set<usize> {
    Set::new(|d: usize| d < n && exists|j: int| 0 <= j < n && !#[trigger] sound(d as int, j))
}

proof fn lemma_failures_upto(sound: spec_fn(int, int) -> bool, n: int, d: int, j: int)
    requires
        0 <= d <= n <= usize::MAX,
        0 <= j <= n,
        d == n ==> j == 0,
    ensures
        failures_upto(sound, n, d, j).len() <= d * n + j,
        forall|i: int|
            0 <= i < failures_upto(sound, n, d, j).len() ==> {
                let c = #[trigger] failures_upto(sound, n, d, j)[i];
                &&& 1 <= c.1 <= n
                &&& c.0 < d || (c.0 == d && c.1 <= j)
                &&& !sound(c.0 as int, c.1 - 1)
            },
        forall|a: usize, b: usize|
            (a < d && 1 <= b <= n || a == d && 1 <= b <= j) && !#[trigger] sound(a as int, b - 1)
                ==> failures_upto(sound, n, d, j).contains((a, b)),
    decreases d, j,
{
    if d == 0 && j == 0 {
    } else if j == 0 {
        lemma_failures_upto(sound, n, d - 1, n);
        assert(failures_upto(sound, n, d, j) == failures_upto(sound, n, d - 1, n));
        assert(d * n == (d - 1) * n + n) by (nonlinear_arith);
    } else {
        lemma_failures_upto(sound, n, d, j - 1);
        let rest = failures_upto(sound, n, d, j - 1);
        let all = failures_upto(sound, n, d, j);
        assert forall|i: int| 0 <= i < all.len() implies {
            let c = #[trigger] all[i];
            &&& 1 <= c.1 <= n
            &&& c.0 < d || (c.0 == d && c.1 <= j)
            &&& !sound(c.0 as int, c.1 - 1)
        } by {
            if i < rest.len() {
                assert(all[i] == rest[i]);
            } else {
                assert(all[i] == (d as usize, j as usize));
            }
        }
        assert forall|a: usize, b: usize|
            (a < d && 1 <= b <= n || a == d && 1 <= b <= j) && !#[trigger] sound(
                a as int,
                b - 1,
            ) implies all.contains((a, b)) by {
            if rest.contains((a, b)) {
                let k = choose|k: int| 0 <= k < rest.len() && rest[k] == (a, b);
                assert(all[k] == (a, b));
            } else {
                assert(a == d && b == j);
                assert(all[rest.len() as int] == (a, b));
            }
        }
    }
}

/// The accused are the dealers with failing checks, each accused by the receivers of those, and
/// there are at most as many accusations as checks.
pub proof fn lemma_failures(sound: spec_fn(int, int) -> bool, n: int)
    requires
        0 <= n <= usize::MAX,
    ensures
        failures(sound, n).len() <= n * n,
        accused(failures(sound, n)) == failing_dealers(sound, n),
        forall|d: usize|
            d < n ==> #[trigger] complainers(failures(sound, n), d) == failing_receivers(
                sound,
                n,
                d as int,
            ),
{
    let ps = failures(sound, n);
    lemma_failures_upto(sound, n, n, 0);
    let bad = failing_dealers(sound, n);
    assert forall|d: usize| accused(ps).contains(d) == bad.contains(d) by {
        if accused(ps).contains(d) {
            let i = choose|i: int| 0 <= i < ps.len() && ps[i].0 == d;
            assert(!sound(d as int, ps[i].1 - 1));
        }
        if bad.contains(d) {
            let j = choose|j: int| 0 <= j < n && !#[trigger] sound(d as int, j);
            let b = (j + 1) as usize;
            assert(!sound(d as int, b - 1));
            assert(ps.contains((d, b)));
            let i = choose|i: int| 0 <= i < ps.len() && ps[i] == (d, b);
            assert(ps[i].0 == d);
        }
    }
    assert(accused(ps) =~= bad);
    assert forall|d: usize| d < n implies #[trigger] complainers(ps, d) == failing_receivers(
        sound,
        n,
        d as int,
    ) by {
        let u = failing_receivers(sound, n, d as int);
        assert forall|b: usize| complainers(ps, d).contains(b) == u.contains(b) by {
            if complainers(ps, d).contains(b) {
                let i = choose|i: int| 0 <= i < ps.len() && ps[i] == (d, b);
                assert(!sound(ps[i].0 as int, ps[i].1 - 1));
            }
            if u.contains(b) {
                assert(!sound(d as int, b - 1));
                assert(ps.contains((d, b)));
                let i = choose|i: int| 0 <= i < ps.len() && ps[i] == (d, b);
            }
        }
        assert(complainers(ps, d) =~= u);
    }
}

/// One accusation against each of the bad dealers before `d`, ascending, by its victim; `victim` is
/// over indices.
pub open spec fn one_each(bad: Set<usize>, victim: spec_fn(int) -> int, d: int) -> Seq<
    (usize, usize),
>
    decreases d,
{
    if d <= 0 {
        Seq::empty()
    } else {
        let rest = one_each(bad, victim, d - 1);
        if bad.contains((d - 1) as usize) {
            rest.push(((d - 1) as usize, (victim(d - 1) + 1) as usize))
        } else {
            rest
        }
    }
}

/// The check fails for the victims of the bad dealers and for nobody else.
pub open spec fn fails_victims(
    sound: spec_fn(int, int) -> bool,
    n: int,
    bad: Set<usize>,
    victim: spec_fn(int) -> int,
) -> bool {
    &&& forall|d: usize| #[trigger] bad.contains(d) ==> d < n
    &&& forall|d: int| 0 <= d < n ==> 0 <= #[trigger] victim(d) < n
    &&& forall|d: int, j: int|
        0 <= d < n && 0 <= j < n ==> (#[trigger] sound(d, j) <==> !(bad.contains(d as usize) && j
            == victim(d)))
}

proof fn lemma_one_each_row(
    sound: spec_fn(int, int) -> bool,
    n: int,
    bad: Set<usize>,
    victim: spec_fn(int) -> int,
    d: int,
    j: int,
)
    requires
        0 <= d < n <= usize::MAX,
        0 <= j <= n,
        fails_victims(sound, n, bad, victim),
    ensures
        failures_upto(sound, n, d, j) == if bad.contains(d as usize) && victim(d) < j {
            failures_upto(sound, n, d, 0).push((d as usize, (victim(d) + 1) as usize))
        } else {
            failures_upto(sound, n, d, 0)
        },
    decreases j,
{
    assert(0 <= victim(d) < n);
    if j > 0 {
        lemma_one_each_row(sound, n, bad, victim, d, j - 1);
        assert(sound(d, j - 1) <==> !(bad.contains(d as usize) && j - 1 == victim(d)));
    }
}

proof fn lemma_one_each_upto(
    sound: spec_fn(int, int) -> bool,
    n: int,
    bad: Set<usize>,
    victim: spec_fn(int) -> int,
    d: int,
)
    requires
        0 <= d <= n <= usize::MAX,
        fails_victims(sound, n, bad, victim),
    ensures
        failures_upto(sound, n, d, 0) == one_each(bad, victim, d),
        bad.filter(|x: usize| x < d).finite(),
        one_each(bad, victim, d).len() == bad.filter(|x: usize| x < d).len(),
    decreases d,
{
    let now = bad.filter(|x: usize| x < d);
    if d == 0 {
        assert(now =~= Set::empty());
    } else {
        let before = bad.filter(|x: usize| x < d - 1);
        lemma_one_each_upto(sound, n, bad, victim, d - 1);
        lemma_one_each_row(sound, n, bad, victim, d - 1, n);
        assert(0 <= victim(d - 1) < n);
        assert(failures_upto(sound, n, d, 0) == failures_upto(sound, n, d - 1, n));
        let last = (d - 1) as usize;
        if bad.contains(last) {
            assert(now =~= before.insert(last));
        } else {
            assert(now =~= before);
        }
    }
}

/// Where the check fails for the victims of the bad dealers and for nobody else, there is exactly one
/// accusation per bad dealer.
pub proof fn law_one_accusation_each(
    sound: spec_fn(int, int) -> bool,
    n: int,
    bad: Set<usize>,
    victim: spec_fn(int) -> int,
)
    requires
        0 <= n <= usize::MAX,
        fails_victims(sound, n, bad, victim),
    ensures
        failures(sound, n) == one_each(bad, victim, n),
        bad.finite(),
        failures(sound, n).len() == bad.len(),
{
    lemma_one_each_upto(sound, n, bad, victim, n);
    assert(bad.filter(|x: usize| x < n) =~= bad);
}

/// Where every opening that a complainer asks for is unsound, the disputations of an accused dealer
/// are lost.
pub proof fn lemma_lost(
    complainers: Set<usize>,
    sound: spec_fn(usize) -> Option<bool>,
    c: usize,
)
    requires
        complainers.contains(c),
        forall|x: usize| complainers.contains(x) ==> #[trigger] sound(x) == Some(false),
    ensures
        settled(complainers, sound, Settlement::Lost),
        !settled(complainers, sound, Settlement::Cleared),
{
    let least = lemma_least(complainers, c);
    assert(sound(least) == Some(false));
    assert(first_unsettled(complainers, sound, least));
    assert(sound(c) == Some(false));
}

/// Where some opening is not sound, there is a first one.
pub proof fn lemma_first_unsettled(
    complainers: Set<usize>,
    sound: spec_fn(usize) -> Option<bool>,
    c: usize,
) -> (first: usize)
    requires
        complainers.contains(c),
        sound(c) != Some(true),
    ensures
        first_unsettled(complainers, sound, first),
{
    let bad = Set::new(|x: usize| complainers.contains(x) && sound(x) != Some(true));
    let first = lemma_least(bad, c);
    assert(bad.contains(first));
    assert forall|d: usize| complainers.contains(d) && d < first implies sound(d) == Some(true) by {
        if sound(d) != Some(true) {
            assert(bad.contains(d));
        }
    }
    first
}

/// A set of words with a member has a least one.
proof fn lemma_least(s: Set<usize>, x: usize) -> (m: usize)
    requires
        s.contains(x),
    ensures
        s.contains(m),
        forall|y: usize| s.contains(y) ==> m <= y,
    decreases x,
{
    if exists|y: usize| s.contains(y) && y < x {
        let y = choose|y: usize| s.contains(y) && y < x;
        lemma_least(s, y)
    } else {
        x
    }
}

} // verus!

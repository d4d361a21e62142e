//! The two communication patterns of the key generation, and what they cost.
//!
//! The Pedersen layer is all to all: each of `n` nodes sends to each of the others, in one round.
//! The aggregatable layer for `z` combines transcripts up a binary tree: one message per combined
//! pair, level after level. The transport is elsewhere; here stand which messages are sent and
//! the count of those that arrive.
use std::time::Duration;
use vstd::arithmetic::power2::{lemma_pow2_unfold, pow2};
use vstd::prelude::*;

verus! {

/// The cost of one communication phase.
#[derive(Clone, Copy, Debug)]
pub struct NetworkReport {
    /// Wall-clock time of the phase.
    pub wall: Duration,
    /// Messages delivered.
    pub messages: usize,
    /// Bytes delivered.
    pub bytes: usize,
    /// Sequential rounds that the pattern takes.
    pub rounds: usize,
}

/// The links of the all-to-all pattern over the first `from` senders and, for the last sender, its
/// first `to` peers: every ordered pair of different nodes, senders ascending.
pub open spec fn links_upto(n: int, from: int, to: int) -> Seq<(usize, usize)>
    decreases from, to,
{
    if from <= 0 && to <= 0 {
        Seq::empty()
    } else if to <= 0 {
        links_upto(n, from - 1, n)
    } else {
        let rest = links_upto(n, from, to - 1);
        if from == to - 1 {
            rest
        } else {
            rest.push((from as usize, (to - 1) as usize))
        }
    }
}

/// The links of the all-to-all pattern between `n` nodes.
pub open spec fn links(n: int) -> Seq<(usize, usize)> {
    links_upto(n, n, 0)
}

/// Lists the links of the all-to-all pattern.
pub fn broadcast_links(n: usize) -> (r: Vec<(usize, usize)>)
    ensures
        r@ == links(n as int),
{
    let mut r: Vec<(usize, usize)> = Vec::new();
    for from in 0..n
        invariant
            r@ == links_upto(n as int, from as int, 0),
    {
        for to in 0..n
            invariant
                from < n,
                r@ == links_upto(n as int, from as int, to as int),
        {
            if from != to {
                r.push((from, to));
            }
        }
    }
    r
}

/// The pattern has `n (n - 1)` links, each between two different nodes and none twice.
pub proof fn law_broadcast_links(n: int)
    requires
        0 <= n <= usize::MAX,
    ensures
        links(n).len() == n * (n - 1),
        forall|i: int|
            0 <= i < links(n).len() ==> (#[trigger] links(n)[i]).0 != links(n)[i].1,
        links(n).no_duplicates(),
{
    lemma_links(n, n, 0);
}

proof fn lemma_links(n: int, from: int, to: int)
    requires
        0 <= from <= n,
        0 <= to <= n,
        from == n ==> to == 0,
    ensures
        links_upto(n, from, to).len() == from * (n - 1) + to - if from < to {
            1int
        } else {
            0
        },
        forall|i: int|
            0 <= i < links_upto(n, from, to).len() ==> {
                let l = #[trigger] links_upto(n, from, to)[i];
                &&& n <= usize::MAX ==> l.0 != l.1
                &&& n <= usize::MAX ==> l.0 < from || (l.0 == from && l.1 < to)
            },
        n <= usize::MAX ==> links_upto(n, from, to).no_duplicates(),
    decreases from, to,
{
    if from == 0 && to == 0 {
        assert(0 * (n - 1) == 0) by (nonlinear_arith);
    } else if to == 0 {
        lemma_links(n, from - 1, n);
        assert((from - 1) * (n - 1) + n - 1 == from * (n - 1)) by (nonlinear_arith);
    } else {
        lemma_links(n, from, to - 1);
    }
}

/// Messages and bytes that have arrived.
#[derive(Clone, Copy, Debug)]
pub struct Tally {
    pub messages: usize,
    pub bytes: usize,
}

impl Tally {
    pub fn new() -> (r: Self)
        ensures
            r.messages == 0,
            r.bytes == 0,
    {
        Tally { messages: 0, bytes: 0 }
    }

    /// Counts a message of `payload` bytes.
    pub fn delivered(&mut self, payload: usize)
        requires
            old(self).messages < usize::MAX,
            old(self).bytes + payload <= usize::MAX,
        ensures
            final(self).messages == old(self).messages + 1,
            final(self).bytes == old(self).bytes + payload,
    {
        self.messages = self.messages + 1;
        self.bytes = self.bytes + payload;
    }
}

/// Counts an all-to-all phase over links that lose nothing: one message of `payload` bytes a link.
pub fn broadcast_tally(n: usize, payload: usize) -> (r: Tally)
    requires
        n * (n - 1) <= usize::MAX,
        (n * (n - 1)) * payload <= usize::MAX,
    ensures
        r.messages == n * (n - 1),
        r.bytes == (n * (n - 1)) * payload,
{
    let links = broadcast_links(n);
    let ghost total = n * (n - 1);
    proof {
        law_broadcast_links(n as int);
        assert(0 * payload == 0) by (nonlinear_arith);
    }
    let mut tally = Tally::new();
    for i in 0..links.len()
        invariant
            links.len() == total,
            total <= usize::MAX,
            total * payload <= usize::MAX,
            tally.messages == i,
            tally.bytes == i * payload,
    {
        proof {
            assert((i + 1) * payload == i * payload + payload) by (nonlinear_arith);
            assert((i + 1) * payload <= total * payload) by (nonlinear_arith)
                requires
                    i + 1 <= total,
                    0 <= payload,
            ;
        }
        tally.delivered(payload);
    }
    tally
}

/// The report of an all-to-all phase, which takes one round.
pub fn broadcast_report(tally: Tally, wall: Duration) -> (r: NetworkReport)
    ensures
        r.wall == wall,
        r.messages == tally.messages,
        r.bytes == tally.bytes,
        r.rounds == 1,
{
    NetworkReport { wall, messages: tally.messages, bytes: tally.bytes, rounds: 1 }
}

/// The rounded-up binary logarithm: how often a number is halved, rounding up, until one is left.
pub open spec fn ceil_log2(n: int) -> int
    decreases n,
{
    if n <= 1 {
        0
    } else {
        1 + ceil_log2(n - n / 2)
    }
}

/// `ceil_log2(n)` is the least `k` with `n <= 2^k`.
pub proof fn law_ceil_log2(n: int)
    requires
        n >= 1,
    ensures
        ceil_log2(n) >= 0,
        n <= pow2(ceil_log2(n) as nat),
        n > 1 ==> pow2((ceil_log2(n) - 1) as nat) < n,
    decreases n,
{
    if n == 1 {
        vstd::arithmetic::power2::lemma2_to64();
    } else {
        let h = n - n / 2;
        law_ceil_log2(h);
        lemma_pow2_unfold(ceil_log2(n) as nat);
        if h > 1 {
            lemma_ceil_log2_bound(h);
            lemma_pow2_unfold(ceil_log2(h) as nat);
        } else {
            vstd::arithmetic::power2::lemma2_to64();
        }
    }
}

/// An aggregation up a binary tree in progress. At each level the nodes still active pair up; each
/// pair sends one message and goes on as one node, and an odd node is carried up.
#[derive(Clone, Copy, Debug)]
pub struct TreeGossip {
    pub active: usize,
    pub rounds: usize,
    pub tally: Tally,
}

impl TreeGossip {
    /// The aggregation of `n` leaves.
    pub fn new(n: usize) -> (r: Self)
        ensures
            r.active == n,
            r.rounds == 0,
            r.tally.messages == 0,
            r.tally.bytes == 0,
    {
        TreeGossip { active: n, rounds: 0, tally: Tally::new() }
    }

    /// Goes on to the next level and returns how many messages it sends; `None` once a single node
    /// is active.
    pub fn next_level(&mut self) -> (r: Option<usize>)
        requires
            old(self).rounds < usize::MAX,
        ensures
            final(self).tally == old(self).tally,
            match r {
                Some(pairs) => {
                    &&& old(self).active > 1
                    &&& pairs == old(self).active / 2
                    &&& final(self).active == old(self).active - pairs
                    &&& final(self).rounds == old(self).rounds + 1
                },
                None => old(self).active <= 1 && *final(self) == *old(self),
            },
    {
        if self.active <= 1 {
            return None;
        }
        let pairs = self.active / 2;
        self.rounds = self.rounds + 1;
        self.active = self.active - pairs;
        Some(pairs)
    }

    /// The report of the aggregation.
    pub fn report(&self, wall: Duration) -> (r: NetworkReport)
        ensures
            r.wall == wall,
            r.messages == self.tally.messages,
            r.bytes == self.tally.bytes,
            r.rounds == self.rounds,
    {
        NetworkReport {
            wall,
            messages: self.tally.messages,
            bytes: self.tally.bytes,
            rounds: self.rounds,
        }
    }

    /// Where an aggregation of `n` leaves with `payload` bytes a message stands between levels,
    /// every message of the levels behind it delivered.
    pub open spec fn on_course(self, n: int, payload: int) -> bool {
        &&& 1 <= self.active <= n
        &&& self.tally.messages == n - self.active
        &&& self.tally.bytes == (n - self.active) * payload
        &&& self.rounds + ceil_log2(self.active as int) == ceil_log2(n)
    }

    /// Counts the messages of one level, all of `payload` bytes.
    pub fn deliver_level(&mut self, pairs: usize, payload: usize)
        requires
            old(self).tally.messages + pairs <= usize::MAX,
            old(self).tally.bytes + pairs * payload <= usize::MAX,
        ensures
            final(self).active == old(self).active,
            final(self).rounds == old(self).rounds,
            final(self).tally.messages == old(self).tally.messages + pairs,
            final(self).tally.bytes == old(self).tally.bytes + pairs * payload,
    {
        let ghost before = self.tally;
        assert(0 * payload == 0) by (nonlinear_arith);
        for i in 0..pairs
            invariant
                before == old(self).tally,
                before.messages + pairs <= usize::MAX,
                before.bytes + pairs * payload <= usize::MAX,
                self.active == old(self).active,
                self.rounds == old(self).rounds,
                self.tally.messages == before.messages + i,
                self.tally.bytes == before.bytes + i * payload,
        {
            assert((i + 1) * payload == i * payload + payload) by (nonlinear_arith);
            assert((i + 1) * payload <= pairs * payload) by (nonlinear_arith)
                requires
                    i + 1 <= pairs,
            ;
            self.tally.delivered(payload);
        }
    }
}

/// A level whose messages all arrive keeps the aggregation on course, so that one that has come
/// down to a single node has delivered `n - 1` messages in `ceil_log2(n)` rounds.
pub proof fn law_tree_on_course(
    before: TreeGossip,
    after: TreeGossip,
    pairs: int,
    n: int,
    payload: int,
)
    requires
        before.on_course(n, payload),
        before.active > 1,
        pairs == before.active as int / 2,
        after.active == before.active - pairs,
        after.rounds == before.rounds + 1,
        after.tally.messages == before.tally.messages + pairs,
        after.tally.bytes == before.tally.bytes + pairs * payload,
    ensures
        after.on_course(n, payload),
        after.active == 1 ==> {
            &&& after.tally.messages == n - 1
            &&& after.tally.bytes == (n - 1) * payload
            &&& after.rounds == ceil_log2(n)
        },
{
    let a = before.active as int;
    assert((n - a) * payload + pairs * payload == (n - (a - pairs)) * payload) by (nonlinear_arith);
    assert(ceil_log2(1) == 0);
}

/// Runs the aggregation of `n` leaves over links that lose nothing and take no time.
pub fn gossip_tally(n: usize, payload: usize) -> (r: TreeGossip)
    requires
        n >= 1 ==> (n - 1) * payload <= usize::MAX,
    ensures
        n >= 1 ==> r.on_course(n as int, payload as int) && r.active == 1,
        n == 0 ==> r.tally.messages == 0 && r.tally.bytes == 0 && r.rounds == 0,
{
    let mut gossip = TreeGossip::new(n);
    assert(0 * payload == 0) by (nonlinear_arith);
    while gossip.active > 1
        invariant
            n >= 1 ==> (n - 1) * payload <= usize::MAX,
            gossip.active <= 1 || n >= 1,
            n >= 1 ==> gossip.on_course(n as int, payload as int),
            n == 0 ==> gossip.active == 0 && gossip.tally.messages == 0 && gossip.tally.bytes == 0
                && gossip.rounds == 0,
        decreases gossip.active,
    {
        let ghost before = gossip;
        proof {
            lemma_ceil_log2_bound(n as int);
            lemma_ceil_log2_bound(gossip.active as int);
        }
        let pairs = match gossip.next_level() {
            Some(p) => p,
            None => 0,
        };
        proof {
            let a = before.active as int;
            assert((n - a) * payload + pairs * payload <= (n - 1) * payload) by (nonlinear_arith)
                requires
                    pairs <= a - 1,
                    a <= n,
                    0 <= payload,
            ;
        }
        gossip.deliver_level(pairs, payload);
        proof {
            law_tree_on_course(before, gossip, pairs as int, n as int, payload as int);
        }
    }
    gossip
}

proof fn lemma_ceil_log2_bound(n: int)
    ensures
        0 <= ceil_log2(n),
        n > 1 ==> 1 <= ceil_log2(n) < n,
    decreases n,
{
    if n > 1 {
        lemma_ceil_log2_bound(n - n / 2);
    }
}

} // verus!

use dmkg::dkg::network::{
    broadcast_links, broadcast_report, broadcast_tally, gossip_tally, NetworkReport, Tally,
    TreeGossip,
};
use std::time::Duration;

fn run_broadcast_round(n: usize, wall: Duration, payload: usize) -> NetworkReport {
    let mut tally = Tally::new();
    for _link in broadcast_links(n) {
        tally.delivered(payload);
    }
    broadcast_report(tally, wall)
}

fn run_tree_gossip(n: usize, wall: Duration, payload: usize) -> NetworkReport {
    let mut gossip = TreeGossip::new(n);
    while let Some(pairs) = gossip.next_level() {
        gossip.deliver_level(pairs, payload);
    }
    gossip.report(wall)
}

#[test]
fn test_broadcast_counts() {
    // n(n-1) messages, quadratic volume, one latency round.
    let r = run_broadcast_round(8, Duration::from_millis(0), 100);
    assert_eq!(r.messages, 8 * 7);
    assert_eq!(r.bytes, 8 * 7 * 100);
    assert_eq!(r.rounds, 1);
}

#[test]
fn test_tree_rounds_logarithmic() {
    // Logarithmically many rounds, n-1 messages for a power-of-two n.
    let r = run_tree_gossip(16, Duration::from_millis(0), 100);
    assert_eq!(r.rounds, 4);
    assert_eq!(r.messages, 15);
}

#[test]
fn links_are_all_ordered_pairs() {
    assert_eq!(
        broadcast_links(3),
        vec![(0, 1), (0, 2), (1, 0), (1, 2), (2, 0), (2, 1)]
    );
    assert!(broadcast_links(0).is_empty());
    assert!(broadcast_links(1).is_empty());
}

#[test]
fn tree_of_any_size_sends_one_message_less() {
    for (n, rounds) in [(1, 0), (2, 1), (3, 2), (5, 3), (8, 3), (9, 4), (10, 4)] {
        let r = run_tree_gossip(n, Duration::from_secs(1), 7);
        assert_eq!(r.rounds, rounds);
        assert_eq!(r.messages, n - 1);
        assert_eq!(r.bytes, (n - 1) * 7);
        assert_eq!(r.wall, Duration::from_secs(1));
        let counted = gossip_tally(n, 7).report(Duration::from_secs(1));
        assert_eq!(counted.messages, r.messages);
        assert_eq!(counted.rounds, r.rounds);
    }
}

#[test]
fn broadcast_is_totalled_over_all_links() {
    for n in [0usize, 1, 2, 5, 8] {
        let tally = broadcast_tally(n, 11);
        assert_eq!(tally.messages, broadcast_links(n).len());
        assert_eq!(tally.bytes, broadcast_links(n).len() * 11);
    }
    assert_eq!(broadcast_tally(6, 3).messages, 30);
    // The tree sends a message less than it has leaves, so that this much fits.
    assert_eq!(gossip_tally(2, usize::MAX).tally.bytes, usize::MAX);
}

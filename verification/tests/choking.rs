use std::collections::HashSet;

use p2p_node::algorithms::choking::{ChokingNode, PeerTracker};

#[test]
fn new_peer_starts_choked() {
    let mut node = ChokingNode::new("node-a".to_owned(), 2, 3);
    node.add_peer("node-b".to_owned(), true);
    node.add_peer("node-c".to_owned(), true);
    let unchoked = node.get_unchoked_peers();
    assert!(!unchoked.contains(&"node-b".to_owned()));
}

#[test]
fn top_contributor_gets_unchoked() {
    let mut node = ChokingNode::new("node-a".to_owned(), 1, 999);
    node.add_peer("node-b".to_owned(), true);
    node.add_peer("node-c".to_owned(), true);

    for _ in 0..10 {
        node.record_contribution("node-b", 5);
    }

    node.run_choking_round();

    let unchoked = node.get_unchoked_peers();
    assert!(unchoked.contains(&"node-b".to_owned()));
    assert!(!unchoked.contains(&"node-c".to_owned()));
}

#[test]
fn max_unchoked_limit_respected() {
    let mut node = ChokingNode::new("node-a".to_owned(), 2, 999);

    for peer in ["node-b", "node-c", "node-d", "node-e"] {
        node.add_peer(peer.to_owned(), true);
        node.record_contribution(peer, 1);
    }

    node.run_choking_round();

    let unchoked = node.get_unchoked_peers();
    assert!(unchoked.len() <= 2);
}

#[test]
fn choked_and_unchoked_disjoint() {
    let mut node = ChokingNode::new("node-a".to_owned(), 2, 999);

    for peer in ["node-b", "node-c", "node-d"] {
        node.add_peer(peer.to_owned(), true);
        node.record_contribution(peer, 1);
    }

    node.run_choking_round();

    let unchoked: HashSet<String> = node.get_unchoked_peers().into_iter().collect();
    let choked: HashSet<String> = node.get_choked_peers().into_iter().collect();

    assert!(unchoked.is_disjoint(&choked));
}

#[test]
fn free_rider_stays_choked() {
    let mut node = ChokingNode::new("node-a".to_owned(), 2, 999);

    for peer in ["node-b", "node-c", "node-d"] {
        node.add_peer(peer.to_owned(), true);
    }

    node.record_contribution("node-b", 10);
    node.record_contribution("node-c", 8);

    for _ in 0..3 {
        node.run_choking_round();
    }

    let choked = node.get_choked_peers();

    assert!(choked.contains(&"node-d".to_owned()));
}

#[test]
fn optimistic_unchoke_occurs() {
    let mut node = ChokingNode::new("node-a".to_owned(), 1, 1);

    for peer in ["node-b", "node-c", "node-d"] {
        node.add_peer(peer.to_owned(), true);
    }

    node.run_choking_round();

    let unchoked = node.get_unchoked_peers();

    assert!(!unchoked.is_empty());
}

#[test]
fn round_changes_are_logged() {
    let mut node = ChokingNode::new("node-a".to_owned(), 1, 999);
    node.add_peer("node-b".to_owned(), true);
    node.add_peer("node-c".to_owned(), true);
    node.record_contribution("node-b", 7);
    node.run_choking_round();
    assert_eq!(node.flush_log(), vec!["  Round 1: UNCHOKED node-b (contributed=7)".to_owned()]);
    node.record_contribution("node-c", 20);
    node.run_choking_round();
    assert_eq!(
        node.flush_log(),
        vec![
            "  Round 2: CHOKED node-b (contributed=7)".to_owned(),
            "  Round 2: UNCHOKED node-c (contributed=20)".to_owned(),
        ]
    );
    assert_eq!(node.round(), 2);
}

#[test]
fn rounds_choked_counted() {
    let mut node = ChokingNode::new("node-a".to_owned(), 1, 999);
    node.add_peer("node-b".to_owned(), true);
    node.add_peer("node-c".to_owned(), true);
    node.record_contribution("node-b", 1);
    node.run_choking_round();
    node.run_choking_round();
    let peers = node.peers();
    assert_eq!(peers[0].rounds_choked(), 0);
    assert_eq!(peers[1].rounds_choked(), 2);
    assert!(peers[1].is_choked());
    assert!(peers[1].is_interested());
    assert_eq!(peers[0].contributed(), 1);
    assert_eq!(peers[0].received(), 0);
}

#[test]
fn empty_round_only_counts() {
    let mut node = ChokingNode::new("node-a".to_owned(), 0, 1);
    node.run_choking_round();
    assert_eq!(node.round(), 1);
    assert!(node.flush_log().is_empty());
}

#[test]
fn optimistic_peer_carries_over() {
    // With interval 2, round 1 is regular and round 2 optimistic.
    let mut node = ChokingNode::new("node-a".to_owned(), 1, 2);
    node.add_peer("node-b".to_owned(), true);
    node.add_peer("node-c".to_owned(), true);
    node.record_contribution("node-b", 5);
    node.run_choking_round();
    assert_eq!(node.get_unchoked_peers(), vec!["node-b".to_owned()]);
    node.run_choking_round();
    // Round 2: no regular slot; one of the two peers is picked at random.
    let lucky = node.get_unchoked_peers();
    assert_eq!(lucky.len(), 1);
    node.run_choking_round();
    // Round 3: the optimistic peer is still held, so its slot stays kept
    // for it and no more than one peer is unchoked.
    assert_eq!(node.get_unchoked_peers(), lucky);
}

#[test]
fn uninterested_peer_is_never_unchoked() {
    let mut node = ChokingNode::new("node-a".to_owned(), 2, 999);
    node.add_peer("node-b".to_owned(), false);
    node.add_peer("node-c".to_owned(), true);
    node.record_contribution("node-b", 10);
    node.run_choking_round();
    assert!(!node.get_unchoked_peers().contains(&"node-b".to_owned()));
    assert_eq!(node.get_unchoked_peers(), vec!["node-c".to_owned()]);
    assert!(!node.peers()[0].is_interested());
}

#[test]
fn unchoked_peers_never_exceed_the_limit() {
    let mut node = ChokingNode::new("node-a".to_owned(), 2, 3);
    for (i, peer) in ["p1", "p2", "p3", "p4", "p5"].iter().enumerate() {
        node.add_peer((*peer).to_owned(), true);
        node.record_contribution(peer, i as u32);
    }
    for _ in 0..12 {
        node.run_choking_round();
        assert!(node.get_unchoked_peers().len() <= 2);
    }
}

#[test]
fn contribution_to_unknown_peer_ignored() {
    let mut node = ChokingNode::new("node-a".to_owned(), 1, 999);
    node.add_peer("node-b".to_owned(), true);
    node.record_contribution("node-z", 3);
    assert_eq!(node.peers()[0].contributed(), 0);
    node.add_peer("node-b".to_owned(), false);
    assert_eq!(node.peers().len(), 1);
}

#[test]
fn tracker_is_described_with_its_counts() {
    let tracker = PeerTracker::new("node-b".to_owned());
    assert_eq!(tracker.describe(), "PeerTracker(node-b, contributed=0, received=0, CHOKED)");
    let mut node = ChokingNode::new("node-a".to_owned(), 4, 3);
    node.add_peer("node-b".to_owned(), true);
    node.record_contribution("node-b", 120);
    node.run_choking_round();
    assert_eq!(
        node.peers()[0].describe(),
        "PeerTracker(node-b, contributed=120, received=0, unchoked)"
    );
    assert_eq!(node.node_id(), "node-a");
    assert_eq!(node.max_unchoked(), 4);
    assert_eq!(node.optimistic_interval(), 3);
}

#[test]
fn serving_is_recorded_as_received() {
    let mut node = ChokingNode::new("node-a".to_owned(), 2, 3);
    node.add_peer("node-b".to_owned(), true);
    node.record_serving("node-b", 7);
    node.record_serving("node-b", 5);
    node.record_serving("node-z", 9);
    let tracker = node.tracker("node-b").unwrap();
    assert_eq!(tracker.received(), 12);
    assert_eq!(tracker.contributed(), 0);
    assert_eq!(node.peers().len(), 1);
}

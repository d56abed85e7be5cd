use std::collections::HashSet;

use p2p_node::algorithms::heartbeat::{HeartbeatNode, PeerStatus};

#[test]
fn new_peer_is_alive() {
    let mut node = HeartbeatNode::new("node-a".to_owned(), 3, 2);
    node.add_peer("node-b".to_owned());
    let living = node.get_alive_peers();
    assert!(living.contains(&"node-b".to_owned()));
}

#[test]
fn send_pings_returns_alive_peers() {
    let mut node = HeartbeatNode::new("node-a".to_owned(), 3, 2);
    node.add_peer("node-b".to_owned());
    node.add_peer("node-c".to_owned());
    let pinged = node.send_pings(1);
    assert!(pinged.contains(&"node-b".to_owned()));
    assert!(pinged.contains(&"node-c".to_owned()));
}

#[test]
fn pong_keeps_peer_alive() {
    let mut node = HeartbeatNode::new("node-a".to_owned(), 3, 2);
    node.add_peer("node-b".to_owned());
    drop(node.send_pings(1));
    node.receive_pong("node-b", 1);
    let living = node.get_alive_peers();
    assert!(living.contains(&"node-b".to_owned()));
}

#[test]
fn grace_period_misses_produces_suspect() {
    const GRACE: u8 = 2;
    let mut node = HeartbeatNode::new("node-a".to_owned(), 5, GRACE);
    node.add_peer("node-b".to_owned());

    for round in 1..=GRACE {
        drop(node.send_pings(round.into()));
        node.record_miss("node-b".to_owned(), round.into());
    }

    let suspicious = node.get_suspect_peers();
    assert!(suspicious.contains(&"node-b".to_owned()));

    let dead = node.get_dead_peers();
    assert!(!dead.contains(&"node-b".to_owned()));
}

#[test]
fn threshold_misses_produces_dead() {
    const THRESHOLD: u8 = 3;
    let mut node = HeartbeatNode::new("node-a".to_owned(), THRESHOLD, 2);
    node.add_peer("node-b".to_owned());

    for round in 1..=THRESHOLD {
        drop(node.send_pings(round.into()));
        node.record_miss("node-b".to_owned(), round.into());
    }

    let dead = node.get_dead_peers();
    assert!(dead.contains(&"node-b".to_owned()));
}

#[test]
fn pong_after_suspect_restores_alive() {
    let mut node = HeartbeatNode::new("node-a".to_owned(), 5, 2);
    node.add_peer("node-b".to_owned());

    for round in 1..=2 {
        drop(node.send_pings(round));
        node.record_miss("node-b".to_owned(), round);
    }

    let suspicious = node.get_suspect_peers();
    assert!(suspicious.contains(&"node-b".to_owned()));

    node.receive_pong("node-b", 3);

    let living = node.get_alive_peers();
    assert!(living.contains(&"node-b".to_owned()));

    let suspicious = node.get_suspect_peers();
    assert!(!suspicious.contains(&"node-b".to_owned()));
}

#[test]
fn dead_peers_not_pinged() {
    let mut node = HeartbeatNode::new("node-a".to_owned(), 3, 2);
    node.add_peer("node-b".to_owned());

    for round in 1..4 {
        drop(node.send_pings(round));
        node.record_miss("node-b".to_owned(), round);
    }

    let dead = node.get_dead_peers();
    assert!(dead.contains(&"node-b".to_owned()));

    let pinged = node.send_pings(4);
    assert!(!pinged.contains(&"node-b".to_owned()));
}

#[test]
fn lists_are_disjoint() {
    let mut node = HeartbeatNode::new("node-a".to_owned(), 3, 2);
    node.add_peer("node-b".to_owned());
    node.add_peer("node-c".to_owned());
    node.add_peer("node-d".to_owned());

    for round in 1..3 {
        node.record_miss("node-b".to_owned(), round);
    }

    for round in 1..4 {
        node.record_miss("node-c".to_owned(), round);
    }

    let living: HashSet<String> = node.get_alive_peers().into_iter().collect();
    let suspicious: HashSet<String> = node.get_suspect_peers().into_iter().collect();
    let dead: HashSet<String> = node.get_dead_peers().into_iter().collect();

    assert!(living.is_disjoint(&suspicious));
    assert!(living.is_disjoint(&dead));
    assert!(suspicious.is_disjoint(&dead));
}

#[test]
fn transitions_are_logged_with_round_and_misses() {
    let mut node = HeartbeatNode::new("node-a".to_owned(), 3, 2);
    node.add_peer("node-b".to_owned());
    node.record_miss("node-b".to_owned(), 7);
    node.record_miss("node-b".to_owned(), 8);
    node.record_miss("node-b".to_owned(), 12);
    let log = node.flush_log();
    assert_eq!(
        log,
        vec![
            "  Round 8: node-b ALIVE -> SUSPECT (misses=2)".to_owned(),
            "  Round 12: node-b SUSPECT -> DEAD (misses=3)".to_owned(),
        ]
    );
    assert!(node.flush_log().is_empty());
}

#[test]
fn recovery_is_logged() {
    let mut node = HeartbeatNode::new("node-a".to_owned(), 5, 1);
    node.add_peer("node-b".to_owned());
    node.record_miss("node-b".to_owned(), 1);
    drop(node.flush_log());
    node.receive_pong("node-b", 40);
    assert_eq!(node.flush_log(), vec!["  Round 40: node-b recovered (SUSPECT -> ALIVE)".to_owned()]);
    node.receive_pong("node-b", 41);
    assert!(node.flush_log().is_empty());
    let state = &node.peers()[0];
    assert_eq!(state.status(), PeerStatus::Alive);
    assert_eq!(state.last_pong_round(), 41);
    assert_eq!(state.total_pongs_received(), 2);
    assert_eq!(state.consecutive_misses(), 0);
}

#[test]
fn dead_peer_ignores_further_misses() {
    let mut node = HeartbeatNode::new("node-a".to_owned(), 1, 1);
    node.add_peer("node-b".to_owned());
    node.record_miss("node-b".to_owned(), 1);
    node.record_miss("node-b".to_owned(), 2);
    assert_eq!(node.peers()[0].consecutive_misses(), 1);
    assert_eq!(node.peers()[0].status(), PeerStatus::Dead);
    assert_eq!(node.flush_log().len(), 1);
}

#[test]
fn unknown_peer_changes_nothing() {
    let mut node = HeartbeatNode::new("node-a".to_owned(), 3, 2);
    node.add_peer("node-b".to_owned());
    node.record_miss("node-z".to_owned(), 1);
    node.receive_pong("node-z", 1);
    assert!(node.flush_log().is_empty());
    assert_eq!(node.get_alive_peers(), vec!["node-b".to_owned()]);
}

#[test]
fn add_same_peer_twice_keeps_one_entry() {
    let mut node = HeartbeatNode::new("node-a".to_owned(), 3, 2);
    node.add_peer("node-b".to_owned());
    node.record_miss("node-b".to_owned(), 1);
    node.add_peer("node-b".to_owned());
    assert_eq!(node.peers().len(), 1);
    assert_eq!(node.peers()[0].consecutive_misses(), 1);
}

#[test]
fn pings_are_counted_and_dead_peers_skipped() {
    let mut node = HeartbeatNode::new("node-a".to_owned(), 1, 1);
    node.add_peer("node-b".to_owned());
    node.add_peer("node-c".to_owned());
    node.record_miss("node-c".to_owned(), 1);
    assert_eq!(node.send_pings(2), vec!["node-b".to_owned()]);
    assert_eq!(node.peers()[0].total_pings_sent(), 1);
    assert_eq!(node.peers()[1].total_pings_sent(), 0);
}

#[test]
fn prune_dead_removes_only_dead() {
    let mut node = HeartbeatNode::new("node-a".to_owned(), 2, 1);
    node.add_peer("node-b".to_owned());
    node.add_peer("node-c".to_owned());
    node.add_peer("node-d".to_owned());
    node.record_miss("node-c".to_owned(), 1);
    node.record_miss("node-c".to_owned(), 2);
    node.record_miss("node-d".to_owned(), 1);
    node.prune_dead();
    assert!(node.get_dead_peers().is_empty());
    assert_eq!(node.get_alive_peers(), vec!["node-b".to_owned()]);
    assert_eq!(node.get_suspect_peers(), vec!["node-d".to_owned()]);
}

#[test]
fn status_labels() {
    assert_eq!(PeerStatus::Alive.label(), "ALIVE");
    assert_eq!(PeerStatus::Suspect.label(), "SUSPECT");
    assert_eq!(PeerStatus::Dead.label(), "DEAD");
}

use p2p_node::algorithms::reputation::{group_votes, ReputationNode, ReputationRecord, NEUTRAL_TRUST_BITS};

#[test]
fn new_peer_neutral_trust() {
    let mut node = ReputationNode::new("node-a".to_owned());
    node.add_peer("node-b".to_owned());

    let ranked = node.get_ranked_peers();
    assert_eq!(ranked.len(), 1);
    let score = f64::from_bits(ranked[0].trust_score());
    assert!(0.3 <= score);
    assert!(score <= 0.7);
}

#[test]
fn neutral_trust_is_one_half() {
    assert_eq!(f64::from_bits(NEUTRAL_TRUST_BITS), 0.5);
    let record = ReputationRecord::new("node-b".to_owned());
    assert_eq!(record.trust_score(), NEUTRAL_TRUST_BITS);
    assert_eq!(record.reports_total(), 0);
    assert_eq!(record.heartbeats_total(), 0);
}

#[test]
fn add_peer_twice_keeps_one_record() {
    let mut node = ReputationNode::new("node-a".to_owned());
    node.add_peer("node-b".to_owned());
    node.record_report("node-b", true);
    node.add_peer("node-b".to_owned());
    assert_eq!(node.known_peer_count(), 1);
    assert_eq!(node.get_ranked_peers()[0].reports_total(), 1);
}

#[test]
fn reports_and_heartbeats_are_counted() {
    let mut node = ReputationNode::new("node-a".to_owned());
    node.add_peer("node-b".to_owned());
    node.record_report("node-b", true);
    node.record_report("node-b", false);
    node.record_report("node-b", true);
    node.record_heartbeat("node-b", false);
    node.record_heartbeat("node-b", true);
    let record = &node.get_ranked_peers()[0];
    assert_eq!(record.reports_total(), 3);
    assert_eq!(record.reports_accurate(), 2);
    assert_eq!(record.heartbeats_total(), 2);
    assert_eq!(record.heartbeats_responded(), 1);
}

#[test]
fn contributions_and_consumptions_add_units() {
    let mut node = ReputationNode::new("node-a".to_owned());
    node.add_peer("node-b".to_owned());
    node.record_contribution("node-b", 7);
    node.record_contribution("node-b", 3);
    node.record_consumption("node-b", 4);
    let record = &node.get_ranked_peers()[0];
    assert_eq!(record.contributions(), 10);
    assert_eq!(record.consumptions(), 4);
}

#[test]
fn unknown_peer_leaves_reputation_unchanged() {
    let mut node = ReputationNode::new("node-a".to_owned());
    node.add_peer("node-b".to_owned());
    node.record_report("node-x", true);
    node.record_heartbeat("node-x", true);
    node.record_contribution("node-x", 5);
    node.set_trust_score("node-x", 0.9_f64.to_bits());
    assert_eq!(node.known_peer_count(), 1);
    assert_eq!(node.trust_score_of("node-x"), None);
    let record = &node.get_ranked_peers()[0];
    assert_eq!(record.reports_total(), 0);
    assert_eq!(record.contributions(), 0);
    assert_eq!(record.trust_score(), NEUTRAL_TRUST_BITS);
}

#[test]
fn ranking_is_highest_trust_first() {
    let mut node = ReputationNode::new("node-a".to_owned());
    for (peer, score) in [("node-b", 0.2_f64), ("node-c", 0.9), ("node-d", 0.55), ("node-e", 0.0)] {
        node.add_peer(peer.to_owned());
        node.set_trust_score(peer, score.to_bits());
    }
    let ids: Vec<String> = node
        .get_ranked_peers()
        .iter()
        .map(|record| record.node_id().to_owned())
        .collect();
    assert_eq!(ids, vec!["node-c", "node-d", "node-b", "node-e"]);
    assert_eq!(node.trust_score_of("node-d"), Some(0.55_f64.to_bits()));
}

#[test]
fn ranking_follows_total_order_of_doubles() {
    let mut node = ReputationNode::new("node-a".to_owned());
    for (peer, score) in [("neg", -1.5_f64), ("negzero", -0.0), ("zero", 0.0), ("big", 3.0)] {
        node.add_peer(peer.to_owned());
        node.set_trust_score(peer, score.to_bits());
    }
    let ids: Vec<String> = node
        .get_ranked_peers()
        .iter()
        .map(|record| record.node_id().to_owned())
        .collect();
    assert_eq!(ids, vec!["big", "zero", "negzero", "neg"]);
}

#[test]
fn ranking_keeps_every_peer_once() {
    let mut node = ReputationNode::new("node-a".to_owned());
    for peer in ["p1", "p2", "p3", "p4", "p5"] {
        node.add_peer(peer.to_owned());
    }
    node.set_trust_score("p3", 0.8_f64.to_bits());
    let mut ids: Vec<String> = node
        .get_ranked_peers()
        .iter()
        .map(|record| record.node_id().to_owned())
        .collect();
    assert_eq!(ids[0], "p3");
    ids.sort();
    assert_eq!(ids, vec!["p1", "p2", "p3", "p4", "p5"]);
}

#[test]
fn flush_log_empties_the_log() {
    let mut node = ReputationNode::new("node-a".to_owned());
    assert!(node.flush_log().is_empty());
    assert!(node.flush_log().is_empty());
}

#[test]
fn votes_group_within_five_percent_of_first_count() {
    let (reps, groups) = group_votes(&vec![100, 105, 106, 95, 94, 200, 111]);
    assert_eq!(reps, vec![100, 106, 94, 200]);
    assert_eq!(groups, vec![0, 0, 1, 0, 2, 3, 1]);
}

#[test]
fn no_votes_make_no_groups() {
    let (reps, groups) = group_votes(&vec![]);
    assert!(reps.is_empty());
    assert!(groups.is_empty());
}

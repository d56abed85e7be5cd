use p2p_node::algorithms::gossip::{GossipNode, PEER_TIME_TO_LIVE};
use p2p_node::node::Id;
use p2p_node::protocol::Peer;

fn id(s: &str) -> Id {
    Id::new(s.to_owned())
}

fn peer(node_id: &str, queue_url: &str) -> Peer {
    Peer {
        node_id: id(node_id),
        queue_url: queue_url.to_owned(),
    }
}

#[test]
fn add_peer_increases_count() {
    let mut node = GossipNode::new(id("node-a"), String::new());
    node.add_peer(id("node-b"), "https://sqs.fake/b".to_owned());
    assert_eq!(node.known_peer_count(), 1);
}

#[test]
fn add_same_peer_twice_no_duplicate() {
    let mut node = GossipNode::new(id("node-a"), String::new());
    node.add_peer(id("node-b"), "https://sqs.fake/b".to_owned());
    node.add_peer(id("node-b"), "https://sqs.fake/b".to_owned());
    assert_eq!(node.known_peer_count(), 1);
}

#[test]
fn pick_target_returns_known_peer() {
    let mut node = GossipNode::new(id("node-a"), String::new());
    node.add_peer(id("node-b"), "https://sqs.fake/b".to_owned());
    node.add_peer(id("node-c"), "https://sqs.fake/c".to_owned());
    let target = node.pick_gossip_target();
    match target {
        Some(chosen) => assert!([id("node-b"), id("node-c")].contains(&chosen)),
        None => panic!("failed to pick a gossip target"),
    }
}

#[test]
fn pick_target_none_when_empty() {
    let node = GossipNode::new(id("node-a"), String::new());
    let target = node.pick_gossip_target();
    assert_eq!(target, None);
}

#[test]
fn peer_list_message_format() {
    let mut node = GossipNode::new(id("node-a"), "https://sqs.fake/a".to_owned());
    node.add_peer(id("node-b"), "https://sqs.fake/b".to_owned());
    let msg = node.get_peer_list_message();
    assert!(!msg.is_empty());
}

#[test]
fn receive_discovers_new_peer() {
    let mut node = GossipNode::new(id("node-a"), String::new());
    node.add_peer(id("node-b"), "https://sqs.fake/b".to_owned());
    let incoming = [peer("node-c", "https://sqs.fake/c")];
    let new = node.receive_peer_list(&incoming, &id("node-b"));
    assert!(node.known_peer_count() >= 2);
    assert_eq!(new, 1);
}

#[test]
fn receive_no_false_new_for_existing_peer() {
    let mut node = GossipNode::new(id("node-a"), String::new());
    node.add_peer(id("node-b"), "https://sqs.fake/b".to_owned());
    let incoming = [peer("node-b", "https://sqs.fake/b")];
    let new = node.receive_peer_list(&incoming, &id("node-b"));
    assert_eq!(new, 0);
}

#[test]
fn age_entries_expires_peers() {
    let mut node = GossipNode::new(id("node-a"), String::new());
    node.add_peer(id("node-b"), "https://sqs.fake/b".to_owned());
    for _ in 0..10 {
        node.age_entries();
    }
    assert_eq!(node.known_peer_count(), 0);
}

#[test]
fn does_not_target_self() {
    let mut node = GossipNode::new(id("node-a"), String::new());
    node.add_peer(id("node-b"), "https://sqs.fake/b".to_owned());
    for _ in 0..20 {
        let target = node.pick_gossip_target();
        if let Some(chosen) = target {
            assert_ne!(chosen, id("node-a"));
        }
    }
}

#[test]
fn peer_list_message_lists_peers_then_self() {
    let mut node = GossipNode::new(id("node-a"), "https://sqs.fake/a".to_owned());
    node.add_peer(id("node-b"), "https://sqs.fake/b".to_owned());
    node.add_peer(id("node-c"), "https://sqs.fake/c".to_owned());
    let msg = node.get_peer_list_message();
    assert_eq!(
        msg,
        vec![
            peer("node-b", "https://sqs.fake/b"),
            peer("node-c", "https://sqs.fake/c"),
            peer("node-a", "https://sqs.fake/a"),
        ]
    );
}

#[test]
fn add_peer_ignores_self() {
    let mut node = GossipNode::new(id("node-a"), String::new());
    node.add_peer(id("node-a"), "https://sqs.fake/a".to_owned());
    assert_eq!(node.known_peer_count(), 0);
}

#[test]
fn receive_skips_self_and_counts_each_new_peer_once() {
    let mut node = GossipNode::new(id("node-a"), String::new());
    let incoming = [
        peer("node-a", "https://sqs.fake/a"),
        peer("node-b", "https://sqs.fake/b"),
        peer("node-c", "https://sqs.fake/c"),
        peer("node-b", "https://sqs.fake/b2"),
    ];
    let new = node.receive_peer_list(&incoming, &id("node-b"));
    assert_eq!(new, 2);
    assert_eq!(node.known_peer_count(), 2);
    assert_eq!(node.peers()[0].queue_url(), "https://sqs.fake/b");
    assert_eq!(node.peers()[1].node_id(), &id("node-c"));
}

#[test]
fn gossip_refreshes_time_to_live() {
    let mut node = GossipNode::new(id("node-a"), String::new());
    node.add_peer(id("node-b"), "https://sqs.fake/b".to_owned());
    node.age_entries();
    node.age_entries();
    assert_eq!(node.peers()[0].time_to_live(), PEER_TIME_TO_LIVE - 2);
    let new = node.receive_peer_list(&[peer("node-b", "https://sqs.fake/b")], &id("node-b"));
    assert_eq!(new, 0);
    assert_eq!(node.peers()[0].time_to_live(), PEER_TIME_TO_LIVE);
}

#[test]
fn peer_lives_exactly_its_time_to_live() {
    let mut node = GossipNode::new(id("node-a"), String::new());
    node.add_peer(id("node-b"), "https://sqs.fake/b".to_owned());
    for _ in 0..4 {
        node.age_entries();
    }
    assert_eq!(node.known_peer_count(), 1);
    assert_eq!(node.peers()[0].time_to_live(), 1);
    node.age_entries();
    assert_eq!(node.known_peer_count(), 0);
}

#[test]
fn exchange_teaches_receiver_the_senders_view() {
    let mut sender = GossipNode::new(id("node-a"), "https://sqs.fake/a".to_owned());
    sender.add_peer(id("node-b"), "https://sqs.fake/b".to_owned());
    sender.add_peer(id("node-c"), "https://sqs.fake/c".to_owned());
    let mut receiver = GossipNode::new(id("node-c"), "https://sqs.fake/c".to_owned());
    let list = sender.get_peer_list_message();
    let new = receiver.receive_peer_list(&list, &id("node-a"));
    assert_eq!(new, 2);
    let known: Vec<Id> = receiver.peers().iter().map(|e| e.node_id().clone()).collect();
    assert_eq!(known, vec![id("node-b"), id("node-a")]);
}

#[test]
fn time_to_live_can_be_set() {
    let mut node = GossipNode::new(id("node-a"), String::new());
    node.add_peer(id("node-b"), "https://sqs.fake/b".to_owned());
    *node.peers_mut()[0].time_to_live_mut() = 1;
    node.age_entries();
    assert_eq!(node.known_peer_count(), 0);
}

#[test]
fn entry_is_described_with_its_time_to_live() {
    let mut node = GossipNode::new(id("node-a"), String::new());
    node.add_peer(id("node-b"), "https://sqs.fake/b".to_owned());
    assert_eq!(node.peers()[0].describe(), "PeerEntry(node-b, ttl=5)");
    *node.peers_mut()[0].time_to_live_mut() = -12;
    assert_eq!(node.peers()[0].describe(), "PeerEntry(node-b, ttl=-12)");
    assert_eq!(node.node_id(), &id("node-a"));
}

#[test]
fn two_nodes_converge_after_a_round_trip() {
    let mut a = GossipNode::new(id("node-a"), "https://sqs.fake/a".to_owned());
    a.add_peer(id("node-x"), "https://sqs.fake/x".to_owned());
    let mut b = GossipNode::new(id("node-b"), "https://sqs.fake/b".to_owned());
    b.add_peer(id("node-y"), "https://sqs.fake/y".to_owned());
    b.add_peer(id("node-x"), "https://sqs.fake/x".to_owned());

    let from_a = a.get_peer_list_message();
    b.receive_peer_list(&from_a, &id("node-a"));
    let from_b = b.get_peer_list_message();
    a.receive_peer_list(&from_b, &id("node-b"));

    let mut view_a: Vec<String> =
        a.peers().iter().map(|e| e.node_id().as_str().to_owned()).collect();
    view_a.push("node-a".to_owned());
    view_a.sort();
    let mut view_b: Vec<String> =
        b.peers().iter().map(|e| e.node_id().as_str().to_owned()).collect();
    view_b.push("node-b".to_owned());
    view_b.sort();
    assert_eq!(view_a, view_b);
    assert_eq!(view_a, vec!["node-a", "node-b", "node-x", "node-y"]);
}

#[test]
fn new_peer_count_skips_self_known_and_repeats() {
    let mut node = GossipNode::new(id("node-a"), String::new());
    node.add_peer(id("node-b"), "https://sqs.fake/b".to_owned());
    let incoming = [
        peer("node-a", ""),
        peer("node-b", ""),
        peer("node-c", ""),
        peer("node-c", ""),
        peer("node-d", ""),
    ];
    assert_eq!(node.new_peer_count(&incoming), 2);
    assert_eq!(node.known_peer_count(), 1);
    assert_eq!(node.receive_peer_list(&incoming, &id("node-b")), 2);
}

#[test]
fn add_peer_refreshes_a_known_peer() {
    let mut node = GossipNode::new(id("node-a"), String::new());
    node.add_peer(id("node-b"), "https://sqs.fake/b".to_owned());
    node.age_entries();
    node.age_entries();
    assert_eq!(node.peers()[0].time_to_live(), PEER_TIME_TO_LIVE - 2);
    node.add_peer(id("node-b"), "https://sqs.fake/other".to_owned());
    assert_eq!(node.known_peer_count(), 1);
    assert_eq!(node.peers()[0].time_to_live(), PEER_TIME_TO_LIVE);
    assert_eq!(node.peers()[0].queue_url(), "https://sqs.fake/b");
}

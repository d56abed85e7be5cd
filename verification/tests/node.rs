use p2p_node::algorithms::heartbeat::PeerStatus;
use p2p_node::node::{Action, Id, P2PNode, PeriodicTask, TaskSchedule};
use p2p_node::protocol::{
    AuditResult, Choke, Hello, Message, Peer, PeerList, Ping, Pong, Timestamp, ViewEvent,
};

fn id(s: &str) -> Id {
    Id::new(s.to_owned())
}

fn at() -> Timestamp {
    Timestamp::from_parts(1_700_000_000, 0)
}

fn hello(from: &str, url: &str) -> Message {
    Message::Hello {
        message: Hello::from_parts(id(from), at(), "m-hello".to_owned(), url.to_owned()),
    }
}

fn view_event(from: &str, content: &str, count: u64) -> Message {
    Message::ViewEvent {
        message: ViewEvent::from_parts(
            id(from),
            at(),
            "m-view".to_owned(),
            format!("{from}-evt"),
            content.to_owned(),
            count,
            None,
        ),
    }
}

fn node_with_peers(peers: &[&str]) -> P2PNode {
    let mut node = P2PNode::new(id("sam"), false, Some("https://sqs.fake/sam".to_owned()));
    for p in peers {
        let actions = node.handle_message(&hello(p, &format!("https://sqs.fake/{p}")));
        assert_eq!(actions.len(), 2);
    }
    node
}

#[test]
fn id_round_trips_its_name() {
    let a = id("node-a");
    assert_eq!(a.as_str(), "node-a");
    assert_eq!(a.clone(), id("node-a"));
    assert_ne!(a, id("node-b"));
}

#[test]
fn new_node_starts_empty_with_its_intervals() {
    let node = P2PNode::new(id("sam"), true, None);
    assert_eq!(node.node_id(), &id("sam"));
    assert_eq!(node.queue_url(), None);
    assert!(node.verbose());
    assert!(!node.is_running());
    assert_eq!(node.gossip().known_peer_count(), 0);
    assert_eq!(node.rounds(), 0);
    assert_eq!(node.ping_seq(), 0);
    assert_eq!(node.messages_received(), 0);
    assert_eq!(node.messages_sent(), 0);
    assert_eq!(node.interval(PeriodicTask::Gossip), 15);
    assert_eq!(node.interval(PeriodicTask::Heartbeat), 10);
    assert_eq!(node.interval(PeriodicTask::Choking), 30);
    assert_eq!(node.interval(PeriodicTask::Reputation), 30);
    assert_eq!(node.interval(PeriodicTask::Publish), 15);
    assert_eq!(node.interval(PeriodicTask::Audit), 45);
    assert!(!node.is_due(PeriodicTask::Audit, 44));
    assert!(node.is_due(PeriodicTask::Audit, 45));
}

#[test]
fn start_and_shutdown_toggle_running() {
    let mut node = P2PNode::new(id("sam"), false, None);
    node.start();
    assert!(node.is_running());
    node.shutdown();
    assert!(!node.is_running());
}

#[test]
fn own_messages_are_ignored() {
    let mut node = P2PNode::new(id("sam"), false, None);
    let actions = node.handle_message(&hello("sam", "https://sqs.fake/sam"));
    assert!(actions.is_empty());
    assert_eq!(node.messages_received(), 0);
    assert_eq!(node.gossip().known_peer_count(), 0);
}

#[test]
fn hello_registers_sender_and_answers_with_peer_list() {
    let mut node = P2PNode::new(id("sam"), false, Some("https://sqs.fake/sam".to_owned()));
    let actions = node.handle_message(&hello("node-b", "https://sqs.fake/b"));
    assert_eq!(node.messages_received(), 1);
    assert_eq!(node.gossip().known_peer_count(), 1);
    assert_eq!(node.heartbeat().get_alive_peers(), vec!["node-b".to_owned()]);
    assert_eq!(node.choking().get_choked_peers(), vec!["node-b".to_owned()]);
    assert_eq!(node.reputation().known_peer_count(), 1);
    assert_eq!(actions.len(), 2);
    match &actions[0] {
        Action::RememberQueueUrl { node_id, queue_url } => {
            assert_eq!(node_id, &id("node-b"));
            assert_eq!(queue_url, "https://sqs.fake/b");
        }
        other => panic!("unexpected action {other:?}"),
    }
    match &actions[1] {
        Action::Send { to, message: Message::PeerList { message } } => {
            assert_eq!(to, &id("node-b"));
            assert_eq!(message.sender(), &id("sam"));
            assert_eq!(message.msg_id().len(), 36);
            let peers: Vec<Peer> = message.peers().to_vec();
            assert_eq!(
                peers,
                vec![
                    Peer { node_id: id("node-b"), queue_url: "https://sqs.fake/b".to_owned() },
                    Peer { node_id: id("sam"), queue_url: "https://sqs.fake/sam".to_owned() },
                ]
            );
        }
        other => panic!("unexpected action {other:?}"),
    }
}

#[test]
fn peer_list_registers_every_known_peer() {
    let mut node = node_with_peers(&["node-b"]);
    let list = PeerList::from_parts(
        id("node-b"),
        at(),
        "m-list".to_owned(),
        vec![
            Peer { node_id: id("node-c"), queue_url: "https://sqs.fake/c".to_owned() },
            Peer { node_id: id("sam"), queue_url: "https://sqs.fake/sam".to_owned() },
        ],
    );
    let actions = node.handle_message(&Message::PeerList { message: list });
    assert_eq!(node.gossip().known_peer_count(), 2);
    assert_eq!(
        node.heartbeat().get_alive_peers(),
        vec!["node-b".to_owned(), "node-c".to_owned()]
    );
    assert_eq!(node.reputation().known_peer_count(), 2);
    let remembered: Vec<(String, String)> = actions
        .iter()
        .map(|a| match a {
            Action::RememberQueueUrl { node_id, queue_url } => {
                (node_id.as_str().to_owned(), queue_url.clone())
            }
            other => panic!("unexpected action {other:?}"),
        })
        .collect();
    assert_eq!(
        remembered,
        vec![
            ("node-b".to_owned(), "https://sqs.fake/node-b".to_owned()),
            ("node-c".to_owned(), "https://sqs.fake/c".to_owned()),
        ]
    );
}

#[test]
fn ping_is_answered_with_pong_of_same_seq() {
    let mut node = node_with_peers(&["node-b"]);
    let ping = Ping::from_parts(id("node-b"), at(), "m-ping".to_owned(), 31337);
    let actions = node.handle_message(&Message::Ping { message: ping });
    assert_eq!(actions.len(), 1);
    match &actions[0] {
        Action::Send { to, message: Message::Pong { message } } => {
            assert_eq!(to, &id("node-b"));
            assert_eq!(message.sender(), &id("sam"));
            assert_eq!(message.seq(), 31337);
        }
        other => panic!("unexpected action {other:?}"),
    }
    assert_eq!(node.choking().peers()[0].contributed(), 1);
    assert_eq!(node.reputation().get_ranked_peers()[0].contributions(), 1);
}

#[test]
fn pong_marks_peer_heard_from() {
    let mut node = node_with_peers(&["node-b"]);
    let pong = Pong::from_parts(id("node-b"), at(), "m-pong".to_owned(), 42);
    let actions = node.handle_message(&Message::Pong { message: pong });
    assert!(actions.is_empty());
    let state = &node.heartbeat().peers()[0];
    assert_eq!(state.status(), PeerStatus::Alive);
    assert_eq!(state.total_pongs_received(), 1);
    assert_eq!(state.last_pong_round(), 42);
    let record = &node.reputation().get_ranked_peers()[0];
    assert_eq!(record.heartbeats_total(), 1);
    assert_eq!(record.heartbeats_responded(), 1);
}

#[test]
fn choke_changes_nothing_but_the_count() {
    let mut node = node_with_peers(&["node-b"]);
    let choke = Choke::from_parts(id("node-b"), at(), "m-choke".to_owned());
    let actions = node.handle_message(&Message::Choke { message: choke });
    assert!(actions.is_empty());
    assert_eq!(node.messages_received(), 2);
}

#[test]
fn audit_needs_two_reports_and_checks_them() {
    let mut node = node_with_peers(&["node-b", "node-c", "node-d"]);
    assert!(node.choose_audit().is_none());
    node.handle_message(&view_event("node-b", "show:neon-drift", 100));
    assert!(node.choose_audit().is_none());
    node.handle_message(&view_event("node-c", "show:neon-drift", 100));
    node.handle_message(&view_event("node-d", "show:neon-drift", 999));
    node.handle_message(&view_event("node-b", "show:other", 5));
    let (content, votes) = node.choose_audit().expect("one content has three reports");
    assert_eq!(content, "show:neon-drift");
    let votes: Vec<(String, u64)> =
        votes.iter().map(|(p, c)| (p.as_str().to_owned(), *c)).collect();
    assert_eq!(
        votes,
        vec![
            ("node-b".to_owned(), 100),
            ("node-c".to_owned(), 100),
            ("node-d".to_owned(), 999),
        ]
    );
    let (result, actions) = node.finish_audit(&content, 100, 0.66_f64.to_bits());
    assert_eq!(result.sender(), &id("sam"));
    assert_eq!(result.content_id(), "show:neon-drift");
    assert_eq!(result.agreed_count(), 100);
    assert_eq!(f64::from_bits(result.confidence()), 0.66);
    let voters: Vec<Id> = result.voters().expect("voters are listed").to_vec();
    assert_eq!(voters, vec![id("node-b"), id("node-c"), id("node-d")]);
    assert_eq!(actions.len(), 3);
    for record in node.reputation().get_ranked_peers() {
        assert_eq!(record.reports_total(), 1);
        let accurate = if record.node_id() == "node-d" { 0 } else { 1 };
        assert_eq!(record.reports_accurate(), accurate);
    }
}

#[test]
fn later_view_event_replaces_earlier_one() {
    let mut node = node_with_peers(&["node-b", "node-c"]);
    node.handle_message(&view_event("node-b", "show:neon-drift", 1));
    node.handle_message(&view_event("node-c", "show:neon-drift", 2));
    node.handle_message(&view_event("node-b", "show:neon-drift", 3));
    let (_, votes) = node.choose_audit().expect("two reports");
    let votes: Vec<u64> = votes.iter().map(|(_, c)| *c).collect();
    assert_eq!(votes, vec![3, 2]);
}

#[test]
fn audit_result_counts_a_contribution() {
    let mut node = node_with_peers(&["node-b"]);
    let result = AuditResult::from_parts(
        id("node-b"),
        at(),
        "m-audit".to_owned(),
        "show:midnight-run".to_owned(),
        150,
        0.9_f64.to_bits(),
        None,
    );
    node.handle_message(&Message::AuditResult { message: result });
    assert_eq!(node.reputation().get_ranked_peers()[0].contributions(), 1);
    assert_eq!(node.choking().peers()[0].contributed(), 0);
}

#[test]
fn publish_bumps_one_count_and_tells_alive_peers() {
    let mut node = node_with_peers(&["node-b", "node-c"]);
    let (event, actions) = node.do_publish().expect("there is content to publish");
    assert_eq!(event.sender(), &id("sam"));
    assert_eq!(event.count(), 1);
    assert!(["show:midnight-run", "show:neon-drift", "show:binary-sunset"]
        .contains(&event.content_id()));
    let event_id = event.event_id();
    assert_eq!(event_id.len(), "sam-".len() + 8);
    assert!(event_id.starts_with("sam-"));
    assert!(event_id[4..].chars().all(|c| c.is_ascii_hexdigit() && !c.is_ascii_uppercase()));
    let targets: Vec<String> = actions
        .iter()
        .map(|a| match a {
            Action::Send { to, message: Message::ViewEvent { message } } => {
                assert_eq!(message.msg_id(), event.msg_id());
                to.as_str().to_owned()
            }
            other => panic!("unexpected action {other:?}"),
        })
        .collect();
    assert_eq!(targets, vec!["node-b".to_owned(), "node-c".to_owned()]);
}

#[test]
fn heartbeat_round_pings_living_peers_with_next_seq() {
    let mut node = node_with_peers(&["node-b", "node-c"]);
    let actions = node.do_heartbeat();
    assert_eq!(node.ping_seq(), 1);
    assert_eq!(actions.len(), 2);
    for action in &actions {
        match action {
            Action::Send { message: Message::Ping { message }, .. } => {
                assert_eq!(message.seq(), 1);
                assert_eq!(message.sender(), &id("sam"));
            }
            other => panic!("unexpected action {other:?}"),
        }
    }
    assert_eq!(node.heartbeat().peers()[0].total_pings_sent(), 1);
}

#[test]
fn gossip_goes_to_a_known_peer() {
    let mut node = P2PNode::new(id("sam"), false, None);
    assert!(node.do_gossip().is_empty());
    node.handle_message(&hello("node-b", "https://sqs.fake/b"));
    let actions = node.do_gossip();
    assert_eq!(actions.len(), 1);
    match &actions[0] {
        Action::Send { to, message: Message::PeerList { message } } => {
            assert_eq!(to, &id("node-b"));
            assert_eq!(message.peers().len(), 2);
        }
        other => panic!("unexpected action {other:?}"),
    }
}

#[test]
fn bootstrap_greets_default_bots() {
    let node = P2PNode::new(id("sam"), false, Some("https://sqs.fake/sam".to_owned()));
    let actions = node.bootstrap(None);
    let mut targets = Vec::new();
    for action in &actions {
        match action {
            Action::Send { to, message: Message::Hello { message } } => {
                assert_eq!(message.queue_url(), "https://sqs.fake/sam");
                targets.push(to.as_str().to_owned());
            }
            other => panic!("unexpected action {other:?}"),
        }
    }
    assert_eq!(targets, vec!["bot-alpha", "bot-bravo", "bot-charlie"]);
    let custom = node.bootstrap(Some(vec![id("x")]));
    assert_eq!(custom.len(), 1);
}

#[test]
fn rounds_age_the_gossip_table() {
    let mut node = node_with_peers(&["node-b"]);
    for round in 1..=4 {
        assert_eq!(node.begin_round(), round);
        node.end_round();
    }
    assert_eq!(node.gossip().known_peer_count(), 1);
    node.begin_round();
    node.end_round();
    assert_eq!(node.gossip().known_peer_count(), 0);
    assert_eq!(node.rounds(), 5);
}

#[test]
fn hearing_from_a_peer_refreshes_its_time_to_live() {
    let mut node = node_with_peers(&["node-b"]);
    for _ in 0..4 {
        node.end_round();
    }
    let ping = Ping::from_parts(id("node-b"), at(), "m-ping".to_owned(), 1);
    node.handle_message(&Message::Ping { message: ping });
    assert_eq!(node.gossip().peers()[0].time_to_live(), 5);
}

#[test]
fn choking_round_logs_its_changes() {
    let mut node = node_with_peers(&["node-b"]);
    let lines = node.do_choking();
    assert_eq!(node.choking().round(), 1);
    assert_eq!(node.choking().get_unchoked_peers(), vec!["node-b".to_owned()]);
    assert_eq!(lines.len(), 1);
}

#[test]
fn trust_scores_can_be_set_through_the_node() {
    let mut node = node_with_peers(&["node-b"]);
    node.set_trust_score("node-b", 0.75_f64.to_bits());
    assert_eq!(node.reputation().trust_score_of("node-b"), Some(0.75_f64.to_bits()));
}

#[test]
fn ordinary_messages_can_be_taken() {
    let node = node_with_peers(&["node-b"]);
    assert!(node.can_take(&hello("node-c", "https://sqs.fake/c")));
    let ping = Ping::from_parts(id("node-b"), at(), "m-ping".to_owned(), 1);
    assert!(node.can_take(&Message::Ping { message: ping }));
    let list = PeerList::from_parts(id("node-b"), at(), "m".to_owned(), vec![]);
    assert!(node.can_take(&Message::PeerList { message: list }));
}

#[test]
fn a_peer_list_with_too_many_new_peers_cannot_be_taken() {
    let node = node_with_peers(&["node-b"]);
    let many: Vec<Peer> = (0..256)
        .map(|i| Peer { node_id: id(&format!("p{i}")), queue_url: String::new() })
        .collect();
    let list = PeerList::from_parts(id("node-b"), at(), "m".to_owned(), many.clone());
    assert!(!node.can_take(&Message::PeerList { message: list }));
    let fewer = PeerList::from_parts(id("node-b"), at(), "m".to_owned(), many[..255].to_vec());
    assert!(node.can_take(&Message::PeerList { message: fewer }));
    assert_eq!(node.gossip().new_peer_count(&many), 256);
}

#[test]
fn parts_can_be_looked_up_by_peer() {
    let node = node_with_peers(&["node-b"]);
    assert_eq!(node.choking().tracker("node-b").map(|t| t.contributed()), Some(0));
    assert!(node.choking().tracker("node-x").is_none());
    assert_eq!(
        node.heartbeat().peer_state("node-b").map(|p| p.status()),
        Some(PeerStatus::Alive)
    );
    assert!(node.heartbeat().peer_state("node-x").is_none());
    assert_eq!(node.reputation().record("node-b").map(|r| r.reports_total()), Some(0));
    assert!(node.reputation().record("node-x").is_none());
    let counts: Vec<(String, u64)> = node
        .view_counts()
        .iter()
        .map(|c| (c.content_id().to_owned(), c.count()))
        .collect();
    assert_eq!(
        counts,
        vec![
            ("show:midnight-run".to_owned(), 0),
            ("show:neon-drift".to_owned(), 0),
            ("show:binary-sunset".to_owned(), 0),
        ]
    );
}

#[test]
fn sent_messages_are_counted() {
    let mut node = P2PNode::new(id("sam"), false, None);
    node.record_sent();
    node.record_sent();
    assert_eq!(node.messages_sent(), 2);
    assert_eq!(node.messages_received(), 0);
}

#[test]
fn schedule_runs_due_tasks_in_order_and_restarts_their_clocks() {
    let node = P2PNode::new(id("sam"), false, None);
    let second: u64 = 1_000_000_000;
    let mut schedule = TaskSchedule::new(0);
    assert!(schedule.take_due(&node, 9 * second + second - 1).is_empty());
    assert_eq!(schedule.take_due(&node, 10 * second), vec![PeriodicTask::Heartbeat]);
    assert_eq!(schedule.last(PeriodicTask::Heartbeat), 10 * second);
    assert_eq!(schedule.last(PeriodicTask::Gossip), 0);
    assert_eq!(
        schedule.take_due(&node, 30 * second),
        vec![
            PeriodicTask::Gossip,
            PeriodicTask::Heartbeat,
            PeriodicTask::Choking,
            PeriodicTask::Reputation,
            PeriodicTask::Publish,
        ]
    );
    assert_eq!(schedule.last(PeriodicTask::Audit), 0);
    assert_eq!(
        schedule.take_due(&node, 45 * second),
        vec![PeriodicTask::Gossip, PeriodicTask::Heartbeat, PeriodicTask::Publish, PeriodicTask::Audit]
    );
    // A clock reading earlier than a task's last run counts as no time passed.
    assert!(schedule.take_due(&node, 5 * second).is_empty());
}

use p2p_node::algorithms::election::{ElectionNode, ElectionStatus};
use p2p_node::node::Id;

fn id(name: &str) -> Id {
    Id::new(name.to_owned())
}

fn bots() -> Vec<Id> {
    vec![id("bot-a"), id("bot-b"), id("bot-c")]
}

fn leader_name(node: &ElectionNode) -> Option<String> {
    node.current_leader().map(|l| l.as_str().to_owned())
}

#[test]
fn new_node_is_a_follower_without_leader() {
    let node = ElectionNode::new(id("bot-b"), bots(), 0);
    assert!(node.is_bot());
    assert_eq!(node.state(), ElectionStatus::Follower);
    assert_eq!(node.term(), 0);
    assert_eq!(leader_name(&node), None);
    assert!(!node.election_in_progress());
    assert!(!node.got_ok());

    let client = ElectionNode::new(id("client"), bots(), 0);
    assert!(!client.is_bot());
}

#[test]
fn top_bot_declares_itself_leader() {
    let mut node = ElectionNode::new(id("bot-c"), bots(), 0);
    let alive = vec![id("bot-a"), id("bot-b")];
    let out = node.start_election(&alive, &vec![false, false, false], 100);
    assert!(out.is_empty());
    assert_eq!(node.term(), 1);
    assert_eq!(node.state(), ElectionStatus::Leader);
    assert_eq!(leader_name(&node), Some("bot-c".to_owned()));
    assert!(!node.election_in_progress());
}

#[test]
fn election_challenges_live_bots_that_outrank() {
    let mut node = ElectionNode::new(id("bot-a"), bots(), 0);
    // bot-b is dead, bot-a is the node itself, bot-c is alive and outranks.
    let alive = vec![id("bot-c"), id("client")];
    let out = node.start_election(&alive, &vec![true, true, true], 100);
    let targets: Vec<(String, u64)> = out.iter().map(|(b, t)| (b.as_str().to_owned(), *t)).collect();
    assert_eq!(targets, vec![("bot-c".to_owned(), 1)]);
    assert_eq!(node.state(), ElectionStatus::Candidate);
    assert!(node.election_in_progress());
    assert!(!node.got_ok());
    assert_eq!(leader_name(&node), None);
}

#[test]
fn outranked_bots_are_not_challenged() {
    let mut node = ElectionNode::new(id("bot-b"), bots(), 0);
    let alive = bots();
    let out = node.start_election(&alive, &vec![false, true, true], 5);
    let targets: Vec<String> = out.iter().map(|(b, _)| b.as_str().to_owned()).collect();
    assert_eq!(targets, vec!["bot-c".to_owned()]);
}

#[test]
fn client_without_targets_stays_candidate() {
    let mut node = ElectionNode::new(id("client"), bots(), 0);
    let out = node.start_election(&vec![], &vec![true, true, true], 5);
    assert!(out.is_empty());
    assert_eq!(node.state(), ElectionStatus::Candidate);
    assert!(node.election_in_progress());
    assert_eq!(leader_name(&node), None);
    assert_eq!(node.term(), 1);
}

#[test]
fn outranking_bot_answers_election() {
    let mut node = ElectionNode::new(id("bot-c"), bots(), 0);
    let answer = node.receive_election(id("bot-a"), 4, true, 10);
    let answer = answer.map(|(s, t)| (s.as_str().to_owned(), t));
    assert_eq!(answer, Some(("bot-a".to_owned(), 4)));
    assert_eq!(node.term(), 4);
    assert_eq!(node.state(), ElectionStatus::Candidate);
    assert!(node.election_in_progress());
}

#[test]
fn outranked_or_client_node_stays_silent() {
    let mut bot = ElectionNode::new(id("bot-a"), bots(), 0);
    assert!(bot.receive_election(id("bot-c"), 2, false, 10).is_none());
    assert_eq!(bot.term(), 2);
    assert_eq!(bot.state(), ElectionStatus::Follower);

    let mut client = ElectionNode::new(id("client"), bots(), 0);
    assert!(client.receive_election(id("bot-c"), 3, true, 10).is_none());
    assert_eq!(client.term(), 3);
    assert!(!client.election_in_progress());
}

#[test]
fn lower_term_election_keeps_own_term() {
    let mut node = ElectionNode::new(id("bot-c"), bots(), 0);
    node.receive_coordinator(id("bot-c"), 7, 1);
    let answer = node.receive_election(id("bot-a"), 3, true, 10);
    assert_eq!(answer.map(|(_, t)| t), Some(7));
    assert_eq!(node.term(), 7);
}

#[test]
fn election_ok_makes_node_back_off() {
    let mut node = ElectionNode::new(id("bot-a"), bots(), 0);
    node.start_election(&bots(), &vec![true, true, true], 1);
    assert!(!node.got_ok());
    node.receive_election_ok(&id("bot-c"), 1);
    assert!(node.got_ok());
}

#[test]
fn coordinator_is_accepted_at_same_or_higher_term() {
    let mut node = ElectionNode::new(id("bot-a"), bots(), 0);
    node.start_election(&bots(), &vec![true, true, true], 1);
    assert!(node.receive_coordinator(id("bot-c"), 1, 2));
    assert_eq!(leader_name(&node), Some("bot-c".to_owned()));
    assert_eq!(node.state(), ElectionStatus::Follower);
    assert!(!node.election_in_progress());
    assert!(node.receive_coordinator(id("bot-b"), 5, 3));
    assert_eq!(node.term(), 5);
    assert_eq!(leader_name(&node), Some("bot-b".to_owned()));
}

#[test]
fn stale_coordinator_is_ignored() {
    let mut node = ElectionNode::new(id("bot-a"), bots(), 0);
    assert!(node.receive_coordinator(id("bot-c"), 6, 1));
    assert!(!node.receive_coordinator(id("bot-b"), 5, 2));
    assert_eq!(node.term(), 6);
    assert_eq!(leader_name(&node), Some("bot-c".to_owned()));
    assert_eq!(node.state(), ElectionStatus::Follower);
}

#[test]
fn check_leader_decisions() {
    let mut node = ElectionNode::new(id("client"), bots(), 0);
    // No leader known: an election is needed.
    assert!(node.check_leader(&vec![], 0));

    node.receive_coordinator(id("bot-c"), 1, 1000);
    // The leader is alive: no election, and contact is refreshed.
    assert!(!node.check_leader(&vec![id("bot-c")], 20_000));
    // Gone, but not for longer than the timeout since the last contact.
    assert!(!node.check_leader(&vec![], 35_000));
    // Gone for longer than the timeout.
    assert!(node.check_leader(&vec![], 35_001));

    // While an election runs, none is started.
    node.start_election(&vec![], &vec![false, false, false], 40_000);
    assert!(node.election_in_progress());
    assert!(!node.check_leader(&vec![], 100_000));
}

//! The peer-to-peer node: its identifier, and the decisions it takes.
//!
//! The node's transport (message queues) and clock live outside this
//! module: each handler takes what arrived and returns the actions the
//! transport is to carry out, and the periodic tasks are run when the
//! caller finds them due.

use vstd::prelude::*;

use crate::algorithms::choking::{
    choking_added, choking_contributed, choking_round_result, choose_index, lemma_round_keeps_ids,
    string_list_view, tracker_index, ChokingNode, ChokingView,
};
use crate::algorithms::content::{ViewEventRecord, ViewEventRecordView};
use crate::algorithms::gossip::{
    advertised, aged, entry_ids, entry_index, gossip_added, gossip_refreshed, lists_id,
    merge_peer_list,
    GossipNode, GossipView, PeerEntryView,
};
use crate::algorithms::heartbeat::{
    has_status, heartbeat_added, heartbeat_pinged, heartbeat_ponged, ids_where, not_dead,
    peer_index, strings_view, HeartbeatNode, HeartbeatView, PeerStatus,
};
use crate::algorithms::reputation::{
    distinct_records, record_index, reputation_added, reputation_contributed, reputation_heartbeat_recorded,
    reputation_reported, reputation_scored, ReputationNode, ReputationView,
};
use crate::protocol::{
    is_v4_uuid_text, optional_view, AuditResult, AuditResultView, Hello, HelloView, Message,
    MessageView, PeerList, PeerListView, Ping, PingView, Pong, PongView, ViewEvent,
    ViewEventView,
};
use crate::text::{hex_byte, push_hex_byte};

verus! {

/// The identifier of a node in the network.
#[derive(Debug, Hash, Default, PartialOrd, Ord)]
pub struct Id {
    node_id: String,
}

impl View for Id {
    type V = Seq<char>;

    closed spec fn view(&self) -> Seq<char> {
        self.node_id@
    }
}

impl Id {
    /// Wraps a node name.
    pub fn new(node_id: String) -> (r: Id)
        ensures
            r@ == node_id@,
    {
        Id { node_id }
    }

    /// The node name as a string slice.
    pub fn as_str(&self) -> (r: &str)
        ensures
            r@ == self@,
    {
        self.node_id.as_str()
    }
}

impl Clone for Id {
    fn clone(&self) -> (r: Self)
        ensures
            r@ == self@,
    {
        Id { node_id: self.node_id.clone() }
    }
}

impl PartialEq for Id {
    fn eq(&self, other: &Self) -> (r: bool) {
        self.node_id == other.node_id
    }
}

impl vstd::std_specs::cmp::PartialEqSpecImpl for Id {
    open spec fn obeys_eq_spec() -> bool {
        true
    }

    open spec fn eq_spec(&self, other: &Id) -> bool {
        self@ == other@
    }
}

impl Eq for Id {
}

/// The identifiers of a list of nodes.
pub open spec fn ids_view(ids: Seq<Id>) -> Seq<Seq<char>> {
    ids.map_values(|id: Id| id@)
}

/// What a node asks its transport to do.
#[derive(Debug)]
pub enum Action {
    /// Send `message` to the queue of node `to`.
    Send { to: Id, message: Message },
    /// Remember that node `node_id` listens on `queue_url`.
    RememberQueueUrl { node_id: Id, queue_url: String },
}

/// The plain values of an action.
pub enum ActionView {
    Send { to: Seq<char>, message: MessageView },
    RememberQueueUrl { node_id: Seq<char>, queue_url: Seq<char> },
}

impl View for Action {
    type V = ActionView;

    open spec fn view(&self) -> ActionView {
        match self {
            Action::Send { to, message } => ActionView::Send { to: to@, message: message@ },
            Action::RememberQueueUrl { node_id, queue_url } => ActionView::RememberQueueUrl {
                node_id: node_id@,
                queue_url: queue_url@,
            },
        }
    }
}

/// The plain values of a list of actions.
pub open spec fn actions_view(actions: Seq<Action>) -> Seq<ActionView> {
    actions.map_values(|a: Action| a@)
}

/// The actions send one and the same `message` to each of `targets`, in order.
pub open spec fn sends_to_all(actions: Seq<ActionView>, targets: Seq<Seq<char>>, message: MessageView) -> bool {
    &&& actions.len() == targets.len()
    &&& forall|i: int|
        0 <= i < targets.len() ==> #[trigger] actions[i] == ActionView::Send {
            to: targets[i],
            message,
        }
}

/// The work a node does on a timer.
#[derive(Debug, Clone, Copy, PartialEq, Eq, Structural, Hash)]
pub enum PeriodicTask {
    Gossip,
    Heartbeat,
    Choking,
    Reputation,
    Publish,
    Audit,
}

/// The view events that peers reported for one piece of content, one per
/// peer.
#[derive(Debug)]
pub struct ContentEvents {
    content_id: String,
    events: Vec<ViewEventRecord>,
}

/// The plain values a `ContentEvents` holds.
pub struct ContentEventsView {
    pub content_id: Seq<char>,
    pub events: Seq<ViewEventRecordView>,
}

impl View for ContentEvents {
    type V = ContentEventsView;

    closed spec fn view(&self) -> ContentEventsView {
        ContentEventsView {
            content_id: self.content_id@,
            events: self.events@.map_values(|e: ViewEventRecord| e@),
        }
    }
}

/// How often this node has viewed one piece of content.
#[derive(Debug)]
pub struct ViewCount {
    content_id: String,
    count: u64,
}

/// The plain values a `ViewCount` holds.
pub struct ViewCountView {
    pub content_id: Seq<char>,
    pub count: u64,
}

impl View for ViewCount {
    type V = ViewCountView;

    closed spec fn view(&self) -> ViewCountView {
        ViewCountView { content_id: self.content_id@, count: self.count }
    }
}

impl ViewCount {
    /// The viewed content.
    pub fn content_id(&self) -> (r: &str)
        ensures
            r@ == self@.content_id,
    {
        self.content_id.as_str()
    }

    /// How often this node viewed it.
    pub fn count(&self) -> (r: u64)
        ensures
            r == self@.count,
    {
        self.count
    }
}

/// The plain values a `P2PNode` holds.
pub struct P2PNodeView {
    pub node_id: Seq<char>,
    pub verbose: bool,
    pub running: bool,
    pub queue_url: Option<Seq<char>>,
    pub gossip: GossipView,
    pub heartbeat: HeartbeatView,
    pub choking: ChokingView,
    pub reputation: ReputationView,
    pub view_events: Seq<ContentEventsView>,
    pub view_counts: Seq<ViewCountView>,
    pub gossip_interval: u16,
    pub heartbeat_interval: u16,
    pub choking_interval: u16,
    pub reputation_interval: u16,
    pub publish_interval: u16,
    pub audit_interval: u16,
    pub ping_seq: u16,
    pub messages_received: u32,
    pub messages_sent: u32,
    pub rounds: u32,
}

/// A peer-to-peer node: gossip, heartbeat, choking and reputation, the view
/// events peers reported, and the content this node publishes.
#[derive(Debug)]
pub struct P2PNode {
    node_id: Id,
    verbose: bool,
    running: bool,
    queue_url: Option<String>,
    gossip: GossipNode,
    heartbeat: HeartbeatNode,
    choking: ChokingNode,
    reputation: ReputationNode,
    view_events: Vec<ContentEvents>,
    view_counts: Vec<ViewCount>,
    gossip_interval: u16,
    heartbeat_interval: u16,
    choking_interval: u16,
    reputation_interval: u16,
    publish_interval: u16,
    audit_interval: u16,
    ping_seq: u16,
    messages_received: u32,
    messages_sent: u32,
    rounds: u32,
}

impl View for P2PNode {
    type V = P2PNodeView;

    closed spec fn view(&self) -> P2PNodeView {
        P2PNodeView {
            node_id: self.node_id@,
            verbose: self.verbose,
            running: self.running,
            queue_url: optional_view(self.queue_url),
            gossip: self.gossip@,
            heartbeat: self.heartbeat@,
            choking: self.choking@,
            reputation: self.reputation@,
            view_events: self.view_events@.map_values(|c: ContentEvents| c@),
            view_counts: self.view_counts@.map_values(|c: ViewCount| c@),
            gossip_interval: self.gossip_interval,
            heartbeat_interval: self.heartbeat_interval,
            choking_interval: self.choking_interval,
            reputation_interval: self.reputation_interval,
            publish_interval: self.publish_interval,
            audit_interval: self.audit_interval,
            ping_seq: self.ping_seq,
            messages_received: self.messages_received,
            messages_sent: self.messages_sent,
            rounds: self.rounds,
        }
    }
}

/// The text of an optional string, or the empty text.
pub open spec fn text_or_empty(o: Option<Seq<char>>) -> Seq<char> {
    match o {
        Some(t) => t,
        None => Seq::empty(),
    }
}

/// The content a new node publishes views of, none viewed yet.
pub open spec fn initial_view_counts() -> Seq<ViewCountView> {
    seq![
        ViewCountView { content_id: "show:midnight-run"@, count: 0 },
        ViewCountView { content_id: "show:neon-drift"@, count: 0 },
        ViewCountView { content_id: "show:binary-sunset"@, count: 0 },
    ]
}

/// A freshly made node: it knows no peer, has heard no view event, is not
/// running, and runs gossip and publishing every 15 seconds, heartbeats
/// every 10, choking and reputation every 30 and audits every 45. Peers are
/// suspect after 2 missed heartbeats and dead after 3; up to 4 peers are
/// unchoked, and one more optimistically every 3 choking rounds.
pub open spec fn initial_node(node_id: Seq<char>, verbose: bool, queue_url: Option<Seq<char>>) -> P2PNodeView {
    P2PNodeView {
        node_id,
        verbose,
        running: false,
        queue_url,
        gossip: GossipView {
            node_id,
            queue_url: text_or_empty(queue_url),
            peers: Seq::empty(),
            log: Seq::empty(),
        },
        heartbeat: HeartbeatView {
            node_id,
            miss_threshold: 3,
            grace_period: 2,
            peers: Seq::empty(),
            log: Seq::empty(),
        },
        choking: ChokingView {
            node_id,
            max_unchoked: 4,
            optimistic_interval: 3,
            peers: Seq::empty(),
            round: 0,
            optimistic_peer: None,
            log: Seq::empty(),
        },
        reputation: ReputationView { node_id, peers: Seq::empty(), log: Seq::empty() },
        view_events: Seq::empty(),
        view_counts: initial_view_counts(),
        gossip_interval: 15,
        heartbeat_interval: 10,
        choking_interval: 30,
        reputation_interval: 30,
        publish_interval: 15,
        audit_interval: 45,
        ping_seq: 0,
        messages_received: 0,
        messages_sent: 0,
        rounds: 0,
    }
}

/// `id` is monitored by the liveness monitor.
pub open spec fn monitored(h: HeartbeatView, id: Seq<char>) -> bool {
    exists|j: int| 0 <= j < h.peers.len() && #[trigger] h.peers[j].node_id == id
}

/// `id` has a tracker in the choker.
pub open spec fn choked_or_served(c: ChokingView, id: Seq<char>) -> bool {
    exists|j: int| 0 <= j < c.peers.len() && #[trigger] c.peers[j].node_id == id
}

/// `id` has a record in the reputation table.
pub open spec fn rated(t: ReputationView, id: Seq<char>) -> bool {
    exists|j: int| 0 <= j < t.peers.len() && #[trigger] t.peers[j].node_id == id
}

/// Every peer of the gossip table is monitored, has a tracker in the choker
/// and has a reputation record.
pub open spec fn gossip_peers_registered(v: P2PNodeView) -> bool {
    forall|i: int|
        0 <= i < v.gossip.peers.len() ==> {
            let id = #[trigger] v.gossip.peers[i].node_id;
            monitored(v.heartbeat, id) && choked_or_served(v.choking, id) && rated(v.reputation, id)
        }
}

/// The position of the events of `content_id`, or -1.
pub open spec fn content_index(table: Seq<ContentEventsView>, content_id: Seq<char>) -> int {
    if exists|i: int| 0 <= i < table.len() && table[i].content_id == content_id {
        choose|i: int| 0 <= i < table.len() && table[i].content_id == content_id
    } else {
        -1
    }
}

/// The position of the event that `peer_id` reported, or -1.
pub open spec fn event_index(events: Seq<ViewEventRecordView>, peer_id: Seq<char>) -> int {
    if exists|i: int| 0 <= i < events.len() && events[i].peer_id == peer_id {
        choose|i: int| 0 <= i < events.len() && events[i].peer_id == peer_id
    } else {
        -1
    }
}

/// No two pieces of content are listed twice, and no peer has two events
/// for one piece of content.
pub open spec fn events_ok(table: Seq<ContentEventsView>) -> bool {
    &&& forall|i: int, j: int|
        0 <= i < table.len() && 0 <= j < table.len() && i != j ==> table[i].content_id
            != table[j].content_id
    &&& forall|k: int, i: int, j: int|
        0 <= k < table.len() && 0 <= i < table[k].events.len() && 0 <= j < table[k].events.len()
            && i != j ==> table[k].events[i].peer_id != table[k].events[j].peer_id
}

/// The view events after `record` arrived: it replaces the event its peer
/// reported earlier for the same content, or joins that content's events,
/// or starts the list of a content not heard of before.
pub open spec fn events_recorded(table: Seq<ContentEventsView>, record: ViewEventRecordView) -> Seq<
    ContentEventsView,
> {
    let ci = content_index(table, record.content_id);
    if ci < 0 {
        table.push(ContentEventsView { content_id: record.content_id, events: seq![record] })
    } else {
        let events = table[ci].events;
        let pi = event_index(events, record.peer_id);
        table.update(
            ci,
            ContentEventsView {
                events: if pi < 0 {
                    events.push(record)
                } else {
                    events.update(pi, record)
                },
                ..table[ci]
            },
        )
    }
}

/// The interval, in seconds, of a periodic task.
pub open spec fn task_interval(v: P2PNodeView, task: PeriodicTask) -> u16 {
    match task {
        PeriodicTask::Gossip => v.gossip_interval,
        PeriodicTask::Heartbeat => v.heartbeat_interval,
        PeriodicTask::Choking => v.choking_interval,
        PeriodicTask::Reputation => v.reputation_interval,
        PeriodicTask::Publish => v.publish_interval,
        PeriodicTask::Audit => v.audit_interval,
    }
}

impl P2PNode {
    /// The parts are well formed and share the node's identifier, every
    /// gossip peer is monitored, served or choked, and rated, and the view events are
    /// keyed by content and peer.
    pub closed spec fn wf(&self) -> bool {
        &&& self.gossip.wf()
        &&& self.heartbeat.wf()
        &&& self.choking.wf()
        &&& self.reputation.wf()
        &&& self@.gossip.node_id == self@.node_id
        &&& events_ok(self@.view_events)
        &&& gossip_peers_registered(self@)
    }

    /// A new node named `node_id`, listening on `queue_url` if it has one.
    pub fn new(node_id: Id, verbose: bool, queue_url: Option<String>) -> (r: P2PNode)
        ensures
            r.wf(),
            r@ == initial_node(node_id@, verbose, optional_view(queue_url)),
    {
        let url = match &queue_url {
            Some(u) => u.clone(),
            None => String::new(),
        };
        let name = node_id.as_str().to_owned();
        let gossip = GossipNode::new(node_id.clone(), url);
        let heartbeat = HeartbeatNode::new(name.clone(), 3, 2);
        let choking = ChokingNode::new(name.clone(), 4, 3);
        let reputation = ReputationNode::new(name);
        let mut view_counts: Vec<ViewCount> = Vec::new();
        view_counts.push(ViewCount { content_id: "show:midnight-run".to_owned(), count: 0 });
        view_counts.push(ViewCount { content_id: "show:neon-drift".to_owned(), count: 0 });
        view_counts.push(ViewCount { content_id: "show:binary-sunset".to_owned(), count: 0 });
        let r = P2PNode {
            node_id,
            verbose,
            running: false,
            queue_url,
            gossip,
            heartbeat,
            choking,
            reputation,
            view_events: Vec::new(),
            view_counts,
            gossip_interval: 15,
            heartbeat_interval: 10,
            choking_interval: 30,
            reputation_interval: 30,
            publish_interval: 15,
            audit_interval: 45,
            ping_seq: 0,
            messages_received: 0,
            messages_sent: 0,
            rounds: 0,
        };
        assert(r@.view_events =~= Seq::<ContentEventsView>::empty());
        assert(r@.view_counts =~= initial_view_counts());
        assert(r@ == initial_node(r@.node_id, verbose, r@.queue_url));
        r
    }

    /// The node's identifier.
    pub fn node_id(&self) -> (r: &Id)
        ensures
            r@ == self@.node_id,
    {
        &self.node_id
    }

    /// The URL of the node's own queue, if it has one.
    pub fn queue_url(&self) -> (r: Option<&str>)
        ensures
            match r {
                Some(u) => self@.queue_url == Some(u@),
                None => self@.queue_url is None,
            },
    {
        match &self.queue_url {
            Some(u) => Some(u.as_str()),
            None => None,
        }
    }

    /// Whether the node reports what it does in detail.
    pub fn verbose(&self) -> (r: bool)
        ensures
            r == self@.verbose,
    {
        self.verbose
    }

    /// The node's gossip table.
    pub fn gossip(&self) -> (r: &GossipNode)
        ensures
            r@ == self@.gossip,
    {
        &self.gossip
    }

    /// The node's liveness monitor.
    pub fn heartbeat(&self) -> (r: &HeartbeatNode)
        ensures
            r@ == self@.heartbeat,
    {
        &self.heartbeat
    }

    /// The node's choker.
    pub fn choking(&self) -> (r: &ChokingNode)
        ensures
            r@ == self@.choking,
    {
        &self.choking
    }

    /// The node's reputation table.
    pub fn reputation(&self) -> (r: &ReputationNode)
        ensures
            r@ == self@.reputation,
    {
        &self.reputation
    }

    /// The content this node publishes views of, with its view counts.
    pub fn view_counts(&self) -> (r: &Vec<ViewCount>)
        ensures
            r@.map_values(|c: ViewCount| c@) == self@.view_counts,
    {
        &self.view_counts
    }

    /// The sequence number of the last PING round.
    pub fn ping_seq(&self) -> (r: u16)
        ensures
            r == self@.ping_seq,
    {
        self.ping_seq
    }

    /// Messages received from other nodes.
    pub fn messages_received(&self) -> (r: u32)
        ensures
            r == self@.messages_received,
    {
        self.messages_received
    }

    /// Messages sent and counted.
    pub fn messages_sent(&self) -> (r: u32)
        ensures
            r == self@.messages_sent,
    {
        self.messages_sent
    }

    /// Counts one more message that went out: the transport calls it after
    /// each successful send.
    pub fn record_sent(&mut self)
        requires
            old(self)@.messages_sent < u32::MAX,
        ensures
            final(self)@ == (P2PNodeView { messages_sent: (old(self)@.messages_sent + 1) as u32, ..old(self)@ }),
            old(self).wf() ==> final(self).wf(),
    {
        self.messages_sent = self.messages_sent + 1;
    }

    /// Rounds of the main loop begun so far.
    pub fn rounds(&self) -> (r: u32)
        ensures
            r == self@.rounds,
    {
        self.rounds
    }

    /// Whether the main loop is to keep running.
    pub fn is_running(&self) -> (r: bool)
        ensures
            r == self@.running,
    {
        self.running
    }

    /// The interval, in seconds, of a periodic task.
    pub fn interval(&self, task: PeriodicTask) -> (r: u16)
        ensures
            r == task_interval(self@, task),
    {
        match task {
            PeriodicTask::Gossip => self.gossip_interval,
            PeriodicTask::Heartbeat => self.heartbeat_interval,
            PeriodicTask::Choking => self.choking_interval,
            PeriodicTask::Reputation => self.reputation_interval,
            PeriodicTask::Publish => self.publish_interval,
            PeriodicTask::Audit => self.audit_interval,
        }
    }

    /// Whether a task last run `elapsed_secs` whole seconds ago is due: its
    /// interval has passed.
    pub fn is_due(&self, task: PeriodicTask, elapsed_secs: u64) -> (r: bool)
        ensures
            r == (elapsed_secs >= task_interval(self@, task)),
    {
        let interval = self.interval(task);
        elapsed_secs >= interval as u64
    }

    /// Marks the node as running its main loop.
    pub fn start(&mut self)
        ensures
            final(self)@ == (P2PNodeView { running: true, ..old(self)@ }),
    {
        self.running = true;
    }

    /// Asks the main loop to stop after the current round.
    pub fn shutdown(&mut self)
        ensures
            final(self)@ == (P2PNodeView { running: false, ..old(self)@ }),
    {
        self.running = false;
    }
}

/// The monitor after each of `ids` is registered, in order.
pub open spec fn heartbeat_added_all(h: HeartbeatView, ids: Seq<Seq<char>>) -> HeartbeatView
    decreases ids.len(),
{
    if ids.len() == 0 {
        h
    } else {
        heartbeat_added(heartbeat_added_all(h, ids.drop_last()), ids.last())
    }
}

/// The choker after each of `ids` is registered, in order.
pub open spec fn choking_added_all(c: ChokingView, ids: Seq<Seq<char>>) -> ChokingView
    decreases ids.len(),
{
    if ids.len() == 0 {
        c
    } else {
        choking_added(choking_added_all(c, ids.drop_last()), ids.last(), true)
    }
}

/// The reputation table after each of `ids` is registered, in order.
pub open spec fn reputation_added_all(t: ReputationView, ids: Seq<Seq<char>>) -> ReputationView
    decreases ids.len(),
{
    if ids.len() == 0 {
        t
    } else {
        reputation_added(reputation_added_all(t, ids.drop_last()), ids.last())
    }
}

/// Remembering the queue URL of each entry of a gossip table, in order.
pub open spec fn remembered(peers: Seq<PeerEntryView>) -> Seq<ActionView> {
    peers.map_values(
        |e: PeerEntryView| ActionView::RememberQueueUrl { node_id: e.node_id, queue_url: e.queue_url },
    )
}

/// Whether a contribution of one unit by `id` can be counted without
/// overflow, by the choker and by the reputation table.
pub open spec fn contribution_allowed(v: P2PNodeView, id: Seq<char>) -> bool {
    &&& tracker_index(v.choking.peers, id) >= 0 ==> v.choking.peers[tracker_index(
        v.choking.peers,
        id,
    )].contributed < u32::MAX
    &&& reputation_contribution_allowed(v, id)
}

/// Whether a contribution of one unit by `id` can be counted without
/// overflow by the reputation table.
pub open spec fn reputation_contribution_allowed(v: P2PNodeView, id: Seq<char>) -> bool {
    record_index(v.reputation.peers, id) >= 0 ==> v.reputation.peers[record_index(
        v.reputation.peers,
        id,
    )].contributions < u32::MAX
}

/// Whether a PONG from `id` can be counted without overflow.
pub open spec fn pong_allowed(v: P2PNodeView, id: Seq<char>) -> bool {
    &&& peer_index(v.heartbeat.peers, id) >= 0 ==> v.heartbeat.peers[peer_index(
        v.heartbeat.peers,
        id,
    )].total_pongs_received < u8::MAX
    &&& record_index(v.reputation.peers, id) >= 0 ==> v.reputation.peers[record_index(
        v.reputation.peers,
        id,
    )].heartbeats_total < u32::MAX
}

/// Answering a HELLO: the sender joins the gossip table (with its queue URL),
/// the liveness monitor, the choker (as an interested peer) and the
/// reputation table; its URL is
/// remembered, and it is sent our PEER_LIST.
pub open spec fn hello_handled(
    before: P2PNodeView,
    after: P2PNodeView,
    actions: Seq<ActionView>,
    hello: HelloView,
) -> bool {
    let s = hello.sender;
    let url = hello.queue_url;
    let gossip = gossip_added(before.gossip, s, url);
    &&& after == P2PNodeView {
        gossip,
        heartbeat: heartbeat_added(before.heartbeat, s),
        choking: choking_added(before.choking, s, true),
        reputation: reputation_added(before.reputation, s),
        ..before
    }
    &&& actions.len() == 2
    &&& actions[0] == ActionView::RememberQueueUrl { node_id: s, queue_url: url }
    &&& actions[1] matches ActionView::Send { to, message: MessageView::PeerList(pl) } && to == s
        && pl.sender == before.node_id && pl.peers == advertised(
        gossip.peers,
        gossip.node_id,
        gossip.queue_url,
    ) && is_v4_uuid_text(pl.msg_id)
}

/// Taking in a PEER_LIST: it is merged into the gossip table, and every
/// peer of the merged table joins the liveness monitor, the choker and the
/// reputation table and has its queue URL remembered, in table order.
pub open spec fn peer_list_handled(
    before: P2PNodeView,
    after: P2PNodeView,
    actions: Seq<ActionView>,
    list: PeerListView,
) -> bool {
    let merged = merge_peer_list(before.gossip.peers, list.peers, before.gossip.node_id);
    let ids = entry_ids(merged.0);
    &&& after == P2PNodeView {
        gossip: GossipView { peers: merged.0, ..before.gossip },
        heartbeat: heartbeat_added_all(before.heartbeat, ids),
        choking: choking_added_all(before.choking, ids),
        reputation: reputation_added_all(before.reputation, ids),
        ..before
    }
    &&& actions == remembered(merged.0)
}

/// Answering a PING: the sender is sent a PONG with the same sequence
/// number, and its contribution of one unit is counted.
pub open spec fn ping_handled(
    before: P2PNodeView,
    after: P2PNodeView,
    actions: Seq<ActionView>,
    ping: PingView,
) -> bool {
    &&& after == P2PNodeView {
        choking: choking_contributed(before.choking, ping.sender, 1),
        reputation: reputation_contributed(before.reputation, ping.sender, 1),
        ..before
    }
    &&& actions.len() == 1
    &&& actions[0] matches ActionView::Send { to, message: MessageView::Pong(pong) } && to
        == ping.sender && pong.sender == before.node_id && pong.seq == ping.seq
        && is_v4_uuid_text(pong.msg_id)
}

/// Taking in a PONG: the liveness monitor hears from the sender (its
/// sequence number standing for the round), and the reputation table
/// counts an answered heartbeat.
pub open spec fn pong_handled(before: P2PNodeView, after: P2PNodeView, pong: PongView) -> bool {
    after == P2PNodeView {
        heartbeat: heartbeat_ponged(before.heartbeat, pong.sender, pong.seq as u32),
        reputation: reputation_heartbeat_recorded(before.reputation, pong.sender, true),
        ..before
    }
}

/// The record a VIEW_EVENT makes.
pub open spec fn event_record(event: ViewEventView) -> ViewEventRecordView {
    ViewEventRecordView {
        peer_id: event.sender,
        event_id: event.event_id,
        content_id: event.content_id,
        count: event.count,
        ad_id: event.ad_id,
    }
}

/// Taking in a VIEW_EVENT: the event is recorded, and the sender's
/// contribution of one unit is counted.
pub open spec fn view_event_handled(before: P2PNodeView, after: P2PNodeView, event: ViewEventView) -> bool {
    after == P2PNodeView {
        view_events: events_recorded(before.view_events, event_record(event)),
        choking: choking_contributed(before.choking, event.sender, 1),
        reputation: reputation_contributed(before.reputation, event.sender, 1),
        ..before
    }
}

/// Taking in an AUDIT_RESULT: the sender's contribution of one unit is
/// counted by the reputation table.
pub open spec fn audit_result_handled(
    before: P2PNodeView,
    after: P2PNodeView,
    audit: AuditResultView,
) -> bool {
    after == P2PNodeView {
        reputation: reputation_contributed(before.reputation, audit.sender, 1),
        ..before
    }
}

/// The sender of any message.
pub open spec fn sender_of(m: MessageView) -> Seq<char> {
    match m {
        MessageView::Hello(x) => x.sender,
        MessageView::PeerList(x) => x.sender,
        MessageView::Ping(x) => x.sender,
        MessageView::Pong(x) => x.sender,
        MessageView::ViewEvent(x) => x.sender,
        MessageView::AuditResult(x) => x.sender,
        MessageView::Choke(x) => x.sender,
        MessageView::Unchoke(x) => x.sender,
    }
}

/// The node after a message from `sender` arrived, before it is acted on:
/// one more message received, and the sender, if in the gossip table, gets
/// a full time to live again.
pub open spec fn received(v: P2PNodeView, sender: Seq<char>) -> P2PNodeView {
    P2PNodeView {
        messages_received: (v.messages_received + 1) as u32,
        gossip: gossip_refreshed(v.gossip, sender),
        ..v
    }
}

/// Whether a message can be taken in without an overflow.
pub open spec fn message_allowed(v: P2PNodeView, m: MessageView) -> bool {
    let s = sender_of(m);
    s != v.node_id ==> {
        &&& v.messages_received < u32::MAX
        &&& match m {
            MessageView::PeerList(list) => merge_peer_list(
                v.gossip.peers,
                list.peers,
                v.gossip.node_id,
            ).1 <= u8::MAX,
            MessageView::Ping(_) => contribution_allowed(v, s),
            MessageView::Pong(_) => pong_allowed(v, s),
            MessageView::ViewEvent(_) => contribution_allowed(v, s),
            MessageView::AuditResult(_) => reputation_contribution_allowed(v, s),
            _ => true,
        }
    }
}

/// Taking in any message: one from the node itself is ignored; otherwise it
/// is counted, its sender refreshed in the gossip table, and it is handled
/// according to its kind (CHOKE and UNCHOKE change nothing more).
pub open spec fn message_handled(
    before: P2PNodeView,
    after: P2PNodeView,
    actions: Seq<ActionView>,
    m: MessageView,
) -> bool {
    let s = sender_of(m);
    if s == before.node_id {
        after == before && actions.len() == 0
    } else {
        let mid = received(before, s);
        match m {
            MessageView::Hello(x) => hello_handled(mid, after, actions, x),
            MessageView::PeerList(x) => peer_list_handled(mid, after, actions, x),
            MessageView::Ping(x) => ping_handled(mid, after, actions, x),
            MessageView::Pong(x) => pong_handled(mid, after, x) && actions.len() == 0,
            MessageView::ViewEvent(x) => view_event_handled(mid, after, x) && actions.len() == 0,
            MessageView::AuditResult(x) => audit_result_handled(mid, after, x) && actions.len()
                == 0,
            _ => after == mid && actions.len() == 0,
        }
    }
}

/// Registration survives a step in which the gossip table gains no peer
/// that is not registered afterwards, and nobody loses a registration.
proof fn lemma_registered_kept(before: P2PNodeView, after: P2PNodeView)
    requires
        gossip_peers_registered(before),
        forall|id: Seq<char>|
            lists_id(after.gossip.peers, id) ==> lists_id(before.gossip.peers, id) || (monitored(
                after.heartbeat,
                id,
            ) && choked_or_served(after.choking, id) && rated(after.reputation, id)),
        forall|id: Seq<char>| monitored(before.heartbeat, id) ==> monitored(after.heartbeat, id),
        forall|id: Seq<char>| choked_or_served(before.choking, id) ==> choked_or_served(after.choking, id),
        forall|id: Seq<char>| rated(before.reputation, id) ==> rated(after.reputation, id),
    ensures
        gossip_peers_registered(after),
{
    assert forall|i: int| 0 <= i < after.gossip.peers.len() implies {
        let id = #[trigger] after.gossip.peers[i].node_id;
        monitored(after.heartbeat, id) && choked_or_served(after.choking, id) && rated(after.reputation, id)
    } by {
        let id = after.gossip.peers[i].node_id;
        assert(lists_id(after.gossip.peers, id));
        if lists_id(before.gossip.peers, id) {
            let k = choose|k: int| 0 <= k < before.gossip.peers.len() && #[trigger] before.gossip.peers[k].node_id == id;
            assert(before.gossip.peers[k].node_id == id);
        }
    }
}

proof fn lemma_heartbeat_added(h: HeartbeatView, x: Seq<char>)
    ensures
        forall|id: Seq<char>| #[trigger] monitored(heartbeat_added(h, x), id) <==> (monitored(h, id) || id == x),
{
    let a = heartbeat_added(h, x);
    assert forall|id: Seq<char>| monitored(a, id) <==> (monitored(h, id) || id == x) by {
        if monitored(h, id) {
            let j = choose|j: int| 0 <= j < h.peers.len() && #[trigger] h.peers[j].node_id == id;
            assert(a.peers[j].node_id == id);
        }
        if id == x {
            if peer_index(h.peers, x) >= 0 {
                let j = peer_index(h.peers, x);
                assert(h.peers[j].node_id == x);
                assert(a.peers[j].node_id == id);
            } else {
                assert(a.peers[h.peers.len() as int].node_id == id);
            }
        }
        if monitored(a, id) {
            let j = choose|j: int| 0 <= j < a.peers.len() && #[trigger] a.peers[j].node_id == id;
            if j < h.peers.len() {
                assert(h.peers[j].node_id == id);
            }
        }
    }
}

proof fn lemma_heartbeat_added_all(h: HeartbeatView, ids: Seq<Seq<char>>)
    ensures
        forall|id: Seq<char>|
            #[trigger] monitored(heartbeat_added_all(h, ids), id) <==> (monitored(h, id) || ids.contains(id)),
    decreases ids.len(),
{
    if ids.len() > 0 {
        lemma_heartbeat_added_all(h, ids.drop_last());
        lemma_heartbeat_added(heartbeat_added_all(h, ids.drop_last()), ids.last());
        assert forall|id: Seq<char>| ids.contains(id) <==> (ids.drop_last().contains(id) || id
            == ids.last()) by {
            if ids.contains(id) {
                let k = choose|k: int| 0 <= k < ids.len() && ids[k] == id;
                if k < ids.len() - 1 {
                    assert(ids.drop_last()[k] == id);
                }
            }
            if ids.drop_last().contains(id) {
                let k = choose|k: int| 0 <= k < ids.drop_last().len() && ids.drop_last()[k] == id;
                assert(ids[k] == id);
            }
            if id == ids.last() {
                assert(ids[ids.len() - 1] == id);
            }
        }
    }
}

proof fn lemma_heartbeat_same_ids(a: HeartbeatView, b: HeartbeatView)
    requires
        a.peers.len() == b.peers.len(),
        forall|j: int| 0 <= j < a.peers.len() ==> #[trigger] a.peers[j].node_id == b.peers[j].node_id,
    ensures
        forall|id: Seq<char>| monitored(a, id) <==> monitored(b, id),
{
    assert forall|id: Seq<char>| monitored(a, id) <==> monitored(b, id) by {
        if monitored(a, id) {
            let j = choose|j: int| 0 <= j < a.peers.len() && #[trigger] a.peers[j].node_id == id;
            assert(b.peers[j].node_id == id);
        }
        if monitored(b, id) {
            let j = choose|j: int| 0 <= j < b.peers.len() && #[trigger] b.peers[j].node_id == id;
            assert(a.peers[j].node_id == id);
        }
    }
}

proof fn lemma_choking_added(c: ChokingView, x: Seq<char>)
    ensures
        forall|id: Seq<char>|
            #[trigger] choked_or_served(choking_added(c, x, true), id) <==> (choked_or_served(c, id) || id == x),
{
    let a = choking_added(c, x, true);
    assert forall|id: Seq<char>| choked_or_served(a, id) <==> (choked_or_served(c, id) || id == x) by {
        if choked_or_served(c, id) {
            let j = choose|j: int| 0 <= j < c.peers.len() && #[trigger] c.peers[j].node_id == id;
            assert(a.peers[j].node_id == id);
        }
        if id == x {
            if tracker_index(c.peers, x) >= 0 {
                let j = tracker_index(c.peers, x);
                assert(c.peers[j].node_id == x);
                assert(a.peers[j].node_id == id);
            } else {
                assert(a.peers[c.peers.len() as int].node_id == id);
            }
        }
        if choked_or_served(a, id) {
            let j = choose|j: int| 0 <= j < a.peers.len() && #[trigger] a.peers[j].node_id == id;
            if j < c.peers.len() {
                assert(c.peers[j].node_id == id);
            }
        }
    }
}

proof fn lemma_choking_added_all(c: ChokingView, ids: Seq<Seq<char>>)
    ensures
        forall|id: Seq<char>|
            #[trigger] choked_or_served(choking_added_all(c, ids), id) <==> (choked_or_served(c, id)
                || ids.contains(id)),
    decreases ids.len(),
{
    if ids.len() > 0 {
        lemma_choking_added_all(c, ids.drop_last());
        lemma_choking_added(choking_added_all(c, ids.drop_last()), ids.last());
        assert forall|id: Seq<char>| ids.contains(id) <==> (ids.drop_last().contains(id) || id
            == ids.last()) by {
            if ids.contains(id) {
                let k = choose|k: int| 0 <= k < ids.len() && ids[k] == id;
                if k < ids.len() - 1 {
                    assert(ids.drop_last()[k] == id);
                }
            }
            if ids.drop_last().contains(id) {
                let k = choose|k: int| 0 <= k < ids.drop_last().len() && ids.drop_last()[k] == id;
                assert(ids[k] == id);
            }
            if id == ids.last() {
                assert(ids[ids.len() - 1] == id);
            }
        }
    }
}

proof fn lemma_choking_same_ids(a: ChokingView, b: ChokingView)
    requires
        a.peers.len() == b.peers.len(),
        forall|j: int| 0 <= j < a.peers.len() ==> #[trigger] a.peers[j].node_id == b.peers[j].node_id,
    ensures
        forall|id: Seq<char>| choked_or_served(a, id) <==> choked_or_served(b, id),
{
    assert forall|id: Seq<char>| choked_or_served(a, id) <==> choked_or_served(b, id) by {
        if choked_or_served(a, id) {
            let j = choose|j: int| 0 <= j < a.peers.len() && #[trigger] a.peers[j].node_id == id;
            assert(b.peers[j].node_id == id);
        }
        if choked_or_served(b, id) {
            let j = choose|j: int| 0 <= j < b.peers.len() && #[trigger] b.peers[j].node_id == id;
            assert(a.peers[j].node_id == id);
        }
    }
}

proof fn lemma_reputation_added(t: ReputationView, x: Seq<char>)
    ensures
        forall|id: Seq<char>| #[trigger] rated(reputation_added(t, x), id) <==> (rated(t, id) || id == x),
{
    let a = reputation_added(t, x);
    assert forall|id: Seq<char>| rated(a, id) <==> (rated(t, id) || id == x) by {
        if rated(t, id) {
            let j = choose|j: int| 0 <= j < t.peers.len() && #[trigger] t.peers[j].node_id == id;
            assert(a.peers[j].node_id == id);
        }
        if id == x {
            if record_index(t.peers, x) >= 0 {
                let j = record_index(t.peers, x);
                assert(t.peers[j].node_id == x);
                assert(a.peers[j].node_id == id);
            } else {
                assert(a.peers[t.peers.len() as int].node_id == id);
            }
        }
        if rated(a, id) {
            let j = choose|j: int| 0 <= j < a.peers.len() && #[trigger] a.peers[j].node_id == id;
            if j < t.peers.len() {
                assert(t.peers[j].node_id == id);
            }
        }
    }
}

proof fn lemma_reputation_added_all(t: ReputationView, ids: Seq<Seq<char>>)
    ensures
        forall|id: Seq<char>|
            #[trigger] rated(reputation_added_all(t, ids), id) <==> (rated(t, id) || ids.contains(id)),
    decreases ids.len(),
{
    if ids.len() > 0 {
        lemma_reputation_added_all(t, ids.drop_last());
        lemma_reputation_added(reputation_added_all(t, ids.drop_last()), ids.last());
        assert forall|id: Seq<char>| ids.contains(id) <==> (ids.drop_last().contains(id) || id
            == ids.last()) by {
            if ids.contains(id) {
                let k = choose|k: int| 0 <= k < ids.len() && ids[k] == id;
                if k < ids.len() - 1 {
                    assert(ids.drop_last()[k] == id);
                }
            }
            if ids.drop_last().contains(id) {
                let k = choose|k: int| 0 <= k < ids.drop_last().len() && ids.drop_last()[k] == id;
                assert(ids[k] == id);
            }
            if id == ids.last() {
                assert(ids[ids.len() - 1] == id);
            }
        }
    }
}

proof fn lemma_reputation_same_ids(a: ReputationView, b: ReputationView)
    requires
        a.peers.len() == b.peers.len(),
        forall|j: int| 0 <= j < a.peers.len() ==> #[trigger] a.peers[j].node_id == b.peers[j].node_id,
    ensures
        forall|id: Seq<char>| rated(a, id) <==> rated(b, id),
{
    assert forall|id: Seq<char>| rated(a, id) <==> rated(b, id) by {
        if rated(a, id) {
            let j = choose|j: int| 0 <= j < a.peers.len() && #[trigger] a.peers[j].node_id == id;
            assert(b.peers[j].node_id == id);
        }
        if rated(b, id) {
            let j = choose|j: int| 0 <= j < b.peers.len() && #[trigger] b.peers[j].node_id == id;
            assert(a.peers[j].node_id == id);
        }
    }
}

/// Adding a peer to the gossip table brings in no identifier but its own.
proof fn lemma_gossip_added_ids(g: GossipView, x: Seq<char>, url: Seq<char>)
    ensures
        forall|id: Seq<char>|
            lists_id(gossip_added(g, x, url).peers, id) ==> lists_id(g.peers, id) || id == x,
{
    let a = gossip_added(g, x, url).peers;
    assert forall|id: Seq<char>| lists_id(a, id) implies lists_id(g.peers, id) || id == x by {
        let k = choose|k: int| 0 <= k < a.len() && #[trigger] a[k].node_id == id;
        if k < g.peers.len() {
            assert(g.peers[k].node_id == id);
        }
    }
}

/// Merging a list into two tables that list the same identifiers, in the
/// same order, finds as many new peers and again lists the same identifiers.
proof fn lemma_merge_same_count(
    p1: Seq<PeerEntryView>,
    p2: Seq<PeerEntryView>,
    incoming: Seq<crate::protocol::PeerView>,
    self_id: Seq<char>,
)
    requires
        entry_ids(p1) == entry_ids(p2),
    ensures
        merge_peer_list(p1, incoming, self_id).1 == merge_peer_list(p2, incoming, self_id).1,
        entry_ids(merge_peer_list(p1, incoming, self_id).0) == entry_ids(
            merge_peer_list(p2, incoming, self_id).0,
        ),
    decreases incoming.len(),
{
    if incoming.len() > 0 {
        let front = incoming.drop_last();
        let last = incoming.last();
        lemma_merge_same_count(p1, p2, front, self_id);
        let a = merge_peer_list(p1, front, self_id).0;
        let b = merge_peer_list(p2, front, self_id).0;
        let id = last.node_id;
        assert(a.len() == entry_ids(a).len());
        assert(b.len() == entry_ids(b).len());
        assert forall|i: int| 0 <= i < a.len() implies #[trigger] a[i].node_id == b[i].node_id by {
            assert(entry_ids(a)[i] == a[i].node_id);
            assert(entry_ids(b)[i] == b[i].node_id);
        }
        if entry_index(a, id) >= 0 {
            let i = entry_index(a, id);
            assert(a[i].node_id == id);
            assert(b[i].node_id == id);
        }
        if entry_index(b, id) >= 0 {
            let i = entry_index(b, id);
            assert(b[i].node_id == id);
            assert(a[i].node_id == id);
        }
        let (ra, _) = merge_peer_list(p1, incoming, self_id);
        let (rb, _) = merge_peer_list(p2, incoming, self_id);
        assert(entry_ids(ra) =~= entry_ids(rb));
    }
}

proof fn lemma_content_index(table: Seq<ContentEventsView>, content_id: Seq<char>, i: int)
    requires
        events_ok(table),
        0 <= i < table.len(),
        table[i].content_id == content_id,
    ensures
        content_index(table, content_id) == i,
{
}

proof fn lemma_event_index(events: Seq<ViewEventRecordView>, peer_id: Seq<char>, i: int)
    requires
        forall|a: int, b: int|
            0 <= a < events.len() && 0 <= b < events.len() && a != b ==> events[a].peer_id
                != events[b].peer_id,
        0 <= i < events.len(),
        events[i].peer_id == peer_id,
    ensures
        event_index(events, peer_id) == i,
{
}

impl P2PNode {
    /// Adds a view event: it replaces the one its peer reported earlier for
    /// the same content.
    fn record_event(&mut self, record: ViewEventRecord)
        requires
            old(self).wf(),
        ensures
            final(self).wf(),
            final(self)@ == (P2PNodeView {
                view_events: events_recorded(old(self)@.view_events, record@),
                ..old(self)@
            }),
    {
        let ghost table = self@.view_events;
        let ghost rec = record@;
        let key = record.content_id().to_owned();
        let mut ci: usize = 0;
        while ci < self.view_events.len()
            invariant
                ci <= self.view_events@.len(),
                self.wf(),
                self@.view_events == table,
                key@ == rec.content_id,
                forall|j: int| 0 <= j < ci ==> table[j].content_id != rec.content_id,
            ensures
                ci <= self.view_events@.len(),
                self.wf(),
                self@.view_events == table,
                forall|j: int| 0 <= j < ci ==> table[j].content_id != rec.content_id,
                ci < self.view_events@.len() ==> table[ci as int].content_id == rec.content_id,
            decreases self.view_events@.len() - ci,
        {
            assert(table[ci as int] == self.view_events@[ci as int]@);
            if self.view_events[ci].content_id == key {
                break;
            }
            ci = ci + 1;
        }
        if ci == self.view_events.len() {
            let mut events: Vec<ViewEventRecord> = Vec::new();
            events.push(record);
            let entry = ContentEvents { content_id: key, events };
            assert(entry@.events =~= seq![rec]);
            self.view_events.push(entry);
            assert(self@.view_events =~= table.push(
                ContentEventsView { content_id: rec.content_id, events: seq![rec] },
            ));
        } else {
            proof {
                lemma_content_index(table, rec.content_id, ci as int);
            }
            let mut entry = self.view_events.remove(ci);
            assert(entry@ == table[ci as int]);
            let ghost events = entry@.events;
            let mut pi: usize = 0;
            while pi < entry.events.len()
                invariant
                    pi <= entry.events@.len(),
                    entry@.events == events,
                    events_ok(table),
                    0 <= ci < table.len(),
                    events == table[ci as int].events,
                    forall|j: int| 0 <= j < pi ==> events[j].peer_id != rec.peer_id,
                    record@ == rec,
                ensures
                    pi <= entry.events@.len(),
                    entry@.events == events,
                    forall|j: int| 0 <= j < pi ==> events[j].peer_id != rec.peer_id,
                    pi < entry.events@.len() ==> events[pi as int].peer_id == rec.peer_id,
                decreases entry.events@.len() - pi,
            {
                assert(events[pi as int] == entry.events@[pi as int]@);
                if entry.events[pi].peer_id() == record.peer_id() {
                    break;
                }
                pi = pi + 1;
            }
            if pi == entry.events.len() {
                entry.events.push(record);
                assert(entry@.events =~= events.push(rec));
            } else {
                proof {
                    lemma_event_index(events, rec.peer_id, pi as int);
                }
                entry.events.set(pi, record);
                assert(entry@.events =~= events.update(pi as int, rec));
            }
            self.view_events.insert(ci, entry);
            assert(self@.view_events =~= events_recorded(table, rec));
        }
    }
}

impl P2PNode {
    /// Answers a HELLO: registers the sender everywhere, remembers its queue
    /// URL and sends it our PEER_LIST.
    pub fn handle_hello(&mut self, message: &Hello) -> (r: Vec<Action>)
        requires
            old(self).wf(),
        ensures
            final(self).wf(),
            hello_handled(old(self)@, final(self)@, actions_view(r@), message@),
    {
        let sender = message.sender();
        let url = message.queue_url();
        self.gossip.add_peer(sender.clone(), url.to_owned());
        let name = sender.as_str().to_owned();
        self.heartbeat.add_peer(name.clone());
        self.choking.add_peer(name.clone(), true);
        self.reputation.add_peer(name);
        proof {
            let before = old(self)@;
            lemma_gossip_added_ids(before.gossip, sender@, url@);
            lemma_heartbeat_added(before.heartbeat, sender@);
            lemma_choking_added(before.choking, sender@);
            lemma_reputation_added(before.reputation, sender@);
            let after = self@;
            assert forall|id: Seq<char>| lists_id(after.gossip.peers, id) implies lists_id(
                before.gossip.peers,
                id,
            ) || (monitored(after.heartbeat, id) && choked_or_served(after.choking, id) && rated(
                after.reputation,
                id,
            )) by {
                if !lists_id(before.gossip.peers, id) {
                    assert(monitored(after.heartbeat, id));
                    assert(choked_or_served(after.choking, id));
                    assert(rated(after.reputation, id));
                }
            }
            lemma_registered_kept(before, self@);
        }
        let plist = PeerList::new(self.node_id.clone(), self.gossip.get_peer_list_message());
        let mut actions: Vec<Action> = Vec::new();
        actions.push(Action::RememberQueueUrl { node_id: sender.clone(), queue_url: url.to_owned() });
        actions.push(Action::Send { to: sender.clone(), message: Message::PeerList { message: plist } });
        assert(actions_view(actions@)[0] == actions@[0]@);
        assert(actions_view(actions@)[1] == actions@[1]@);
        actions
    }

    /// Takes in a PEER_LIST: merges it into the gossip table, then registers
    /// every peer of the table everywhere and remembers its queue URL.
    pub fn handle_peer_list(&mut self, message: &PeerList) -> (r: Vec<Action>)
        requires
            old(self).wf(),
            merge_peer_list(old(self)@.gossip.peers, message@.peers, old(self)@.gossip.node_id).1
                <= u8::MAX,
        ensures
            final(self).wf(),
            peer_list_handled(old(self)@, final(self)@, actions_view(r@), message@),
    {
        let sender = message.sender();
        let incoming = message.peers();
        let _new: u8 = self.gossip.receive_peer_list(incoming, sender);
        let ghost merged = self@;
        let ghost table = self@.gossip.peers;
        let ghost ids = entry_ids(table);
        let mut actions: Vec<Action> = Vec::new();
        let n = self.gossip.peers().len();
        let mut i: usize = 0;
        while i < n
            invariant
                n == table.len(),
                i <= n,
                self.gossip.wf(),
                self.heartbeat.wf(),
                self.choking.wf(),
                self.reputation.wf(),
                self@.gossip.node_id == self@.node_id,
                events_ok(self@.view_events),
                table == merged.gossip.peers,
                ids == entry_ids(table),
                self@ == (P2PNodeView {
                    heartbeat: heartbeat_added_all(merged.heartbeat, ids.take(i as int)),
                    choking: choking_added_all(merged.choking, ids.take(i as int)),
                    reputation: reputation_added_all(merged.reputation, ids.take(i as int)),
                    ..merged
                }),
                actions@.len() == i,
                forall|j: int| 0 <= j < i ==> #[trigger] actions@[j]@ == remembered(table)[j],
            decreases n - i,
        {
            let peers = self.gossip.peers();
            let entry = &peers[i];
            assert(entry@ == table[i as int]);
            let id = entry.node_id().clone();
            let url = entry.queue_url().to_owned();
            let name = id.as_str().to_owned();
            assert(ids.take(i as int + 1).drop_last() =~= ids.take(i as int));
            assert(ids.take(i as int + 1).last() == name@);
            self.heartbeat.add_peer(name.clone());
            self.choking.add_peer(name.clone(), true);
            self.reputation.add_peer(name);
            actions.push(Action::RememberQueueUrl { node_id: id, queue_url: url });
            i = i + 1;
        }
        assert(ids.take(n as int) =~= ids);
        proof {
            lemma_heartbeat_added_all(merged.heartbeat, ids);
            lemma_choking_added_all(merged.choking, ids);
            lemma_reputation_added_all(merged.reputation, ids);
            assert forall|k: int| 0 <= k < table.len() implies {
                let id = #[trigger] self@.gossip.peers[k].node_id;
                monitored(self@.heartbeat, id) && choked_or_served(self@.choking, id) && rated(
                    self@.reputation,
                    id,
                )
            } by {
                let id = self@.gossip.peers[k].node_id;
                assert(ids[k] == table[k].node_id);
                assert(ids.contains(id));
                assert(monitored(self@.heartbeat, id));
                assert(choked_or_served(self@.choking, id));
                assert(rated(self@.reputation, id));
            }
        }
        assert(actions_view(actions@) =~= remembered(table));
        actions
    }

    /// Answers a PING with a PONG of the same sequence number, and counts
    /// the sender's contribution.
    pub fn handle_ping(&mut self, message: &Ping) -> (r: Vec<Action>)
        requires
            old(self).wf(),
            contribution_allowed(old(self)@, message@.sender),
        ensures
            final(self).wf(),
            ping_handled(old(self)@, final(self)@, actions_view(r@), message@),
    {
        let sender = message.sender();
        let seq = message.seq();
        let response = Pong::new(self.node_id.clone(), seq);
        self.choking.record_contribution(sender.as_str(), 1);
        self.reputation.record_contribution(sender.as_str(), 1);
        proof {
            lemma_choking_same_ids(old(self)@.choking, self@.choking);
            lemma_reputation_same_ids(old(self)@.reputation, self@.reputation);
            lemma_registered_kept(old(self)@, self@);
        }
        let mut actions: Vec<Action> = Vec::new();
        actions.push(Action::Send { to: sender.clone(), message: Message::Pong { message: response } });
        assert(actions_view(actions@)[0] == actions@[0]@);
        actions
    }

    /// Takes in a PONG: the liveness monitor hears from the sender, and the
    /// reputation table counts an answered heartbeat.
    pub fn handle_pong(&mut self, message: &Pong)
        requires
            old(self).wf(),
            pong_allowed(old(self)@, message@.sender),
        ensures
            final(self).wf(),
            pong_handled(old(self)@, final(self)@, message@),
    {
        let sender = message.sender();
        let seq: u16 = message.seq();
        self.heartbeat.receive_pong(sender.as_str(), seq as u32);
        self.reputation.record_heartbeat(sender.as_str(), true);
        proof {
            lemma_heartbeat_same_ids(old(self)@.heartbeat, self@.heartbeat);
            lemma_reputation_same_ids(old(self)@.reputation, self@.reputation);
            lemma_registered_kept(old(self)@, self@);
        }
    }

    /// Takes in a VIEW_EVENT: records it, and counts the sender's
    /// contribution.
    pub fn handle_view_event(&mut self, message: &ViewEvent)
        requires
            old(self).wf(),
            contribution_allowed(old(self)@, message@.sender),
        ensures
            final(self).wf(),
            view_event_handled(old(self)@, final(self)@, message@),
    {
        let sender = message.sender();
        let ad_id = match message.ad_id() {
            Some(a) => Some(a.to_owned()),
            None => None,
        };
        let record = ViewEventRecord::new(
            sender.clone(),
            message.event_id().to_owned(),
            message.content_id().to_owned(),
            message.count(),
            ad_id,
        );
        assert(record@ == event_record(message@));
        self.record_event(record);
        self.choking.record_contribution(sender.as_str(), 1);
        self.reputation.record_contribution(sender.as_str(), 1);
        proof {
            lemma_choking_same_ids(old(self)@.choking, self@.choking);
            lemma_reputation_same_ids(old(self)@.reputation, self@.reputation);
            lemma_registered_kept(old(self)@, self@);
        }
    }

    /// Takes in an AUDIT_RESULT: counts the sender's contribution.
    pub fn handle_audit_result(&mut self, message: &AuditResult)
        requires
            old(self).wf(),
            reputation_contribution_allowed(old(self)@, message@.sender),
        ensures
            final(self).wf(),
            audit_result_handled(old(self)@, final(self)@, message@),
    {
        let sender = message.sender();
        self.reputation.record_contribution(sender.as_str(), 1);
        proof {
            lemma_reputation_same_ids(old(self)@.reputation, self@.reputation);
            lemma_registered_kept(old(self)@, self@);
        }
    }

    /// Whether `message` can be taken in without overflowing one of the
    /// node's counters (what `handle_message` requires).
    pub fn can_take(&self, message: &Message) -> (r: bool)
        requires
            self.wf(),
        ensures
            r == message_allowed(self@, message@),
    {
        let sender = message.sender();
        assert(sender@ == sender_of(message@));
        if *sender == self.node_id {
            return true;
        }
        if self.messages_received == u32::MAX {
            return false;
        }
        let id = sender.as_str();
        match message {
            Message::PeerList { message } => {
                self.gossip.new_peer_count(message.peers()) <= u8::MAX as u64
            },
            Message::Ping { .. } | Message::ViewEvent { .. } => {
                let tracker_ok = match self.choking.tracker(id) {
                    Some(t) => t.contributed() < u32::MAX,
                    None => true,
                };
                tracker_ok && self.record_contribution_ok(id)
            },
            Message::AuditResult { .. } => self.record_contribution_ok(id),
            Message::Pong { .. } => {
                let pongs_ok = match self.heartbeat.peer_state(id) {
                    Some(p) => p.total_pongs_received() < u8::MAX,
                    None => true,
                };
                let beats_ok = match self.reputation.record(id) {
                    Some(rec) => rec.heartbeats_total() < u32::MAX,
                    None => true,
                };
                pongs_ok && beats_ok
            },
            Message::Hello { .. } => true,
            Message::Choke { .. } => true,
            Message::Unchoke { .. } => true,
        }
    }

    fn record_contribution_ok(&self, id: &str) -> (r: bool)
        requires
            self.wf(),
        ensures
            r == reputation_contribution_allowed(self@, id@),
    {
        match self.reputation.record(id) {
            Some(rec) => rec.contributions() < u32::MAX,
            None => true,
        }
    }

    /// Takes in any message: ignores the node's own, otherwise counts it,
    /// refreshes its sender in the gossip table and handles it by kind.
    pub fn handle_message(&mut self, message: &Message) -> (r: Vec<Action>)
        requires
            old(self).wf(),
            message_allowed(old(self)@, message@),
        ensures
            final(self).wf(),
            message_handled(old(self)@, final(self)@, actions_view(r@), message@),
    {
        let sender = message.sender();
        assert(sender@ == sender_of(message@));
        if *sender == self.node_id {
            return Vec::new();
        }
        self.messages_received = self.messages_received + 1;
        self.gossip.refresh_peer(sender);
        assert(self@ == received(old(self)@, sender@));
        proof {
            let before = old(self)@.gossip.peers;
            assert(entry_ids(self@.gossip.peers) =~= entry_ids(before));
            if let MessageView::PeerList(list) = message@ {
                lemma_merge_same_count(self@.gossip.peers, before, list.peers, self@.gossip.node_id);
            }
        }
        let actions = match message {
            Message::Hello { message } => self.handle_hello(message),
            Message::PeerList { message } => self.handle_peer_list(message),
            Message::Ping { message } => self.handle_ping(message),
            Message::Pong { message } => {
                self.handle_pong(message);
                Vec::new()
            },
            Message::ViewEvent { message } => {
                self.handle_view_event(message);
                Vec::new()
            },
            Message::AuditResult { message } => {
                self.handle_audit_result(message);
                Vec::new()
            },
            Message::Choke { .. } => Vec::new(),
            Message::Unchoke { .. } => Vec::new(),
        };
        actions
    }
}

/// The nodes a node greets when it joins and is given none.
pub open spec fn default_bootstrap_nodes() -> Seq<Seq<char>> {
    seq!["bot-alpha"@, "bot-bravo"@, "bot-charlie"@]
}

/// Whether every peer that is not DEAD can be counted one more PING
/// without overflow.
pub open spec fn pings_allowed(h: HeartbeatView) -> bool {
    forall|i: int|
        0 <= i < h.peers.len() && h.peers[i].status != PeerStatus::Dead
            ==> h.peers[i].total_pings_sent < u8::MAX
}

/// The identifier of a published view event: the node's identifier, a dash
/// and four bytes in lower-case hexadecimal.
pub open spec fn event_id_text(node_id: Seq<char>, b0: u8, b1: u8, b2: u8, b3: u8) -> Seq<char> {
    node_id + "-"@ + hex_byte(b0) + hex_byte(b1) + hex_byte(b2) + hex_byte(b3)
}

/// The votes of a piece of content's events: who reported which count.
pub open spec fn events_votes(events: Seq<ViewEventRecordView>) -> Seq<(Seq<char>, u64)> {
    events.map_values(|e: ViewEventRecordView| (e.peer_id, e.count))
}

/// The plain values of a list of votes.
pub open spec fn votes_view(votes: Seq<(Id, u64)>) -> Seq<(Seq<char>, u64)> {
    votes.map_values(|v: (Id, u64)| (v.0@, v.1))
}

/// The reputation table after each event's report was checked against the
/// agreed count, in order.
pub open spec fn reports_applied(
    t: ReputationView,
    events: Seq<ViewEventRecordView>,
    agreed_count: u64,
) -> ReputationView
    decreases events.len(),
{
    if events.len() == 0 {
        t
    } else {
        reputation_reported(
            reports_applied(t, events.drop_last(), agreed_count),
            events.last().peer_id,
            events.last().count == agreed_count,
        )
    }
}

/// The view events of `content_id` (none if it is not known).
pub open spec fn events_of(table: Seq<ContentEventsView>, content_id: Seq<char>) -> Seq<
    ViewEventRecordView,
> {
    let ci = content_index(table, content_id);
    if ci < 0 {
        Seq::empty()
    } else {
        table[ci].events
    }
}

/// Whether every peer that reported on `content_id` can be counted one
/// more report without overflow.
pub open spec fn audit_reports_allowed(v: P2PNodeView, content_id: Seq<char>) -> bool {
    let events = events_of(v.view_events, content_id);
    forall|k: int|
        0 <= k < v.reputation.peers.len() && (exists|m: int|
            0 <= m < events.len() && #[trigger] events[m].peer_id == v.reputation.peers[k].node_id)
            ==> v.reputation.peers[k].reports_total < u32::MAX
}

/// A gossip round's send: our PEER_LIST, to a known peer.
pub open spec fn gossip_sent(v: P2PNodeView, a: ActionView) -> bool {
    &&& a matches ActionView::Send { to, message: MessageView::PeerList(pl) }
    &&& entry_ids(v.gossip.peers).contains(to)
    &&& pl.sender == v.node_id
    &&& pl.peers == advertised(v.gossip.peers, v.gossip.node_id, v.gossip.queue_url)
    &&& is_v4_uuid_text(pl.msg_id)
}

/// A publication of the content at position `k`: its count goes up by
/// one, and `event` (ours, about that content, with the new count, no
/// advertisement, and an identifier made of our name and four bytes) goes
/// to every ALIVE peer.
pub open spec fn published(
    before: P2PNodeView,
    after: P2PNodeView,
    k: int,
    event: ViewEventView,
    actions: Seq<ActionView>,
) -> bool {
    let vc = before.view_counts[k];
    &&& after == P2PNodeView {
        view_counts: before.view_counts.update(k, ViewCountView { count: (vc.count + 1) as u64, ..vc }),
        ..before
    }
    &&& event.sender == before.node_id
    &&& event.content_id == vc.content_id
    &&& event.count == vc.count + 1
    &&& event.ad_id is None
    &&& is_v4_uuid_text(event.msg_id)
    &&& exists|b0: u8, b1: u8, b2: u8, b3: u8|
        event.event_id == event_id_text(before.node_id, b0, b1, b2, b3)
    &&& sends_to_all(
        actions,
        ids_where(before.heartbeat.peers, has_status(PeerStatus::Alive)),
        MessageView::ViewEvent(event),
    )
}

/// An audit of `content_id` finished on `agreed_count`: each peer that
/// reported on it has its report checked (accurate when it reported the
/// agreed count), and `result` (ours, with the count, the confidence and
/// the voters in report order) goes to every ALIVE peer.
pub open spec fn audited(
    before: P2PNodeView,
    after: P2PNodeView,
    content_id: Seq<char>,
    agreed_count: u64,
    confidence: u64,
    result: AuditResultView,
    actions: Seq<ActionView>,
) -> bool {
    let events = events_of(before.view_events, content_id);
    &&& after == P2PNodeView {
        reputation: reports_applied(before.reputation, events, agreed_count),
        ..before
    }
    &&& result.sender == before.node_id
    &&& result.content_id == content_id
    &&& result.agreed_count == agreed_count
    &&& result.confidence == confidence
    &&& result.voters == Some(events.map_values(|e: ViewEventRecordView| e.peer_id))
    &&& is_v4_uuid_text(result.msg_id)
    &&& sends_to_all(
        actions,
        ids_where(before.heartbeat.peers, has_status(PeerStatus::Alive)),
        MessageView::AuditResult(result),
    )
}

/// Four random bytes: the last four bytes of a fresh random (version 4)
/// UUID made with `uuid::Uuid::new_v4`.
///
/// Nothing is claimed of their values, which rest on chance.
#[verifier::external_body]
fn random_event_tag() -> (r: (u8, u8, u8, u8)) {
    let bytes = *uuid::Uuid::new_v4().as_bytes();
    (bytes[12], bytes[13], bytes[14], bytes[15])
}

/// The identifier of a published view event.
fn make_event_id(node_id: &Id, b0: u8, b1: u8, b2: u8, b3: u8) -> (r: String)
    ensures
        r@ == event_id_text(node_id@, b0, b1, b2, b3),
{
    let mut s = String::new();
    s.append(node_id.as_str());
    s.append("-");
    proof {
        reveal_strlit("-");
    }
    push_hex_byte(&mut s, b0);
    push_hex_byte(&mut s, b1);
    push_hex_byte(&mut s, b2);
    push_hex_byte(&mut s, b3);
    s
}

/// One send of `message` to each of `targets`, in order.
fn send_to_all(targets: &Vec<Id>, message: &Message) -> (r: Vec<Action>)
    ensures
        sends_to_all(actions_view(r@), ids_view(targets@), message@),
{
    let mut out: Vec<Action> = Vec::new();
    let mut i: usize = 0;
    while i < targets.len()
        invariant
            i <= targets@.len(),
            out@.len() == i,
            forall|j: int|
                0 <= j < i ==> #[trigger] out@[j]@ == (ActionView::Send {
                    to: targets@[j]@,
                    message: message@,
                }),
        decreases targets@.len() - i,
    {
        out.push(Action::Send { to: targets[i].clone(), message: message.clone() });
        i = i + 1;
    }
    assert forall|j: int| 0 <= j < targets@.len() implies #[trigger] actions_view(out@)[j]
        == (ActionView::Send { to: ids_view(targets@)[j], message: message@ }) by {
        assert(actions_view(out@)[j] == out@[j]@);
    }
    out
}

/// The identifiers named by `names`.
fn ids_from_names(names: Vec<String>) -> (r: Vec<Id>)
    ensures
        ids_view(r@) == strings_view(names@),
{
    let mut out: Vec<Id> = Vec::new();
    let mut i: usize = 0;
    while i < names.len()
        invariant
            i <= names@.len(),
            out@.len() == i,
            forall|j: int| 0 <= j < i ==> #[trigger] out@[j]@ == names@[j]@,
        decreases names@.len() - i,
    {
        out.push(Id::new(names[i].clone()));
        i = i + 1;
    }
    assert(ids_view(out@) =~= strings_view(names@));
    out
}

impl P2PNode {
    /// Greets the given nodes, or the default ones, with a HELLO that
    /// tells them our queue URL (empty if we have none).
    pub fn bootstrap(&self, bootstrap_nodes: Option<Vec<Id>>) -> (r: Vec<Action>)
        ensures
            exists|h: HelloView|
                {
                    &&& h.sender == self@.node_id
                    &&& h.queue_url == text_or_empty(self@.queue_url)
                    &&& is_v4_uuid_text(h.msg_id)
                    &&& sends_to_all(
                        actions_view(r@),
                        match bootstrap_nodes {
                            Some(v) => ids_view(v@),
                            None => default_bootstrap_nodes(),
                        },
                        MessageView::Hello(h),
                    )
                },
    {
        let nodes = match bootstrap_nodes {
            Some(v) => v,
            None => {
                let mut v: Vec<Id> = Vec::new();
                v.push(Id::new("bot-alpha".to_owned()));
                v.push(Id::new("bot-bravo".to_owned()));
                v.push(Id::new("bot-charlie".to_owned()));
                assert(ids_view(v@) =~= default_bootstrap_nodes());
                v
            },
        };
        let url = match &self.queue_url {
            Some(u) => u.clone(),
            None => String::new(),
        };
        let hello = Hello::new(self.node_id.clone(), url);
        let ghost h = hello@;
        let message = Message::Hello { message: hello };
        let r = send_to_all(&nodes, &message);
        assert(sends_to_all(
            actions_view(r@),
            match bootstrap_nodes {
                Some(v) => ids_view(v@),
                None => default_bootstrap_nodes(),
            },
            MessageView::Hello(h),
        ));
        assert(h.sender == self@.node_id);
        assert(h.queue_url == text_or_empty(self@.queue_url));
        assert(is_v4_uuid_text(h.msg_id));
        r
    }

    /// Sends our PEER_LIST to a random known peer; nothing when no peer is
    /// known.
    pub fn do_gossip(&self) -> (r: Vec<Action>)
        requires
            self.wf(),
        ensures
            r@.len() == 0 <==> self@.gossip.peers.len() == 0,
            r@.len() != 0 ==> r@.len() == 1 && gossip_sent(self@, actions_view(r@)[0]),
    {
        let mut actions: Vec<Action> = Vec::new();
        match self.gossip.pick_gossip_target() {
            None => {},
            Some(target) => {
                let message = PeerList::new(self.node_id.clone(), self.gossip.get_peer_list_message());
                actions.push(Action::Send { to: target, message: Message::PeerList { message } });
                assert(actions_view(actions@)[0] == actions@[0]@);
            },
        }
        actions
    }

    /// Starts a round of heartbeats: the next sequence number, and a PING
    /// with it to every peer that is not DEAD.
    pub fn do_heartbeat(&mut self) -> (r: Vec<Action>)
        requires
            old(self).wf(),
            old(self)@.ping_seq < u16::MAX,
            pings_allowed(old(self)@.heartbeat),
        ensures
            final(self).wf(),
            final(self)@ == (P2PNodeView {
                ping_seq: (old(self)@.ping_seq + 1) as u16,
                heartbeat: heartbeat_pinged(old(self)@.heartbeat),
                ..old(self)@
            }),
            exists|p: PingView|
                {
                    &&& p.sender == old(self)@.node_id
                    &&& p.seq == old(self)@.ping_seq + 1
                    &&& is_v4_uuid_text(p.msg_id)
                    &&& sends_to_all(
                        actions_view(r@),
                        ids_where(old(self)@.heartbeat.peers, not_dead()),
                        MessageView::Ping(p),
                    )
                },
    {
        self.ping_seq = self.ping_seq + 1;
        let ping = Ping::new(self.node_id.clone(), self.ping_seq);
        let pinged = self.heartbeat.send_pings(self.rounds);
        proof {
            lemma_heartbeat_same_ids(old(self)@.heartbeat, self@.heartbeat);
            lemma_registered_kept(old(self)@, self@);
        }
        let targets = ids_from_names(pinged);
        let ghost p = ping@;
        let message = Message::Ping { message: ping };
        let r = send_to_all(&targets, &message);
        assert(sends_to_all(
            actions_view(r@),
            ids_where(old(self)@.heartbeat.peers, not_dead()),
            MessageView::Ping(p),
        ));
        assert(p.sender == old(self)@.node_id);
        assert(p.seq == old(self)@.ping_seq + 1);
        assert(is_v4_uuid_text(p.msg_id));
        r
    }

    /// Runs a choking round and returns what it logged.
    pub fn do_choking(&mut self) -> (r: Vec<String>)
        requires
            old(self).wf(),
            old(self)@.choking.round < u32::MAX,
            crate::algorithms::choking::any_interested(old(self)@.choking.peers)
                && crate::algorithms::choking::is_multiple(
                (old(self)@.choking.round + 1) as u32,
                old(self)@.choking.optimistic_interval,
            ) ==> old(self)@.choking.max_unchoked > 0,
        ensures
            final(self).wf(),
            exists|mid: ChokingView|
                {
                    &&& choking_round_result(old(self)@.choking, mid)
                    &&& final(self)@ == (P2PNodeView {
                        choking: ChokingView { log: Seq::empty(), ..mid },
                        ..old(self)@
                    })
                    &&& string_list_view(r@) == mid.log
                },
    {
        self.choking.run_choking_round();
        let ghost mid = self@.choking;
        let lines = self.choking.flush_log();
        proof {
            lemma_round_keeps_ids(old(self)@.choking, mid);
            lemma_choking_same_ids(old(self)@.choking, self@.choking);
            lemma_registered_kept(old(self)@, self@);
        }
        assert(self@ == (P2PNodeView { choking: ChokingView { log: Seq::empty(), ..mid }, ..old(self)@ }));
        lines
    }

    /// Replaces a peer's trust score (the bit pattern of an IEEE-754
    /// double); an unknown peer changes nothing.
    pub fn set_trust_score(&mut self, peer_id: &str, bits: u64)
        requires
            old(self).wf(),
        ensures
            final(self).wf(),
            final(self)@ == (P2PNodeView {
                reputation: reputation_scored(old(self)@.reputation, peer_id@, bits),
                ..old(self)@
            }),
    {
        self.reputation.set_trust_score(peer_id, bits);
        proof {
            lemma_reputation_same_ids(old(self)@.reputation, self@.reputation);
            lemma_registered_kept(old(self)@, self@);
        }
    }

    /// Begins a round of the main loop and returns its number.
    pub fn begin_round(&mut self) -> (r: u32)
        requires
            old(self)@.rounds < u32::MAX,
        ensures
            r == old(self)@.rounds + 1,
            final(self)@ == (P2PNodeView { rounds: r, ..old(self)@ }),
    {
        self.rounds = self.rounds + 1;
        self.rounds
    }

    /// Ends a round of the main loop: the gossip table ages by one round.
    pub fn end_round(&mut self)
        requires
            old(self).wf(),
        ensures
            final(self).wf(),
            final(self)@ == (P2PNodeView {
                gossip: GossipView { peers: aged(old(self)@.gossip.peers), ..old(self)@.gossip },
                ..old(self)@
            }),
    {
        self.gossip.age_entries();
        proof {
            let before = old(self)@.gossip.peers;
            crate::algorithms::gossip::lemma_aged_keeps(before);
            assert forall|id: Seq<char>| lists_id(aged(before), id) implies lists_id(before, id) by {
                let k = choose|k: int| 0 <= k < aged(before).len() && #[trigger] aged(before)[k].node_id == id;
            }
            lemma_registered_kept(old(self)@, self@);
        }
    }
}

impl P2PNode {
    /// The identifiers of the ALIVE peers.
    fn alive_ids(&self) -> (r: Vec<Id>)
        ensures
            ids_view(r@) == ids_where(self@.heartbeat.peers, has_status(PeerStatus::Alive)),
    {
        ids_from_names(self.heartbeat.get_alive_peers())
    }

    /// Publishes a view of a random piece of content: its count goes up by
    /// one and a VIEW_EVENT with the new count (and a fresh event
    /// identifier) goes to every ALIVE peer. Returns the event and the
    /// sends; `None`, changing nothing, when there is no content.
    pub fn do_publish(&mut self) -> (r: Option<(ViewEvent, Vec<Action>)>)
        requires
            old(self).wf(),
            forall|k: int|
                0 <= k < old(self)@.view_counts.len() ==> #[trigger] old(self)@.view_counts[k].count
                    < u64::MAX,
        ensures
            final(self).wf(),
            match r {
                None => old(self)@.view_counts.len() == 0 && final(self)@ == old(self)@,
                Some((event, actions)) => exists|k: int|
                    {
                        &&& 0 <= k < old(self)@.view_counts.len()
                        &&& published(old(self)@, final(self)@, k, event@, actions_view(actions@))
                    },
            },
    {
        let n = self.view_counts.len();
        let mut indices: Vec<usize> = Vec::new();
        let mut i: usize = 0;
        while i < n
            invariant
                n == self.view_counts@.len(),
                self@ == old(self)@,
                self.wf(),
                i <= n,
                indices@.len() == i,
                forall|j: int| 0 <= j < i ==> indices@[j] == j,
            decreases n - i,
        {
            indices.push(i);
            i = i + 1;
        }
        match choose_index(&indices) {
            None => {
                assert(self@.view_counts.len() == n);
                None
            },
            Some(k) => {
                proof {
                    let j = choose|j: int| 0 <= j < indices@.len() && indices@[j] == k;
                }
                let ghost before = self@;
                assert(self@.view_counts[k as int] == self.view_counts@[k as int]@);
                assert(old(self)@.view_counts[k as int].count < u64::MAX);
                let count = self.view_counts[k].count + 1;
                self.view_counts[k].count = count;
                let content_id = self.view_counts[k].content_id.clone();
                assert(self@.view_counts =~= before.view_counts.update(
                    k as int,
                    ViewCountView { count, ..before.view_counts[k as int] },
                ));
                let (b0, b1, b2, b3) = random_event_tag();
                let event_id = make_event_id(&self.node_id, b0, b1, b2, b3);
                let event = ViewEvent::new(self.node_id.clone(), event_id, content_id, count, None);
                let message = Message::ViewEvent { message: event.clone() };
                let targets = self.alive_ids();
                let actions = send_to_all(&targets, &message);
                assert(published(before, self@, k as int, event@, actions_view(actions@)));
                let r = Some((event, actions));
                assert(r matches Some((e, a)) && published(old(self)@, self@, k as int, e@, actions_view(a@)));
                r
            },
        }
    }

    /// Picks, at random, a piece of content that at least two peers reported
    /// on, and returns it with the votes: each reporting peer and its count.
    /// `None` when no content has two reports.
    pub fn choose_audit(&self) -> (r: Option<(String, Vec<(Id, u64)>)>)
        requires
            self.wf(),
        ensures
            r is None <==> forall|c: int|
                0 <= c < self@.view_events.len() ==> #[trigger] self@.view_events[c].events.len()
                    < 2,
            r matches Some((content_id, votes)) ==> exists|c: int|
                {
                    &&& 0 <= c < self@.view_events.len()
                    &&& #[trigger] self@.view_events[c].events.len() >= 2
                    &&& content_id@ == self@.view_events[c].content_id
                    &&& votes_view(votes@) == events_votes(self@.view_events[c].events)
                },
    {
        let n = self.view_events.len();
        let mut eligible: Vec<usize> = Vec::new();
        let mut i: usize = 0;
        while i < n
            invariant
                n == self.view_events@.len(),
                i <= n,
                forall|j: int| 0 <= j < eligible@.len() ==> #[trigger] eligible@[j] < i
                    && self@.view_events[eligible@[j] as int].events.len() >= 2,
                forall|c: int|
                    0 <= c < i && #[trigger] self@.view_events[c].events.len() >= 2
                        ==> eligible@.contains(c as usize),
            decreases n - i,
        {
            assert(self@.view_events[i as int] == self.view_events@[i as int]@);
            if self.view_events[i].events.len() >= 2 {
                let ghost before = eligible@;
                eligible.push(i);
                assert forall|c: int|
                    0 <= c < i + 1 && #[trigger] self@.view_events[c].events.len() >= 2 implies eligible@.contains(
                    c as usize,
                ) by {
                    if c < i {
                        let j = choose|j: int| 0 <= j < before.len() && before[j] == c as usize;
                        assert(eligible@[j] == c as usize);
                    } else {
                        assert(eligible@[before.len() as int] == c as usize);
                    }
                }
            }
            i = i + 1;
        }
        match choose_index(&eligible) {
            None => {
                assert forall|c: int|
                    0 <= c < self@.view_events.len() implies #[trigger] self@.view_events[c].events.len()
                    < 2 by {
                    if self@.view_events[c].events.len() >= 2 {
                        assert(eligible@.contains(c as usize));
                    }
                }
                None
            },
            Some(c) => {
                proof {
                    let j = choose|j: int| 0 <= j < eligible@.len() && eligible@[j] == c;
                    assert(self@.view_events[c as int].events.len() >= 2);
                }
                let entry = &self.view_events[c];
                assert(entry@ == self@.view_events[c as int]);
                let mut votes: Vec<(Id, u64)> = Vec::new();
                let mut k: usize = 0;
                while k < entry.events.len()
                    invariant
                        k <= entry.events@.len(),
                        votes@.len() == k,
                        forall|j: int|
                            0 <= j < k ==> #[trigger] votes_view(votes@)[j] == events_votes(
                                entry@.events,
                            )[j],
                    decreases entry.events@.len() - k,
                {
                    assert(entry@.events[k as int] == entry.events@[k as int]@);
                    let ghost before = votes@;
                    votes.push((entry.events[k].peer_id().clone(), entry.events[k].count()));
                    assert forall|j: int| 0 <= j < k + 1 implies #[trigger] votes_view(votes@)[j]
                        == events_votes(entry@.events)[j] by {
                        if j < k {
                            assert(votes@[j] == before[j]);
                            assert(votes_view(before)[j] == events_votes(entry@.events)[j]);
                        }
                    }
                    k = k + 1;
                }
                assert(votes_view(votes@) =~= events_votes(entry@.events));
                let r = Some((entry.content_id.clone(), votes));
                assert(self@.view_events[c as int].events.len() >= 2);
                r
            },
        }
    }

    /// Finishes an audit of `content_id` (a piece of content that
    /// `choose_audit` picked) on the agreed count that the weighted vote
    /// gave, with the vote's confidence (the bit pattern of an IEEE-754
    /// double): every reporting peer's report is checked against the agreed
    /// count, and an AUDIT_RESULT naming the voters goes to every ALIVE
    /// peer. Returns the result and the sends.
    pub fn finish_audit(&mut self, content_id: &str, agreed_count: u64, confidence: u64) -> (r: (
        AuditResult,
        Vec<Action>,
    ))
        requires
            old(self).wf(),
            content_index(old(self)@.view_events, content_id@) >= 0,
            audit_reports_allowed(old(self)@, content_id@),
        ensures
            final(self).wf(),
            audited(old(self)@, final(self)@, content_id@, agreed_count, confidence, r.0@, actions_view(r.1@)),
    {
        let ghost before = self@;
        let ghost events = events_of(before.view_events, content_id@);
        let key = content_id.to_owned();
        let mut ci: usize = 0;
        while ci < self.view_events.len()
            invariant
                ci <= self.view_events@.len(),
                self@ == before,
                self.wf(),
                key@ == content_id@,
                forall|j: int| 0 <= j < ci ==> before.view_events[j].content_id != content_id@,
                content_index(before.view_events, content_id@) >= 0,
            ensures
                ci < self.view_events@.len(),
                self@ == before,
                before.view_events[ci as int].content_id == content_id@,
            decreases self.view_events@.len() - ci,
        {
            assert(before.view_events[ci as int] == self.view_events@[ci as int]@);
            if self.view_events[ci].content_id == key {
                break;
            }
            ci = ci + 1;
        }
        proof {
            lemma_content_index(before.view_events, content_id@, ci as int);
        }
        assert(self.view_events@[ci as int]@.events == events);
        let mut voters: Vec<Id> = Vec::new();
        let n = self.view_events[ci].events.len();
        let mut k: usize = 0;
        while k < n
            invariant
                n == events.len(),
                k <= n,
                self.wf(),
                ci < self.view_events@.len(),
                self.view_events@[ci as int]@.events == events,
                events == events_of(before.view_events, content_id@),
                events_ok(before.view_events),
                content_index(before.view_events, content_id@) == ci,
                self@ == (P2PNodeView {
                    reputation: reports_applied(before.reputation, events.take(k as int), agreed_count),
                    ..before
                }),
                voters@.len() == k,
                forall|j: int| 0 <= j < k ==> #[trigger] voters@[j]@ == events[j].peer_id,
                forall|q: int|
                    0 <= q < self@.reputation.peers.len() && (exists|m: int|
                        k <= m < events.len() && #[trigger] events[m].peer_id
                            == self@.reputation.peers[q].node_id)
                        ==> self@.reputation.peers[q].reports_total < u32::MAX,
            decreases n - k,
        {
            let record = &self.view_events[ci].events[k];
            assert(record@ == events[k as int]);
            let peer = record.peer_id().clone();
            let accurate = record.count() == agreed_count;
            let ghost rep = self@.reputation;
            proof {
                let idx = record_index(rep.peers, peer@);
                if idx >= 0 {
                    assert(events[k as int].peer_id == rep.peers[idx].node_id);
                }
            }
            self.reputation.record_report(peer.as_str(), accurate);
            assert(events.take(k as int + 1).drop_last() =~= events.take(k as int));
            proof {
                let idx = record_index(rep.peers, peer@);
                let now = self@.reputation.peers;
                assert forall|q: int|
                    0 <= q < now.len() && (exists|m: int|
                        k + 1 <= m < events.len() && #[trigger] events[m].peer_id == now[q].node_id)
                        implies now[q].reports_total < u32::MAX by {
                    let m = choose|m: int| k + 1 <= m < events.len() && #[trigger] events[m].peer_id == now[q].node_id;
                    assert(events[m].peer_id != events[k as int].peer_id);
                    if idx >= 0 && q == idx {
                        assert(now[q].node_id == rep.peers[idx].node_id);
                    } else {
                        assert(now[q] == rep.peers[q]);
                    }
                }
            }
            proof {
                lemma_reputation_same_ids(rep, self@.reputation);
                let prev = P2PNodeView { reputation: rep, ..self@ };
                lemma_registered_kept(prev, self@);
            }
            voters.push(peer);
            k = k + 1;
        }
        assert(events.take(n as int) =~= events);
        let result = AuditResult::new(
            self.node_id.clone(),
            content_id.to_owned(),
            agreed_count,
            confidence,
            Some(voters),
        );
        let message = Message::AuditResult { message: result.clone() };
        let targets = self.alive_ids();
        let actions = send_to_all(&targets, &message);
        assert(self@ == (P2PNodeView {
            reputation: reports_applied(before.reputation, events, agreed_count),
            ..before
        }));
        assert(result@.voters == Some(events.map_values(|e: ViewEventRecordView| e.peer_id)));
        assert(sends_to_all(
            actions_view(actions@),
            ids_where(before.heartbeat.peers, has_status(PeerStatus::Alive)),
            MessageView::AuditResult(result@),
        ));
        assert(audited(before, self@, content_id@, agreed_count, confidence, result@, actions_view(actions@)));
        (result, actions)
    }
}

/// Every peer a node gossips with is also monitored by its heartbeat, has a
/// tracker in its choker and has a reputation record: every handler and
/// periodic task keeps this.
pub proof fn lemma_gossip_peers_registered(node: &P2PNode)
    requires
        node.wf(),
    ensures
        gossip_peers_registered(node@),
{
}

/// A node keeps at most one view event per peer and piece of content (a
/// later report replaces an earlier one), and lists each piece of content
/// once.
pub proof fn lemma_one_event_per_peer(node: &P2PNode)
    requires
        node.wf(),
    ensures
        events_ok(node@.view_events),
{
}

/// When each periodic task last ran, in nanoseconds on a monotonic clock
/// that the caller reads.
#[derive(Debug, Clone, Copy, PartialEq, Eq, Structural)]
pub struct TaskSchedule {
    gossip: u64,
    heartbeat: u64,
    choking: u64,
    reputation: u64,
    publish: u64,
    audit: u64,
}

/// Nanoseconds in a second.
pub const NANOS_PER_SECOND: u64 = 1_000_000_000;

/// Whole seconds from `last` to `now`; zero when `now` is earlier.
pub open spec fn whole_seconds_between(last: u64, now: u64) -> u64 {
    if now >= last {
        ((now - last) / (NANOS_PER_SECOND as int)) as u64
    } else {
        0
    }
}

/// The periodic tasks, in the order a round of the main loop runs them.
pub open spec fn task_order() -> Seq<PeriodicTask> {
    seq![
        PeriodicTask::Gossip,
        PeriodicTask::Heartbeat,
        PeriodicTask::Choking,
        PeriodicTask::Reputation,
        PeriodicTask::Publish,
        PeriodicTask::Audit,
    ]
}

impl TaskSchedule {
    /// When `task` last ran.
    pub closed spec fn last_run(self, task: PeriodicTask) -> u64 {
        match task {
            PeriodicTask::Gossip => self.gossip,
            PeriodicTask::Heartbeat => self.heartbeat,
            PeriodicTask::Choking => self.choking,
            PeriodicTask::Reputation => self.reputation,
            PeriodicTask::Publish => self.publish,
            PeriodicTask::Audit => self.audit,
        }
    }

    /// Whether `task` is due at `now` for `node`: its interval has passed, in
    /// whole seconds, since it last ran.
    pub open spec fn is_due_at(self, node: P2PNodeView, task: PeriodicTask, now: u64) -> bool {
        whole_seconds_between(self.last_run(task), now) >= task_interval(node, task)
    }

    /// Holds of the tasks due at `now`.
    pub open spec fn due_test(self, node: P2PNodeView, now: u64) -> spec_fn(PeriodicTask) -> bool {
        |t: PeriodicTask| self.is_due_at(node, t, now)
    }

    /// The tasks due at `now`, in the order of `task_order`.
    pub open spec fn due_at(self, node: P2PNodeView, now: u64) -> Seq<PeriodicTask> {
        task_order().filter(self.due_test(node, now))
    }

    /// A schedule in which every task last ran at `now`.
    pub fn new(now: u64) -> (r: TaskSchedule)
        ensures
            forall|t: PeriodicTask| #[trigger] r.last_run(t) == now,
    {
        TaskSchedule { gossip: now, heartbeat: now, choking: now, reputation: now, publish: now, audit: now }
    }

    /// When `task` last ran.
    pub fn last(&self, task: PeriodicTask) -> (r: u64)
        ensures
            r == self.last_run(task),
    {
        match task {
            PeriodicTask::Gossip => self.gossip,
            PeriodicTask::Heartbeat => self.heartbeat,
            PeriodicTask::Choking => self.choking,
            PeriodicTask::Reputation => self.reputation,
            PeriodicTask::Publish => self.publish,
            PeriodicTask::Audit => self.audit,
        }
    }

    fn set_last(&mut self, task: PeriodicTask, now: u64)
        ensures
            final(self).last_run(task) == now,
            forall|t: PeriodicTask| t != task ==> #[trigger] final(self).last_run(t) == old(self).last_run(t),
    {
        match task {
            PeriodicTask::Gossip => self.gossip = now,
            PeriodicTask::Heartbeat => self.heartbeat = now,
            PeriodicTask::Choking => self.choking = now,
            PeriodicTask::Reputation => self.reputation = now,
            PeriodicTask::Publish => self.publish = now,
            PeriodicTask::Audit => self.audit = now,
        }
    }

    /// One round of the timer: the tasks due at `now` for `node`, in the
    /// order gossip, heartbeat, choking, reputation, publish, audit; each of
    /// them is marked as run at `now`, the others keep their times.
    pub fn take_due(&mut self, node: &P2PNode, now: u64) -> (r: Vec<PeriodicTask>)
        ensures
            r@ == old(self).due_at(node@, now),
            forall|t: PeriodicTask|
                #[trigger] final(self).last_run(t) == if old(self).is_due_at(node@, t, now) {
                    now
                } else {
                    old(self).last_run(t)
                },
    {
        let ghost before = *self;
        let order: Vec<PeriodicTask> = vec![
            PeriodicTask::Gossip,
            PeriodicTask::Heartbeat,
            PeriodicTask::Choking,
            PeriodicTask::Reputation,
            PeriodicTask::Publish,
            PeriodicTask::Audit,
        ];
        assert(order@ =~= task_order());
        let mut due: Vec<PeriodicTask> = Vec::new();
        let mut i: usize = 0;
        while i < order.len()
            invariant
                i <= order@.len(),
                order@ == task_order(),
                due@ == task_order().subrange(0, i as int).filter(before.due_test(node@, now)),
                forall|j: int|
                    0 <= j < i ==> #[trigger] self.last_run(order@[j]) == if before.is_due_at(
                        node@,
                        order@[j],
                        now,
                    ) {
                        now
                    } else {
                        before.last_run(order@[j])
                    },
                forall|j: int| i <= j < order@.len() ==> #[trigger] self.last_run(order@[j]) == before.last_run(order@[j]),
            decreases order@.len() - i,
        {
            let task = order[i];
            let last = self.last(task);
            let elapsed: u64 = if now >= last {
                (now - last) / NANOS_PER_SECOND
            } else {
                0
            };
            let ghost seen = task_order().subrange(0, i + 1);
            proof {
                reveal(Seq::filter);
                assert(seen.drop_last() =~= task_order().subrange(0, i as int));
                assert(seen.last() == task);
                assert(elapsed == whole_seconds_between(before.last_run(task), now));
            }
            if node.is_due(task, elapsed) {
                due.push(task);
                self.set_last(task, now);
            }
            proof {
                assert forall|j: int| 0 <= j < order@.len() && j != i implies order@[j] != task by {
                    assert(task_order()[0] != task_order()[1]);
                }
            }
            i = i + 1;
        }
        assert(task_order().subrange(0, 6) =~= task_order());
        proof {
            assert forall|t: PeriodicTask| #[trigger] self.last_run(t) == if before.is_due_at(node@, t, now) {
                now
            } else {
                before.last_run(t)
            } by {
                let j: int = match t {
                    PeriodicTask::Gossip => 0,
                    PeriodicTask::Heartbeat => 1,
                    PeriodicTask::Choking => 2,
                    PeriodicTask::Reputation => 3,
                    PeriodicTask::Publish => 4,
                    PeriodicTask::Audit => 5,
                };
                assert(order@[j] == t);
            }
        }
        due
    }
}

/// How many of `events` are reports by `peer`.
pub open spec fn reports_by(events: Seq<ViewEventRecordView>, peer: Seq<char>) -> nat
    decreases events.len(),
{
    if events.len() == 0 {
        0
    } else {
        reports_by(events.drop_last(), peer) + if events.last().peer_id == peer {
            1nat
        } else {
            0nat
        }
    }
}

/// How many of `events` are reports by `peer` whose count is exactly
/// `agreed_count`.
pub open spec fn exact_reports_by(
    events: Seq<ViewEventRecordView>,
    peer: Seq<char>,
    agreed_count: u64,
) -> nat
    decreases events.len(),
{
    if events.len() == 0 {
        0
    } else {
        exact_reports_by(events.drop_last(), peer, agreed_count) + if events.last().peer_id == peer
            && events.last().count == agreed_count {
            1nat
        } else {
            0nat
        }
    }
}

/// An audit checks each report against the agreed count: a peer's record
/// gains one checked report per report it made, and one accurate report per
/// report whose count equals the agreed count exactly; a report that is off
/// by any amount, above or below, is not accurate. The table keeps its
/// identifiers in place.
pub proof fn lemma_audit_counts_exact_matches(
    t: ReputationView,
    events: Seq<ViewEventRecordView>,
    agreed_count: u64,
    peer: Seq<char>,
)
    requires
        distinct_records(t.peers),
        record_index(t.peers, peer) >= 0,
        t.peers[record_index(t.peers, peer)].reports_total + reports_by(events, peer) <= u32::MAX,
        t.peers[record_index(t.peers, peer)].reports_accurate + reports_by(events, peer) <= u32::MAX,
    ensures
        ({
            let i = record_index(t.peers, peer);
            let after = reports_applied(t, events, agreed_count).peers;
            &&& after.len() == t.peers.len()
            &&& forall|j: int| 0 <= j < after.len() ==> #[trigger] after[j].node_id == t.peers[j].node_id
            &&& after[i].reports_total == t.peers[i].reports_total + reports_by(events, peer)
            &&& after[i].reports_accurate == t.peers[i].reports_accurate + exact_reports_by(
                events,
                peer,
                agreed_count,
            )
        }),
    decreases events.len(),
{
    let i = record_index(t.peers, peer);
    assert(t.peers[i].node_id == peer);
    if events.len() > 0 {
        let rest = events.drop_last();
        assert(reports_by(rest, peer) <= reports_by(events, peer));
        assert(exact_reports_by(rest, peer, agreed_count) <= reports_by(rest, peer)) by {
            lemma_exact_within_reports(rest, peer, agreed_count);
        }
        lemma_audit_counts_exact_matches(t, rest, agreed_count, peer);
        let prev = reports_applied(t, rest, agreed_count);
        let e = events.last();
        let q = e.peer_id;
        let ri = record_index(prev.peers, q);
        assert(prev.peers[i].node_id == peer);
        if ri >= 0 {
            assert(prev.peers[ri].node_id == q);
            assert(t.peers[ri].node_id == q);
            if q == peer {
                assert(ri == i);
            } else {
                assert(ri != i);
            }
        } else {
            assert(q != peer);
        }
    }
}

/// A peer's exact reports are among its reports.
proof fn lemma_exact_within_reports(events: Seq<ViewEventRecordView>, peer: Seq<char>, agreed_count: u64)
    ensures
        exact_reports_by(events, peer, agreed_count) <= reports_by(events, peer),
    decreases events.len(),
{
    if events.len() > 0 {
        lemma_exact_within_reports(events.drop_last(), peer, agreed_count);
    }
}

} // verus!

//! Heartbeat / liveness detection.
//!
//! Detects when peers go offline using a PING/PONG protocol.
//!
//!   1. Periodically send PING to every known peer.
//!   2. Peers that respond with PONG before the next round are ALIVE.
//!   3. Peers that miss `grace_period` consecutive rounds become SUSPECT.
//!   4. Peers that miss `miss_threshold` consecutive rounds become DEAD.
//!
//! State machine:
//!     ALIVE -> SUSPECT (after grace_period misses)
//!     SUSPECT -> DEAD  (after miss_threshold misses)
//!     SUSPECT -> ALIVE (if PONG received while suspect)

use vstd::prelude::*;

use crate::text::{decimal, push_decimal};

verus! {

/// Liveness status of a monitored peer.
#[derive(Debug, Clone, Copy, PartialEq, Eq, Structural, PartialOrd, Ord, Hash)]
pub enum PeerStatus {
    Alive,
    Suspect,
    Dead,
}

/// The printed name of a status.
pub open spec fn status_label(status: PeerStatus) -> Seq<char> {
    match status {
        PeerStatus::Alive => "ALIVE"@,
        PeerStatus::Suspect => "SUSPECT"@,
        PeerStatus::Dead => "DEAD"@,
    }
}

impl PeerStatus {
    /// The printed name of the status: `ALIVE`, `SUSPECT` or `DEAD`.
    pub fn label(&self) -> (r: &'static str)
        ensures
            r@ == status_label(*self),
    {
        match *self {
            PeerStatus::Alive => "ALIVE",
            PeerStatus::Suspect => "SUSPECT",
            PeerStatus::Dead => "DEAD",
        }
    }
}

/// Tracked state for a single monitored peer.
#[derive(Debug)]
pub struct PeerState {
    node_id: String,
    status: PeerStatus,
    consecutive_misses: u8,
    last_pong_round: u32,
    total_pings_sent: u8,
    total_pongs_received: u8,
}

/// The plain values a `PeerState` holds.
pub struct PeerStateView {
    pub node_id: Seq<char>,
    pub status: PeerStatus,
    pub consecutive_misses: u8,
    pub last_pong_round: u32,
    pub total_pings_sent: u8,
    pub total_pongs_received: u8,
}

impl View for PeerState {
    type V = PeerStateView;

    closed spec fn view(&self) -> PeerStateView {
        PeerStateView {
            node_id: self.node_id@,
            status: self.status,
            consecutive_misses: self.consecutive_misses,
            last_pong_round: self.last_pong_round,
            total_pings_sent: self.total_pings_sent,
            total_pongs_received: self.total_pongs_received,
        }
    }
}

/// A freshly registered peer: alive, no misses, nothing sent or received.
pub open spec fn fresh_peer(node_id: Seq<char>) -> PeerStateView {
    PeerStateView {
        node_id,
        status: PeerStatus::Alive,
        consecutive_misses: 0,
        last_pong_round: 0,
        total_pings_sent: 0,
        total_pongs_received: 0,
    }
}

impl PeerState {
    /// A new peer, starting ALIVE.
    pub fn new(node_id: String) -> (r: PeerState)
        ensures
            r@ == fresh_peer(node_id@),
    {
        PeerState {
            node_id,
            status: PeerStatus::Alive,
            consecutive_misses: 0,
            last_pong_round: 0,
            total_pings_sent: 0,
            total_pongs_received: 0,
        }
    }

    /// The peer's identifier.
    pub fn node_id(&self) -> (r: &str)
        ensures
            r@ == self@.node_id,
    {
        self.node_id.as_str()
    }

    /// The peer's liveness status.
    pub fn status(&self) -> (r: PeerStatus)
        ensures
            r == self@.status,
    {
        self.status
    }

    /// Consecutive rounds without a PONG.
    pub fn consecutive_misses(&self) -> (r: u8)
        ensures
            r == self@.consecutive_misses,
    {
        self.consecutive_misses
    }

    /// The round of the last PONG received.
    pub fn last_pong_round(&self) -> (r: u32)
        ensures
            r == self@.last_pong_round,
    {
        self.last_pong_round
    }

    /// How many PINGs were sent to this peer.
    pub fn total_pings_sent(&self) -> (r: u8)
        ensures
            r == self@.total_pings_sent,
    {
        self.total_pings_sent
    }

    /// How many PONGs this peer sent back.
    pub fn total_pongs_received(&self) -> (r: u8)
        ensures
            r == self@.total_pongs_received,
    {
        self.total_pongs_received
    }
}

impl Clone for PeerState {
    fn clone(&self) -> (r: Self)
        ensures
            r@ == self@,
    {
        PeerState {
            node_id: self.node_id.clone(),
            status: self.status,
            consecutive_misses: self.consecutive_misses,
            last_pong_round: self.last_pong_round,
            total_pings_sent: self.total_pings_sent,
            total_pongs_received: self.total_pongs_received,
        }
    }
}

/// The identifiers of the peers that satisfy `keep`, in table order.
pub open spec fn ids_where(
    peers: Seq<PeerStateView>,
    keep: spec_fn(PeerStateView) -> bool,
) -> Seq<Seq<char>>
    decreases peers.len(),
{
    if peers.len() == 0 {
        Seq::empty()
    } else {
        let rest = ids_where(peers.drop_last(), keep);
        if keep(peers.last()) {
            rest.push(peers.last().node_id)
        } else {
            rest
        }
    }
}

/// The peers that satisfy `keep`, in table order.
pub open spec fn peers_where(
    peers: Seq<PeerStateView>,
    keep: spec_fn(PeerStateView) -> bool,
) -> Seq<PeerStateView>
    decreases peers.len(),
{
    if peers.len() == 0 {
        Seq::empty()
    } else {
        let rest = peers_where(peers.drop_last(), keep);
        if keep(peers.last()) {
            rest.push(peers.last())
        } else {
            rest
        }
    }
}

/// Holds of the peers with the given status.
pub open spec fn has_status(status: PeerStatus) -> spec_fn(PeerStateView) -> bool {
    |p: PeerStateView| p.status == status
}

/// Holds of the peers that are not DEAD.
pub open spec fn not_dead() -> spec_fn(PeerStateView) -> bool {
    |p: PeerStateView| p.status != PeerStatus::Dead
}

/// The identifiers of all peers in the table, in table order.
pub open spec fn peer_ids(peers: Seq<PeerStateView>) -> Seq<Seq<char>> {
    peers.map_values(|p: PeerStateView| p.node_id)
}

/// The position of the peer with identifier `id`, or -1.
pub open spec fn peer_index(peers: Seq<PeerStateView>, id: Seq<char>) -> int {
    if exists|i: int| 0 <= i < peers.len() && peers[i].node_id == id {
        choose|i: int| 0 <= i < peers.len() && peers[i].node_id == id
    } else {
        -1
    }
}

/// No two peers of the table share an identifier.
pub open spec fn distinct_ids(peers: Seq<PeerStateView>) -> bool {
    forall|i: int, j: int|
        0 <= i < peers.len() && 0 <= j < peers.len() && i != j ==> peers[i].node_id
            != peers[j].node_id
}

/// One PING sent: DEAD peers are skipped, every other peer counts one more PING.
pub open spec fn after_ping(p: PeerStateView) -> PeerStateView {
    if p.status == PeerStatus::Dead {
        p
    } else {
        PeerStateView { total_pings_sent: (p.total_pings_sent + 1) as u8, ..p }
    }
}

/// A PONG received in round `round`: the peer is ALIVE again with no misses.
pub open spec fn after_pong(p: PeerStateView, round: u32) -> PeerStateView {
    PeerStateView {
        status: PeerStatus::Alive,
        consecutive_misses: 0,
        last_pong_round: round,
        total_pongs_received: (p.total_pongs_received + 1) as u8,
        ..p
    }
}

/// The status after a miss brought the count of consecutive misses to `misses`.
pub open spec fn status_after_miss(
    misses: u8,
    miss_threshold: u8,
    grace_period: u8,
    old: PeerStatus,
) -> PeerStatus {
    if misses >= miss_threshold {
        PeerStatus::Dead
    } else if misses >= grace_period {
        PeerStatus::Suspect
    } else {
        old
    }
}

/// One PING without a PONG: a DEAD peer stays as it is; any other peer counts
/// one more miss and moves along the state machine.
pub open spec fn after_miss(p: PeerStateView, miss_threshold: u8, grace_period: u8) -> PeerStateView {
    if p.status == PeerStatus::Dead {
        p
    } else {
        let misses = (p.consecutive_misses + 1) as u8;
        PeerStateView {
            consecutive_misses: misses,
            status: status_after_miss(misses, miss_threshold, grace_period, p.status),
            ..p
        }
    }
}

/// The log line of a peer that answered again.
pub open spec fn recovery_line(round: u32, id: Seq<char>, old: PeerStatus) -> Seq<char> {
    "  Round "@ + decimal(round as nat) + ": "@ + id + " recovered ("@ + status_label(old)
        + " -> ALIVE)"@
}

/// The log line of a status change after a miss.
pub open spec fn transition_line(
    round: u32,
    id: Seq<char>,
    old: PeerStatus,
    new: PeerStatus,
    misses: u8,
) -> Seq<char> {
    "  Round "@ + decimal(round as nat) + ": "@ + id + " "@ + status_label(old) + " -> "@
        + status_label(new) + " (misses="@ + decimal(misses as nat) + ")"@
}

/// The plain values a `HeartbeatNode` holds.
pub struct HeartbeatView {
    pub node_id: Seq<char>,
    pub miss_threshold: u8,
    pub grace_period: u8,
    pub peers: Seq<PeerStateView>,
    pub log: Seq<Seq<char>>,
}

/// The monitor after a peer is registered: a new peer starts ALIVE, a peer
/// already monitored is left as it is.
pub open spec fn heartbeat_added(h: HeartbeatView, id: Seq<char>) -> HeartbeatView {
    HeartbeatView {
        peers: if peer_index(h.peers, id) >= 0 {
            h.peers
        } else {
            h.peers.push(fresh_peer(id))
        },
        ..h
    }
}

/// The monitor after a PONG from `id` in round `round`: the peer is ALIVE
/// again, and a recovery is logged; an unknown peer changes nothing.
pub open spec fn heartbeat_ponged(h: HeartbeatView, id: Seq<char>, round: u32) -> HeartbeatView {
    let idx = peer_index(h.peers, id);
    if idx < 0 {
        h
    } else {
        let old_peer = h.peers[idx];
        HeartbeatView {
            peers: h.peers.update(idx, after_pong(old_peer, round)),
            log: if old_peer.status != PeerStatus::Alive {
                h.log.push(recovery_line(round, id, old_peer.status))
            } else {
                h.log
            },
            ..h
        }
    }
}

/// The monitor after a round of PINGs: every peer but the DEAD ones counts
/// one more PING.
pub open spec fn heartbeat_pinged(h: HeartbeatView) -> HeartbeatView {
    HeartbeatView { peers: h.peers.map_values(|p: PeerStateView| after_ping(p)), ..h }
}

/// A node that monitors the liveness of its peers.
#[derive(Debug)]
pub struct HeartbeatNode {
    node_id: String,
    miss_threshold: u8,
    grace_period: u8,
    peers: Vec<PeerState>,
    log: Vec<String>,
}

impl View for HeartbeatNode {
    type V = HeartbeatView;

    closed spec fn view(&self) -> HeartbeatView {
        HeartbeatView {
            node_id: self.node_id@,
            miss_threshold: self.miss_threshold,
            grace_period: self.grace_period,
            peers: self.peers@.map_values(|p: PeerState| p@),
            log: self.log@.map_values(|s: String| s@),
        }
    }
}

/// The plain values of a list of strings.
pub open spec fn strings_view(v: Seq<String>) -> Seq<Seq<char>> {
    v.map_values(|s: String| s@)
}

proof fn lemma_ids_where_step(peers: Seq<PeerStateView>, keep: spec_fn(PeerStateView) -> bool, i: int)
    requires
        0 <= i < peers.len(),
    ensures
        ids_where(peers.take(i + 1), keep) == if keep(peers[i]) {
            ids_where(peers.take(i), keep).push(peers[i].node_id)
        } else {
            ids_where(peers.take(i), keep)
        },
{
    assert(peers.take(i + 1).drop_last() =~= peers.take(i));
}

proof fn lemma_peers_where_step(
    peers: Seq<PeerStateView>,
    keep: spec_fn(PeerStateView) -> bool,
    i: int,
)
    requires
        0 <= i < peers.len(),
    ensures
        peers_where(peers.take(i + 1), keep) == if keep(peers[i]) {
            peers_where(peers.take(i), keep).push(peers[i])
        } else {
            peers_where(peers.take(i), keep)
        },
{
    assert(peers.take(i + 1).drop_last() =~= peers.take(i));
}

proof fn lemma_peer_index(peers: Seq<PeerStateView>, id: Seq<char>, i: int)
    requires
        distinct_ids(peers),
        0 <= i < peers.len(),
        peers[i].node_id == id,
    ensures
        peer_index(peers, id) == i,
{
}

proof fn lemma_peer_index_absent(peers: Seq<PeerStateView>, id: Seq<char>)
    requires
        forall|i: int| 0 <= i < peers.len() ==> peers[i].node_id != id,
    ensures
        peer_index(peers, id) == -1,
{
}

impl HeartbeatNode {
    /// No two monitored peers share an identifier.
    pub closed spec fn wf(&self) -> bool {
        distinct_ids(self@.peers)
    }

    /// A node with no peers and an empty log.
    pub fn new(node_id: String, miss_threshold: u8, grace_period: u8) -> (r: HeartbeatNode)
        ensures
            r.wf(),
            r@.node_id == node_id@,
            r@.miss_threshold == miss_threshold,
            r@.grace_period == grace_period,
            r@.peers == Seq::<PeerStateView>::empty(),
            r@.log == Seq::<Seq<char>>::empty(),
    {
        let r = HeartbeatNode {
            node_id,
            miss_threshold,
            grace_period,
            peers: Vec::new(),
            log: Vec::new(),
        };
        assert(r@.peers =~= Seq::<PeerStateView>::empty());
        assert(r@.log =~= Seq::<Seq<char>>::empty());
        r
    }

    /// The node's own identifier.
    pub fn node_id(&self) -> (r: &str)
        ensures
            r@ == self@.node_id,
    {
        self.node_id.as_str()
    }

    /// The monitored peers, in table order.
    pub fn peers(&self) -> (r: &Vec<PeerState>)
        ensures
            r@.map_values(|p: PeerState| p@) == self@.peers,
    {
        &self.peers
    }

    /// The state of `id`, if it is monitored.
    pub fn peer_state(&self, id: &str) -> (r: Option<&PeerState>)
        requires
            self.wf(),
        ensures
            match r {
                Some(p) => peer_index(self@.peers, id@) >= 0 && p@ == self@.peers[peer_index(
                    self@.peers,
                    id@,
                )],
                None => peer_index(self@.peers, id@) < 0,
            },
    {
        let key = id.to_owned();
        match self.position(&key) {
            Some(i) => {
                assert(self@.peers[i as int] == self.peers@[i as int]@);
                Some(&self.peers[i])
            },
            None => None,
        }
    }

    /// The position of the peer named `id`, if it is monitored.
    fn position(&self, id: &String) -> (r: Option<usize>)
        requires
            self.wf(),
        ensures
            match r {
                Some(i) => i < self@.peers.len() && self@.peers[i as int].node_id == id@
                    && peer_index(self@.peers, id@) == i,
                None => peer_index(self@.peers, id@) == -1,
            },
    {
        let mut i: usize = 0;
        while i < self.peers.len()
            invariant
                i <= self.peers@.len(),
                self.wf(),
                forall|j: int| 0 <= j < i ==> self@.peers[j].node_id != id@,
            decreases self.peers@.len() - i,
        {
            if self.peers[i].node_id == *id {
                proof {
                    lemma_peer_index(self@.peers, id@, i as int);
                }
                return Some(i);
            }
            i = i + 1;
        }
        proof {
            lemma_peer_index_absent(self@.peers, id@);
        }
        None
    }

    /// Registers a new peer to monitor, starting ALIVE. A peer already
    /// monitored is left as it is.
    pub fn add_peer(&mut self, node_id: String)
        requires
            old(self).wf(),
        ensures
            final(self).wf(),
            final(self)@ == heartbeat_added(old(self)@, node_id@),
    {
        match self.position(&node_id) {
            Some(_) => {},
            None => {
                let ghost id = node_id@;
                self.peers.push(PeerState::new(node_id));
                assert(self@.peers =~= old(self)@.peers.push(fresh_peer(id)));
            },
        }
    }

    /// Records a PING sent to every ALIVE and SUSPECT peer: each of them counts
    /// one more PING; DEAD peers are skipped. Returns the identifiers of the
    /// pinged peers, in table order.
    pub fn send_pings(&mut self, current_round: u32) -> (r: Vec<String>)
        requires
            old(self).wf(),
            forall|i: int|
                0 <= i < old(self)@.peers.len() && old(self)@.peers[i].status != PeerStatus::Dead
                    ==> old(self)@.peers[i].total_pings_sent < u8::MAX,
        ensures
            final(self).wf(),
            final(self)@ == heartbeat_pinged(old(self)@),
            strings_view(r@) == ids_where(old(self)@.peers, not_dead()),
    {
        let ghost old_peers = self@.peers;
        let mut pinged: Vec<String> = Vec::new();
        let mut i: usize = 0;
        while i < self.peers.len()
            invariant
                i <= self.peers@.len(),
                self.peers@.len() == old_peers.len(),
                forall|j: int| 0 <= j < i ==> self@.peers[j] == after_ping(old_peers[j]),
                forall|j: int| i <= j < old_peers.len() ==> self@.peers[j] == old_peers[j],
                forall|j: int|
                    0 <= j < old_peers.len() && old_peers[j].status != PeerStatus::Dead
                        ==> old_peers[j].total_pings_sent < u8::MAX,
                strings_view(pinged@) == ids_where(old_peers.take(i as int), not_dead()),
                self@.node_id == old(self)@.node_id,
                self@.miss_threshold == old(self)@.miss_threshold,
                self@.grace_period == old(self)@.grace_period,
                self@.log == old(self)@.log,
            decreases old_peers.len() - i,
        {
            proof {
                lemma_ids_where_step(old_peers, not_dead(), i as int);
            }
            let ghost before = self.peers@;
            if self.peers[i].status != PeerStatus::Dead {
                self.peers[i].total_pings_sent = self.peers[i].total_pings_sent + 1;
                assert(self.peers@ == before.update(i as int, self.peers@[i as int]));
                assert(self@.peers[i as int] == after_ping(old_peers[i as int]));
                pinged.push(self.peers[i].node_id.clone());
                assert forall|j: int| 0 <= j < old_peers.len() && j != i implies self@.peers[j] == before.map_values(|p: PeerState| p@)[j] by {
                    assert(self.peers@[j] == before[j]);
                }
                assert(strings_view(pinged@) =~= ids_where(old_peers.take(i as int), not_dead()).push(old_peers[i as int].node_id));
            }
            i = i + 1;
        }
        assert(old_peers.take(old_peers.len() as int) =~= old_peers);
        assert(self@.peers =~= old_peers.map_values(|p: PeerStateView| after_ping(p)));
        pinged
    }

    /// Processes a PONG from `from_node` in round `current_round`: the peer is
    /// ALIVE again with no misses; a peer that was not ALIVE gets a recovery
    /// line in the log. An unknown sender changes nothing.
    pub fn receive_pong(&mut self, from_node: &str, current_round: u32)
        requires
            old(self).wf(),
            peer_index(old(self)@.peers, from_node@) >= 0 ==> old(self)@.peers[peer_index(
                old(self)@.peers,
                from_node@,
            )].total_pongs_received < u8::MAX,
        ensures
            final(self).wf(),
            final(self)@ == heartbeat_ponged(old(self)@, from_node@, current_round),
    {
        let key = from_node.to_owned();
        match self.position(&key) {
            None => {},
            Some(i) => {
                let ghost old_peers = self@.peers;
                let old_status = self.peers[i].status;
                self.peers[i].total_pongs_received = self.peers[i].total_pongs_received + 1;
                self.peers[i].last_pong_round = current_round;
                self.peers[i].consecutive_misses = 0;
                self.peers[i].status = PeerStatus::Alive;
                assert(self@.peers =~= old_peers.update(
                    i as int,
                    after_pong(old_peers[i as int], current_round),
                ));
                if old_status != PeerStatus::Alive {
                    let line = recovery_text(current_round, from_node, old_status);
                    self.log.push(line);
                    assert(self@.log =~= old(self)@.log.push(
                        recovery_line(current_round, from_node@, old_status),
                    ));
                }
            },
        }
    }

    /// Records that a PING got no PONG from `peer_id` in round `current_round`.
    /// A DEAD or unknown peer changes nothing. Otherwise the peer counts one
    /// more miss, becomes DEAD at `miss_threshold` misses and SUSPECT at
    /// `grace_period` misses, and a change of status is logged.
    pub fn record_miss(&mut self, peer_id: String, current_round: u32)
        requires
            old(self).wf(),
            peer_index(old(self)@.peers, peer_id@) >= 0 ==> ({
                let p = old(self)@.peers[peer_index(old(self)@.peers, peer_id@)];
                p.status != PeerStatus::Dead ==> p.consecutive_misses < u8::MAX
            }),
        ensures
            final(self).wf(),
            ({
                let idx = peer_index(old(self)@.peers, peer_id@);
                if idx < 0 || old(self)@.peers[idx].status == PeerStatus::Dead {
                    final(self)@ == old(self)@
                } else {
                    let old_peer = old(self)@.peers[idx];
                    let new_peer = after_miss(
                        old_peer,
                        old(self)@.miss_threshold,
                        old(self)@.grace_period,
                    );
                    &&& final(self)@.peers == old(self)@.peers.update(idx, new_peer)
                    &&& final(self)@.log == if new_peer.status != old_peer.status {
                        old(self)@.log.push(
                            transition_line(
                                current_round,
                                peer_id@,
                                old_peer.status,
                                new_peer.status,
                                new_peer.consecutive_misses,
                            ),
                        )
                    } else {
                        old(self)@.log
                    }
                    &&& final(self)@.node_id == old(self)@.node_id
                    &&& final(self)@.miss_threshold == old(self)@.miss_threshold
                    &&& final(self)@.grace_period == old(self)@.grace_period
                }
            }),
    {
        match self.position(&peer_id) {
            None => {},
            Some(i) => {
                if self.peers[i].status == PeerStatus::Dead {
                    return ;
                }
                let ghost old_peers = self@.peers;
                let misses: u8 = self.peers[i].consecutive_misses + 1;
                self.peers[i].consecutive_misses = misses;
                let old_status = self.peers[i].status;
                if misses >= self.miss_threshold {
                    self.peers[i].status = PeerStatus::Dead;
                } else if misses >= self.grace_period {
                    self.peers[i].status = PeerStatus::Suspect;
                }
                let new_status = self.peers[i].status;
                assert(self@.peers =~= old_peers.update(
                    i as int,
                    after_miss(old_peers[i as int], self.miss_threshold, self.grace_period),
                ));
                if new_status != old_status {
                    let line = transition_text(
                        current_round,
                        peer_id.as_str(),
                        old_status,
                        new_status,
                        misses,
                    );
                    self.log.push(line);
                    assert(self@.log =~= old(self)@.log.push(
                        transition_line(current_round, peer_id@, old_status, new_status, misses),
                    ));
                }
            },
        }
    }

    fn ids_with_status(&self, status: PeerStatus) -> (r: Vec<String>)
        ensures
            strings_view(r@) == ids_where(self@.peers, has_status(status)),
    {
        let mut out: Vec<String> = Vec::new();
        let mut i: usize = 0;
        while i < self.peers.len()
            invariant
                i <= self.peers@.len(),
                strings_view(out@) == ids_where(self@.peers.take(i as int), has_status(status)),
            decreases self.peers@.len() - i,
        {
            proof {
                lemma_ids_where_step(self@.peers, has_status(status), i as int);
            }
            if self.peers[i].status == status {
                out.push(self.peers[i].node_id.clone());
                assert(strings_view(out@) =~= ids_where(
                    self@.peers.take(i as int),
                    has_status(status),
                ).push(self@.peers[i as int].node_id));
            }
            i = i + 1;
        }
        assert(self@.peers.take(self@.peers.len() as int) =~= self@.peers);
        out
    }

    /// The identifiers of all ALIVE peers, in table order.
    pub fn get_alive_peers(&self) -> (r: Vec<String>)
        ensures
            strings_view(r@) == ids_where(self@.peers, has_status(PeerStatus::Alive)),
    {
        self.ids_with_status(PeerStatus::Alive)
    }

    /// The identifiers of all SUSPECT peers, in table order.
    pub fn get_suspect_peers(&self) -> (r: Vec<String>)
        ensures
            strings_view(r@) == ids_where(self@.peers, has_status(PeerStatus::Suspect)),
    {
        self.ids_with_status(PeerStatus::Suspect)
    }

    /// The identifiers of all DEAD peers, in table order.
    pub fn get_dead_peers(&self) -> (r: Vec<String>)
        ensures
            strings_view(r@) == ids_where(self@.peers, has_status(PeerStatus::Dead)),
    {
        self.ids_with_status(PeerStatus::Dead)
    }

    /// Removes the DEAD peers from the table; the others keep their order.
    pub fn prune_dead(&mut self)
        requires
            old(self).wf(),
        ensures
            final(self).wf(),
            final(self)@.peers == peers_where(old(self)@.peers, not_dead()),
            final(self)@.node_id == old(self)@.node_id,
            final(self)@.miss_threshold == old(self)@.miss_threshold,
            final(self)@.grace_period == old(self)@.grace_period,
            final(self)@.log == old(self)@.log,
    {
        let ghost old_peers = self@.peers;
        let mut kept: Vec<PeerState> = Vec::new();
        let mut i: usize = 0;
        while i < self.peers.len()
            invariant
                i <= self.peers@.len(),
                self@.peers == old_peers,
                kept@.map_values(|p: PeerState| p@) == peers_where(
                    old_peers.take(i as int),
                    not_dead(),
                ),
            decreases self.peers@.len() - i,
        {
            proof {
                lemma_peers_where_step(old_peers, not_dead(), i as int);
            }
            if self.peers[i].status != PeerStatus::Dead {
                kept.push(self.peers[i].clone());
                assert(kept@.map_values(|p: PeerState| p@) =~= peers_where(
                    old_peers.take(i as int),
                    not_dead(),
                ).push(old_peers[i as int]));
            }
            i = i + 1;
        }
        assert(old_peers.take(old_peers.len() as int) =~= old_peers);
        proof {
            lemma_peers_where_distinct(old_peers, not_dead());
        }
        self.peers = kept;
    }

    /// Returns the log and empties it.
    pub fn flush_log(&mut self) -> (r: Vec<String>)
        requires
            old(self).wf(),
        ensures
            final(self).wf(),
            strings_view(r@) == old(self)@.log,
            final(self)@.log == Seq::<Seq<char>>::empty(),
            final(self)@.peers == old(self)@.peers,
            final(self)@.node_id == old(self)@.node_id,
            final(self)@.miss_threshold == old(self)@.miss_threshold,
            final(self)@.grace_period == old(self)@.grace_period,
    {
        let mut messages: Vec<String> = Vec::new();
        std::mem::swap(&mut messages, &mut self.log);
        assert(self@.log =~= Seq::<Seq<char>>::empty());
        messages
    }
}

/// Filtering keeps identifiers distinct, and keeps exactly the peers that pass.
proof fn lemma_peers_where_distinct(peers: Seq<PeerStateView>, keep: spec_fn(PeerStateView) -> bool)
    requires
        distinct_ids(peers),
    ensures
        distinct_ids(peers_where(peers, keep)),
        forall|q: PeerStateView|
            peers_where(peers, keep).contains(q) <==> (peers.contains(q) && keep(q)),
    decreases peers.len(),
{
    if peers.len() > 0 {
        let rest = peers.drop_last();
        assert(distinct_ids(rest));
        lemma_peers_where_distinct(rest, keep);
        let r = peers_where(rest, keep);
        assert forall|q: PeerStateView| peers.contains(q) <==> (rest.contains(q) || q == peers.last()) by {
            if peers.contains(q) {
                let k = choose|k: int| 0 <= k < peers.len() && peers[k] == q;
                if k < peers.len() - 1 {
                    assert(rest[k] == q);
                }
            }
            if rest.contains(q) {
                let k = choose|k: int| 0 <= k < rest.len() && rest[k] == q;
                assert(peers[k] == q);
            }
        }
        if keep(peers.last()) {
            assert forall|i: int| 0 <= i < r.len() implies r[i].node_id != peers.last().node_id by {
                assert(r[i] == r[i]);
                assert(r.contains(r[i]));
                assert(rest.contains(r[i]));
                let k = choose|k: int| 0 <= k < rest.len() && rest[k] == r[i];
                assert(peers[k] == rest[k]);
                assert(k != peers.len() - 1);
            }
            assert forall|q: PeerStateView|
                r.push(peers.last()).contains(q) <==> (r.contains(q) || q == peers.last()) by {
                if r.push(peers.last()).contains(q) {
                    let k = choose|k: int| 0 <= k < r.len() + 1 && r.push(peers.last())[k] == q;
                    if k < r.len() {
                        assert(r[k] == q);
                    }
                }
                if r.contains(q) {
                    let k = choose|k: int| 0 <= k < r.len() && r[k] == q;
                    assert(r.push(peers.last())[k] == q);
                }
                if q == peers.last() {
                    assert(r.push(peers.last())[r.len() as int] == q);
                }
            }
        }
    }
}

fn recovery_text(round: u32, id: &str, old: PeerStatus) -> (r: String)
    ensures
        r@ == recovery_line(round, id@, old),
{
    proof {
        reveal_strlit("  Round ");
        reveal_strlit(": ");
        reveal_strlit(" recovered (");
        reveal_strlit(" -> ALIVE)");
    }
    let mut s = String::new();
    s.append("  Round ");
    push_decimal(&mut s, round as u64);
    s.append(": ");
    s.append(id);
    s.append(" recovered (");
    s.append(old.label());
    s.append(" -> ALIVE)");
    s
}

fn transition_text(round: u32, id: &str, old: PeerStatus, new: PeerStatus, misses: u8) -> (r: String)
    ensures
        r@ == transition_line(round, id@, old, new, misses),
{
    proof {
        reveal_strlit("  Round ");
        reveal_strlit(": ");
        reveal_strlit(" ");
        reveal_strlit(" -> ");
        reveal_strlit(" (misses=");
        reveal_strlit(")");
    }
    let mut s = String::new();
    s.append("  Round ");
    push_decimal(&mut s, round as u64);
    s.append(": ");
    s.append(id);
    s.append(" ");
    s.append(old.label());
    s.append(" -> ");
    s.append(new.label());
    s.append(" (misses=");
    push_decimal(&mut s, misses as u64);
    s.append(")");
    s
}


/// A peer is listed by `ids_where` exactly when some entry of the table has
/// its identifier and passes the filter.
pub proof fn lemma_ids_where_contains(
    peers: Seq<PeerStateView>,
    keep: spec_fn(PeerStateView) -> bool,
    id: Seq<char>,
)
    ensures
        ids_where(peers, keep).contains(id) <==> exists|i: int|
            0 <= i < peers.len() && peers[i].node_id == id && keep(peers[i]),
    decreases peers.len(),
{
    if peers.len() > 0 {
        let rest = peers.drop_last();
        lemma_ids_where_contains(rest, keep, id);
        let r = ids_where(rest, keep);
        if exists|i: int| 0 <= i < peers.len() && peers[i].node_id == id && keep(peers[i]) {
            let i = choose|i: int| 0 <= i < peers.len() && peers[i].node_id == id && keep(peers[i]);
            if i < peers.len() - 1 {
                assert(rest[i] == peers[i]);
                let k = choose|k: int| 0 <= k < r.len() && r[k] == id;
                if keep(peers.last()) {
                    assert(r.push(peers.last().node_id)[k] == id);
                }
            } else if keep(peers.last()) {
                assert(r.push(peers.last().node_id)[r.len() as int] == id);
            }
        }
        if ids_where(peers, keep).contains(id) {
            let k = choose|k: int| 0 <= k < ids_where(peers, keep).len() && ids_where(peers, keep)[k] == id;
            if k < r.len() {
                assert(r[k] == id);
                let i = choose|i: int| 0 <= i < rest.len() && rest[i].node_id == id && keep(rest[i]);
                assert(peers[i] == rest[i]);
            } else {
                assert(peers[peers.len() - 1].node_id == id);
            }
        }
    }
}

/// The ALIVE, SUSPECT and DEAD lists of a node are pairwise disjoint and
/// together list every monitored peer.
pub proof fn lemma_status_lists_partition(node: &HeartbeatNode, id: Seq<char>)
    requires
        node.wf(),
    ensures
        peer_ids(node@.peers).contains(id) <==> (ids_where(
            node@.peers,
            has_status(PeerStatus::Alive),
        ).contains(id) || ids_where(node@.peers, has_status(PeerStatus::Suspect)).contains(id)
            || ids_where(node@.peers, has_status(PeerStatus::Dead)).contains(id)),
        !(ids_where(node@.peers, has_status(PeerStatus::Alive)).contains(id) && ids_where(
            node@.peers,
            has_status(PeerStatus::Suspect),
        ).contains(id)),
        !(ids_where(node@.peers, has_status(PeerStatus::Alive)).contains(id) && ids_where(
            node@.peers,
            has_status(PeerStatus::Dead),
        ).contains(id)),
        !(ids_where(node@.peers, has_status(PeerStatus::Suspect)).contains(id) && ids_where(
            node@.peers,
            has_status(PeerStatus::Dead),
        ).contains(id)),
{
    let peers = node@.peers;
    lemma_ids_where_contains(peers, has_status(PeerStatus::Alive), id);
    lemma_ids_where_contains(peers, has_status(PeerStatus::Suspect), id);
    lemma_ids_where_contains(peers, has_status(PeerStatus::Dead), id);
    if peer_ids(peers).contains(id) {
        let k = choose|k: int| 0 <= k < peer_ids(peers).len() && peer_ids(peers)[k] == id;
        assert(peers[k].node_id == id);
        assert(has_status(peers[k].status)(peers[k]));
    }
    if exists|i: int| 0 <= i < peers.len() && peers[i].node_id == id {
        let i = choose|i: int| 0 <= i < peers.len() && peers[i].node_id == id;
        assert(peer_ids(peers)[i] == id);
    }
}

/// The peers that `send_pings` returns and the DEAD peers are disjoint, and
/// together they are every monitored peer: DEAD peers are never pinged.
pub proof fn lemma_dead_peers_not_pinged(node: &HeartbeatNode, id: Seq<char>)
    requires
        node.wf(),
    ensures
        !(ids_where(node@.peers, not_dead()).contains(id) && ids_where(
            node@.peers,
            has_status(PeerStatus::Dead),
        ).contains(id)),
        peer_ids(node@.peers).contains(id) <==> (ids_where(node@.peers, not_dead()).contains(id)
            || ids_where(node@.peers, has_status(PeerStatus::Dead)).contains(id)),
{
    let peers = node@.peers;
    lemma_ids_where_contains(peers, not_dead(), id);
    lemma_ids_where_contains(peers, has_status(PeerStatus::Dead), id);
    if peer_ids(peers).contains(id) {
        let k = choose|k: int| 0 <= k < peer_ids(peers).len() && peer_ids(peers)[k] == id;
        assert(peers[k].node_id == id);
        if peers[k].status == PeerStatus::Dead {
            assert(has_status(PeerStatus::Dead)(peers[k]));
        } else {
            assert(not_dead()(peers[k]));
        }
    }
    if exists|i: int| 0 <= i < peers.len() && peers[i].node_id == id {
        let i = choose|i: int| 0 <= i < peers.len() && peers[i].node_id == id;
        assert(peer_ids(peers)[i] == id);
    }
}

/// After a PONG from a monitored peer, whatever its status was, the peer is
/// listed ALIVE and neither SUSPECT nor DEAD.
pub proof fn lemma_pong_restores_alive(node: &HeartbeatNode, id: Seq<char>, round: u32)
    requires
        node.wf(),
        peer_index(node@.peers, id) >= 0,
    ensures
        ({
            let idx = peer_index(node@.peers, id);
            let after = node@.peers.update(idx, after_pong(node@.peers[idx], round));
            &&& ids_where(after, has_status(PeerStatus::Alive)).contains(id)
            &&& !ids_where(after, has_status(PeerStatus::Suspect)).contains(id)
            &&& !ids_where(after, has_status(PeerStatus::Dead)).contains(id)
        }),
{
    let peers = node@.peers;
    let idx = peer_index(peers, id);
    let after = peers.update(idx, after_pong(peers[idx], round));
    assert(peers[idx].node_id == id);
    assert(after[idx].node_id == id);
    assert(has_status(PeerStatus::Alive)(after[idx]));
    lemma_ids_where_contains(after, has_status(PeerStatus::Alive), id);
    lemma_ids_where_contains(after, has_status(PeerStatus::Suspect), id);
    lemma_ids_where_contains(after, has_status(PeerStatus::Dead), id);
    assert forall|i: int| 0 <= i < after.len() && after[i].node_id == id implies i == idx by {
        if i != idx {
            assert(peers[i].node_id == after[i].node_id);
        }
    }
}

/// A PONG from a monitored peer wipes out its misses, whatever its status
/// was: afterwards it is ALIVE with no consecutive misses, its last PONG is
/// from `round`, it has one more PONG, and nothing else of it or of the other
/// peers changes. So the next miss is its first: it leaves the peer at one
/// miss, still ALIVE, when both thresholds are above one.
pub proof fn lemma_pong_clears_misses(h: HeartbeatView, id: Seq<char>, round: u32)
    requires
        peer_index(h.peers, id) >= 0,
        h.peers[peer_index(h.peers, id)].total_pongs_received < u8::MAX,
    ensures
        ({
            let i = peer_index(h.peers, id);
            let before = h.peers[i];
            let after = heartbeat_ponged(h, id, round).peers;
            &&& after.len() == h.peers.len()
            &&& after[i].node_id == id
            &&& after[i].consecutive_misses == 0
            &&& after[i].status == PeerStatus::Alive
            &&& after[i].last_pong_round == round
            &&& after[i].total_pongs_received == before.total_pongs_received + 1
            &&& after[i].total_pings_sent == before.total_pings_sent
            &&& forall|j: int| 0 <= j < after.len() && j != i ==> after[j] == h.peers[j]
            &&& forall|t: u8, g: u8|
                t > 1 && g > 1 ==> {
                    let missed = #[trigger] after_miss(after[i], t, g);
                    missed.consecutive_misses == 1 && missed.status == PeerStatus::Alive
                }
        }),
{
    let i = peer_index(h.peers, id);
    assert(h.peers[i].node_id == id);
}

/// `k` consecutive misses applied to a peer.
pub open spec fn misses_applied(
    p: PeerStateView,
    miss_threshold: u8,
    grace_period: u8,
    k: nat,
) -> PeerStateView
    decreases k,
{
    if k == 0 {
        p
    } else {
        after_miss(misses_applied(p, miss_threshold, grace_period, (k - 1) as nat), miss_threshold, grace_period)
    }
}

/// A freshly registered peer that misses `k >= 1` consecutive rounds is DEAD
/// once `k` reaches `miss_threshold`, otherwise SUSPECT once `k` reaches
/// `grace_period`, and ALIVE before; its miss count stops growing once it is
/// DEAD.
pub proof fn lemma_consecutive_misses(id: Seq<char>, miss_threshold: u8, grace_period: u8, k: nat)
    requires
        k >= 1,
    ensures
        ({
            let q = misses_applied(fresh_peer(id), miss_threshold, grace_period, k);
            let cap: nat = if miss_threshold == 0 { 1 } else { miss_threshold as nat };
            &&& q.status == if k >= miss_threshold {
                PeerStatus::Dead
            } else if k >= grace_period {
                PeerStatus::Suspect
            } else {
                PeerStatus::Alive
            }
            &&& q.consecutive_misses == if k < cap { k } else { cap }
            &&& q.node_id == id
        }),
    decreases k,
{
    let prev = misses_applied(fresh_peer(id), miss_threshold, grace_period, (k - 1) as nat);
    if k > 1 {
        lemma_consecutive_misses(id, miss_threshold, grace_period, (k - 1) as nat);
    } else {
        assert(prev == fresh_peer(id));
    }
    assert(misses_applied(fresh_peer(id), miss_threshold, grace_period, k) == after_miss(
        prev,
        miss_threshold,
        grace_period,
    ));
    if prev.status != PeerStatus::Dead {
        assert(prev.consecutive_misses == k - 1);
        assert(((prev.consecutive_misses + 1) as u8) == k);
    }
}


/// After `prune_dead` no peer is listed DEAD, while the ALIVE and SUSPECT lists
/// are the same as before.
pub proof fn lemma_prune_keeps_living(peers: Seq<PeerStateView>, status: PeerStatus)
    ensures
        ids_where(peers_where(peers, not_dead()), has_status(status)) == if status
            == PeerStatus::Dead {
            Seq::<Seq<char>>::empty()
        } else {
            ids_where(peers, has_status(status))
        },
    decreases peers.len(),
{
    if peers.len() > 0 {
        let rest = peers.drop_last();
        lemma_prune_keeps_living(rest, status);
        let kept = peers_where(rest, not_dead());
        if not_dead()(peers.last()) {
            assert(kept.push(peers.last()).drop_last() =~= kept);
        }
    }
}

/// The identifiers picked out of a table whose identifiers are distinct are
/// distinct.
proof fn lemma_ids_where_distinct(peers: Seq<PeerStateView>, keep: spec_fn(PeerStateView) -> bool)
    requires
        distinct_ids(peers),
    ensures
        ids_where(peers, keep).no_duplicates(),
    decreases peers.len(),
{
    if peers.len() > 0 {
        let rest = peers.drop_last();
        assert(distinct_ids(rest)) by {
            assert forall|i: int, j: int|
                0 <= i < rest.len() && 0 <= j < rest.len() && i != j implies rest[i].node_id
                != rest[j].node_id by {
                assert(rest[i] == peers[i] && rest[j] == peers[j]);
            }
        }
        lemma_ids_where_distinct(rest, keep);
        let r = ids_where(rest, keep);
        if keep(peers.last()) {
            let id = peers.last().node_id;
            lemma_ids_where_contains(rest, keep, id);
            if r.contains(id) {
                let i = choose|i: int| 0 <= i < rest.len() && rest[i].node_id == id && keep(rest[i]);
                assert(peers[i] == rest[i]);
                assert(peers[peers.len() - 1].node_id == id);
            }
            let q = r.push(id);
            assert forall|a: int, b: int| 0 <= a < q.len() && 0 <= b < q.len() && a != b implies q[a]
                != q[b] by {
                if a == r.len() {
                    assert(r[b] == q[b]);
                } else if b == r.len() {
                    assert(r[a] == q[a]);
                }
            }
        }
    }
}

/// No identifier appears twice in a node's table, nor in any list of its
/// peers picked out by a condition (such as a status).
pub proof fn lemma_heartbeat_lists_distinct(node: &HeartbeatNode, keep: spec_fn(PeerStateView) -> bool)
    requires
        node.wf(),
    ensures
        distinct_ids(node@.peers),
        ids_where(node@.peers, keep).no_duplicates(),
{
    lemma_ids_where_distinct(node@.peers, keep);
}

} // verus!

//! Choking / unchoking, BitTorrent style.
//!
//! Enforces reciprocity by limiting service to peers who contribute.
//!
//!   1. Track how much each peer has contributed (data, messages, etc.).
//!   2. Periodically rank peers by contribution and unchoke the top N.
//!   3. Choke everyone else (stop serving them).
//!   4. Every `optimistic_interval` rounds, randomly unchoke one choked peer
//!      to give new peers a chance (optimistic unchoke).
//!
//! Peers who only download and never upload eventually get choked by
//! everyone and stall.

use vstd::prelude::*;

use rand::seq::IndexedRandom;

use crate::text::{decimal, push_decimal};

verus! {

/// Picks one of `items` uniformly at random, with
/// `rand::seq::IndexedRandom::choose` on the thread-local generator
/// `rand::rng()`.
///
/// Claimed of the outside code: the result is `None` exactly when `items` is
/// empty, and otherwise one of the items. Which item comes back is left open,
/// as it rests on chance. `rand::rng()` panics when the operating system's
/// random source cannot seed it; that is not excluded here.
#[verifier::external_body]
pub(crate) fn choose_index(items: &Vec<usize>) -> (r: Option<usize>)
    ensures
        r is None <==> items@.len() == 0,
        r matches Some(v) ==> items@.contains(v),
{
    items.choose(&mut rand::rng()).copied()
}

/// Tracks a single peer's contribution and choking state.
#[derive(Debug)]
pub struct PeerTracker {
    node_id: String,
    contributed: u32,
    received: u32,
    is_choked: bool,
    is_interested: bool,
    rounds_choked: u32,
}

/// The plain values a `PeerTracker` holds.
pub struct PeerTrackerView {
    pub node_id: Seq<char>,
    pub contributed: u32,
    pub received: u32,
    pub is_choked: bool,
    pub is_interested: bool,
    pub rounds_choked: u32,
}

impl View for PeerTracker {
    type V = PeerTrackerView;

    closed spec fn view(&self) -> PeerTrackerView {
        PeerTrackerView {
            node_id: self.node_id@,
            contributed: self.contributed,
            received: self.received,
            is_choked: self.is_choked,
            is_interested: self.is_interested,
            rounds_choked: self.rounds_choked,
        }
    }
}

/// A newly tracked peer: choked, interested, nothing exchanged yet.
pub open spec fn fresh_tracker(node_id: Seq<char>) -> PeerTrackerView {
    PeerTrackerView {
        node_id,
        contributed: 0,
        received: 0,
        is_choked: true,
        is_interested: true,
        rounds_choked: 0,
    }
}

/// How a tracker is printed: `PeerTracker(<id>, contributed=<n>,
/// received=<n>, CHOKED)`, or `unchoked` in place of `CHOKED`.
pub open spec fn tracker_text(p: PeerTrackerView) -> Seq<char> {
    "PeerTracker("@ + p.node_id + ", contributed="@ + decimal(p.contributed as nat) + ", received="@
        + decimal(p.received as nat) + ", "@ + (if p.is_choked {
        "CHOKED"@
    } else {
        "unchoked"@
    }) + ")"@
}

impl PeerTracker {
    /// The tracker as it is printed.
    pub fn describe(&self) -> (r: String)
        ensures
            r@ == tracker_text(self@),
    {
        let mut s = String::new();
        s.append("PeerTracker(");
        s.append(self.node_id.as_str());
        s.append(", contributed=");
        push_decimal(&mut s, self.contributed as u64);
        s.append(", received=");
        push_decimal(&mut s, self.received as u64);
        s.append(", ");
        if self.is_choked {
            s.append("CHOKED");
        } else {
            s.append("unchoked");
        }
        s.append(")");
        s
    }

    /// A new peer; it starts choked and interested.
    pub fn new(node_id: String) -> (r: PeerTracker)
        ensures
            r@ == fresh_tracker(node_id@),
    {
        PeerTracker {
            node_id,
            contributed: 0,
            received: 0,
            is_choked: true,
            is_interested: true,
            rounds_choked: 0,
        }
    }

    /// The peer's identifier.
    pub fn node_id(&self) -> (r: &str)
        ensures
            r@ == self@.node_id,
    {
        self.node_id.as_str()
    }

    /// Units this peer contributed to us.
    pub fn contributed(&self) -> (r: u32)
        ensures
            r == self@.contributed,
    {
        self.contributed
    }

    /// Units this peer received from us.
    pub fn received(&self) -> (r: u32)
        ensures
            r == self@.received,
    {
        self.received
    }

    /// Whether we currently refuse to serve this peer.
    pub fn is_choked(&self) -> (r: bool)
        ensures
            r == self@.is_choked,
    {
        self.is_choked
    }

    /// Whether this peer wants to be served.
    pub fn is_interested(&self) -> (r: bool)
        ensures
            r == self@.is_interested,
    {
        self.is_interested
    }

    /// How many rounds ended with this peer choked.
    pub fn rounds_choked(&self) -> (r: u32)
        ensures
            r == self@.rounds_choked,
    {
        self.rounds_choked
    }
}

/// The identifiers of the trackers that satisfy `keep`, in table order.
pub open spec fn tracker_ids_where(
    peers: Seq<PeerTrackerView>,
    keep: spec_fn(PeerTrackerView) -> bool,
) -> Seq<Seq<char>>
    decreases peers.len(),
{
    if peers.len() == 0 {
        Seq::empty()
    } else {
        let rest = tracker_ids_where(peers.drop_last(), keep);
        if keep(peers.last()) {
            rest.push(peers.last().node_id)
        } else {
            rest
        }
    }
}

/// Holds of the choked trackers.
pub open spec fn choked() -> spec_fn(PeerTrackerView) -> bool {
    |p: PeerTrackerView| p.is_choked
}

/// Holds of the unchoked trackers.
pub open spec fn unchoked() -> spec_fn(PeerTrackerView) -> bool {
    |p: PeerTrackerView| !p.is_choked
}

/// The position of the tracker with identifier `id`, or -1.
pub open spec fn tracker_index(peers: Seq<PeerTrackerView>, id: Seq<char>) -> int {
    if exists|i: int| 0 <= i < peers.len() && peers[i].node_id == id {
        choose|i: int| 0 <= i < peers.len() && peers[i].node_id == id
    } else {
        -1
    }
}

/// No two trackers share an identifier.
pub open spec fn distinct_trackers(peers: Seq<PeerTrackerView>) -> bool {
    forall|i: int, j: int|
        0 <= i < peers.len() && 0 <= j < peers.len() && i != j ==> peers[i].node_id
            != peers[j].node_id
}

/// Whether `round` is a multiple of `interval`, as `u32::is_multiple_of`
/// decides it (a multiple of zero is zero only).
pub open spec fn is_multiple(round: u32, interval: u32) -> bool {
    if interval == 0 {
        round == 0
    } else {
        round % interval == 0
    }
}

/// How many top contributors a round unchokes: `max_unchoked`, or one fewer
/// when a slot is kept for an optimistic peer.
pub open spec fn regular_slots(max_unchoked: u8, reserved: bool) -> nat {
    if reserved {
        (max_unchoked - 1) as nat
    } else {
        max_unchoked as nat
    }
}

/// Whether the next round keeps a slot for an optimistic peer: it picks one,
/// or it still holds one picked earlier.
pub open spec fn slot_kept(before: ChokingView) -> bool {
    is_multiple((before.round + 1) as u32, before.optimistic_interval) || before.optimistic_peer is Some
}

/// Some tracker wants to be served.
pub open spec fn any_interested(peers: Seq<PeerTrackerView>) -> bool {
    exists|i: int| 0 <= i < peers.len() && peers[i].is_interested
}

/// `top` lists distinct interested trackers, at most `slots` of them, each
/// having contributed at least as much as every interested tracker left out;
/// only when no interested tracker is left out may it hold fewer than `slots`.
pub open spec fn is_top_selection(peers: Seq<PeerTrackerView>, top: Seq<int>, slots: nat) -> bool {
    &&& top.no_duplicates()
    &&& forall|k: int| 0 <= k < top.len() ==> 0 <= top[k] < peers.len() && peers[top[k]].is_interested
    &&& top.len() <= slots
    &&& top.len() < slots ==> forall|i: int|
        0 <= i < peers.len() && peers[i].is_interested ==> top.contains(i)
    &&& forall|k: int, j: int|
        0 <= k < top.len() && 0 <= j < peers.len() && peers[j].is_interested && !top.contains(j)
            ==> peers[top[k]].contributed >= peers[j].contributed
}

/// Whether the tracker at position `i` is unchoked this round: it is in the
/// top selection or it is the optimistic peer.
pub open spec fn unchoked_this_round(
    peers: Seq<PeerTrackerView>,
    top: Seq<int>,
    optimistic: Option<Seq<char>>,
    i: int,
) -> bool {
    top.contains(i) || optimistic == Some(peers[i].node_id)
}

/// A tracker after a round: an interested tracker is choked unless unchoked
/// this round, and counts one more choked round if choked; other trackers are
/// unchanged.
pub open spec fn after_round(p: PeerTrackerView, unchoke: bool) -> PeerTrackerView {
    if p.is_interested {
        PeerTrackerView {
            is_choked: !unchoke,
            rounds_choked: if unchoke {
                p.rounds_choked
            } else {
                (p.rounds_choked + 1) as u32
            },
            ..p
        }
    } else {
        p
    }
}

/// The trackers after a round with the given selection.
pub open spec fn trackers_after_round(
    peers: Seq<PeerTrackerView>,
    top: Seq<int>,
    optimistic: Option<Seq<char>>,
) -> Seq<PeerTrackerView> {
    Seq::new(
        peers.len(),
        |i: int| after_round(peers[i], unchoked_this_round(peers, top, optimistic, i)),
    )
}

/// The log line of a peer that got unchoked.
pub open spec fn unchoke_line(round: u32, id: Seq<char>, contributed: u32) -> Seq<char> {
    "  Round "@ + decimal(round as nat) + ": UNCHOKED "@ + id + " (contributed="@ + decimal(
        contributed as nat,
    ) + ")"@
}

/// The log line of a peer that got choked.
pub open spec fn choke_line(round: u32, id: Seq<char>, contributed: u32) -> Seq<char> {
    "  Round "@ + decimal(round as nat) + ": CHOKED "@ + id + " (contributed="@ + decimal(
        contributed as nat,
    ) + ")"@
}

/// The log lines of a round, in table order: one for each tracker whose
/// choking state changed from `before` to `after`.
pub open spec fn round_lines(
    before: Seq<PeerTrackerView>,
    after: Seq<PeerTrackerView>,
    round: u32,
) -> Seq<Seq<char>>
    decreases before.len(),
{
    if before.len() == 0 || after.len() != before.len() {
        Seq::empty()
    } else {
        let rest = round_lines(before.drop_last(), after.drop_last(), round);
        let b = before.last();
        let a = after.last();
        if b.is_choked && !a.is_choked {
            rest.push(unchoke_line(round, a.node_id, a.contributed))
        } else if !b.is_choked && a.is_choked {
            rest.push(choke_line(round, a.node_id, a.contributed))
        } else {
            rest
        }
    }
}

/// The line a round logs for one tracker, going from `b` to `a`: its
/// UNCHOKED line if it was unchoked, its CHOKED line if it was choked, none
/// if its state did not change.
pub open spec fn logged_change(b: PeerTrackerView, a: PeerTrackerView, round: u32) -> Option<Seq<char>> {
    if b.is_choked && !a.is_choked {
        Some(unchoke_line(round, a.node_id, a.contributed))
    } else if !b.is_choked && a.is_choked {
        Some(choke_line(round, a.node_id, a.contributed))
    } else {
        None
    }
}

/// What a choking round makes of a node: the round counter goes up by one;
/// with no interested peer nothing else changes; otherwise some top
/// selection of contributors and the optimistic peer are unchoked, every
/// other interested peer is choked, and the changes are logged.
pub open spec fn choking_round_result(before: ChokingView, after: ChokingView) -> bool {
    let round = (before.round + 1) as u32;
    let optimism = is_multiple(round, before.optimistic_interval);
    let slots = regular_slots(before.max_unchoked, slot_kept(before));
    let peers = before.peers;
    if !any_interested(peers) {
        after == (ChokingView { round, ..before })
    } else {
        &&& exists|top: Seq<int>|
            {
                &&& is_top_selection(peers, top, slots)
                &&& if optimism && exists|j: int|
                    0 <= j < peers.len() && peers[j].is_interested && !top.contains(j) {
                    exists|j: int|
                        0 <= j < peers.len() && peers[j].is_interested && !top.contains(j)
                            && after.optimistic_peer == Some(peers[j].node_id)
                } else {
                    after.optimistic_peer == before.optimistic_peer
                }
                &&& after.peers == trackers_after_round(
                    peers,
                    top,
                    after.optimistic_peer,
                )
            }
        &&& after.log == before.log + round_lines(peers, after.peers, round)
        &&& after.round == round
        &&& after.node_id == before.node_id
        &&& after.max_unchoked == before.max_unchoked
        &&& after.optimistic_interval == before.optimistic_interval
    }
}

/// The plain values a `ChokingNode` holds.
pub struct ChokingView {
    pub node_id: Seq<char>,
    pub max_unchoked: u8,
    pub optimistic_interval: u32,
    pub peers: Seq<PeerTrackerView>,
    pub round: u32,
    pub optimistic_peer: Option<Seq<char>>,
    pub log: Seq<Seq<char>>,
}

/// A newly registered peer: choked, nothing exchanged yet, interested as
/// given.
pub open spec fn registered_tracker(node_id: Seq<char>, interested: bool) -> PeerTrackerView {
    PeerTrackerView { is_interested: interested, ..fresh_tracker(node_id) }
}

/// The choker after a peer is registered: a new peer starts choked and
/// interested as given, a peer already tracked is left as it is.
pub open spec fn choking_added(c: ChokingView, id: Seq<char>, interested: bool) -> ChokingView {
    ChokingView {
        peers: if tracker_index(c.peers, id) >= 0 {
            c.peers
        } else {
            c.peers.push(registered_tracker(id, interested))
        },
        ..c
    }
}

/// The choker after `id` contributed `units` to us; an unknown peer changes
/// nothing.
pub open spec fn choking_contributed(c: ChokingView, id: Seq<char>, units: u32) -> ChokingView {
    let idx = tracker_index(c.peers, id);
    if idx < 0 {
        c
    } else {
        ChokingView {
            peers: c.peers.update(
                idx,
                PeerTrackerView { contributed: (c.peers[idx].contributed + units) as u32, ..c.peers[idx] },
            ),
            ..c
        }
    }
}

/// The choker after we served `units` to `id`; an unknown peer changes
/// nothing.
pub open spec fn choking_served(c: ChokingView, id: Seq<char>, units: u32) -> ChokingView {
    let idx = tracker_index(c.peers, id);
    if idx < 0 {
        c
    } else {
        ChokingView {
            peers: c.peers.update(
                idx,
                PeerTrackerView { received: (c.peers[idx].received + units) as u32, ..c.peers[idx] },
            ),
            ..c
        }
    }
}

/// A node that decides which peers it serves.
#[derive(Debug)]
pub struct ChokingNode {
    node_id: String,
    max_unchoked: u8,
    optimistic_interval: u32,
    peers: Vec<PeerTracker>,
    round: u32,
    optimistic_peer: Option<String>,
    log: Vec<String>,
}

/// The plain value of an optional string.
pub open spec fn opt_string_view(o: Option<String>) -> Option<Seq<char>> {
    match o {
        Some(s) => Some(s@),
        None => None,
    }
}

/// The plain values of a list of strings.
pub open spec fn string_list_view(v: Seq<String>) -> Seq<Seq<char>> {
    v.map_values(|s: String| s@)
}

impl View for ChokingNode {
    type V = ChokingView;

    closed spec fn view(&self) -> ChokingView {
        ChokingView {
            node_id: self.node_id@,
            max_unchoked: self.max_unchoked,
            optimistic_interval: self.optimistic_interval,
            peers: self.peers@.map_values(|p: PeerTracker| p@),
            round: self.round,
            optimistic_peer: opt_string_view(self.optimistic_peer),
            log: self.log@.map_values(|s: String| s@),
        }
    }
}

proof fn lemma_tracker_ids_step(
    peers: Seq<PeerTrackerView>,
    keep: spec_fn(PeerTrackerView) -> bool,
    i: int,
)
    requires
        0 <= i < peers.len(),
    ensures
        tracker_ids_where(peers.take(i + 1), keep) == if keep(peers[i]) {
            tracker_ids_where(peers.take(i), keep).push(peers[i].node_id)
        } else {
            tracker_ids_where(peers.take(i), keep)
        },
{
    assert(peers.take(i + 1).drop_last() =~= peers.take(i));
}

proof fn lemma_round_lines_step(
    before: Seq<PeerTrackerView>,
    after: Seq<PeerTrackerView>,
    round: u32,
    i: int,
)
    requires
        0 <= i < before.len(),
        before.len() == after.len(),
    ensures
        round_lines(before.take(i + 1), after.take(i + 1), round) == if before[i].is_choked
            && !after[i].is_choked {
            round_lines(before.take(i), after.take(i), round).push(
                unchoke_line(round, after[i].node_id, after[i].contributed),
            )
        } else if !before[i].is_choked && after[i].is_choked {
            round_lines(before.take(i), after.take(i), round).push(
                choke_line(round, after[i].node_id, after[i].contributed),
            )
        } else {
            round_lines(before.take(i), after.take(i), round)
        },
{
    assert(before.take(i + 1).drop_last() =~= before.take(i));
    assert(after.take(i + 1).drop_last() =~= after.take(i));
}

proof fn lemma_tracker_index(peers: Seq<PeerTrackerView>, id: Seq<char>, i: int)
    requires
        distinct_trackers(peers),
        0 <= i < peers.len(),
        peers[i].node_id == id,
    ensures
        tracker_index(peers, id) == i,
{
}

impl ChokingNode {
    /// Identifiers are distinct; no tracker counts more choked rounds than
    /// rounds were run; a tracker that is not interested is choked.
    pub closed spec fn wf(&self) -> bool {
        &&& distinct_trackers(self@.peers)
        &&& forall|i: int| 0 <= i < self@.peers.len() ==> self@.peers[i].rounds_choked <= self@.round
        &&& forall|i: int|
            0 <= i < self@.peers.len() && !self@.peers[i].is_interested ==> self@.peers[i].is_choked
        &&& self@.max_unchoked == 0 ==> self@.optimistic_peer is None
    }

    /// A node with no peers, at round 0, with no optimistic peer and an empty log.
    pub fn new(node_id: String, max_unchoked: u8, optimistic_interval: u32) -> (r: ChokingNode)
        ensures
            r.wf(),
            r@.node_id == node_id@,
            r@.max_unchoked == max_unchoked,
            r@.optimistic_interval == optimistic_interval,
            r@.peers == Seq::<PeerTrackerView>::empty(),
            r@.round == 0,
            r@.optimistic_peer == None::<Seq<char>>,
            r@.log == Seq::<Seq<char>>::empty(),
    {
        let r = ChokingNode {
            node_id,
            max_unchoked,
            optimistic_interval,
            peers: Vec::new(),
            round: 0,
            optimistic_peer: None,
            log: Vec::new(),
        };
        assert(r@.peers =~= Seq::<PeerTrackerView>::empty());
        assert(r@.log =~= Seq::<Seq<char>>::empty());
        r
    }

    /// The node's own identifier.
    pub fn node_id(&self) -> (r: &str)
        ensures
            r@ == self@.node_id,
    {
        self.node_id.as_str()
    }

    /// The tracked peers, in table order.
    pub fn peers(&self) -> (r: &Vec<PeerTracker>)
        ensures
            r@.map_values(|p: PeerTracker| p@) == self@.peers,
    {
        &self.peers
    }

    /// The number of choking rounds run so far.
    pub fn round(&self) -> (r: u32)
        ensures
            r == self@.round,
    {
        self.round
    }

    /// How many peers a round unchokes at most (not counting a carried-over
    /// optimistic peer).
    pub fn max_unchoked(&self) -> (r: u8)
        ensures
            r == self@.max_unchoked,
    {
        self.max_unchoked
    }

    /// Every how many rounds a peer is unchoked optimistically.
    pub fn optimistic_interval(&self) -> (r: u32)
        ensures
            r == self@.optimistic_interval,
    {
        self.optimistic_interval
    }

    /// The tracker of `id`, if it has one.
    pub fn tracker(&self, id: &str) -> (r: Option<&PeerTracker>)
        requires
            self.wf(),
        ensures
            match r {
                Some(t) => tracker_index(self@.peers, id@) >= 0 && t@ == self@.peers[tracker_index(
                    self@.peers,
                    id@,
                )],
                None => tracker_index(self@.peers, id@) < 0,
            },
    {
        let key = id.to_owned();
        match self.position(&key) {
            Some(i) => {
                assert(self@.peers[i as int] == self.peers@[i as int]@);
                Some(&self.peers[i])
            },
            None => None,
        }
    }

    fn position(&self, id: &String) -> (r: Option<usize>)
        requires
            self.wf(),
        ensures
            match r {
                Some(i) => i < self@.peers.len() && self@.peers[i as int].node_id == id@
                    && tracker_index(self@.peers, id@) == i,
                None => tracker_index(self@.peers, id@) == -1,
            },
    {
        let mut i: usize = 0;
        while i < self.peers.len()
            invariant
                i <= self.peers@.len(),
                self.wf(),
                forall|j: int| 0 <= j < i ==> self@.peers[j].node_id != id@,
            decreases self.peers@.len() - i,
        {
            if self.peers[i].node_id == *id {
                proof {
                    lemma_tracker_index(self@.peers, id@, i as int);
                }
                return Some(i);
            }
            i = i + 1;
        }
        None
    }

    /// Registers a new peer; new peers start choked, and interested or not
    /// as `interested` says (only interested peers are ever unchoked). A
    /// peer already tracked is left as it is.
    pub fn add_peer(&mut self, node_id: String, interested: bool)
        requires
            old(self).wf(),
        ensures
            final(self).wf(),
            final(self)@ == choking_added(old(self)@, node_id@, interested),
    {
        match self.position(&node_id) {
            Some(_) => {},
            None => {
                let ghost id = node_id@;
                let mut tracker = PeerTracker::new(node_id);
                tracker.is_interested = interested;
                self.peers.push(tracker);
                assert(self@.peers =~= old(self)@.peers.push(registered_tracker(id, interested)));
            },
        }
    }

    /// Records that `from_peer` contributed `units` to us; an unknown peer
    /// changes nothing.
    pub fn record_contribution(&mut self, from_peer: &str, units: u32)
        requires
            old(self).wf(),
            tracker_index(old(self)@.peers, from_peer@) >= 0 ==> old(self)@.peers[tracker_index(
                old(self)@.peers,
                from_peer@,
            )].contributed + units <= u32::MAX,
        ensures
            final(self).wf(),
            final(self)@ == choking_contributed(old(self)@, from_peer@, units),
    {
        let key = from_peer.to_owned();
        match self.position(&key) {
            None => {},
            Some(i) => {
                let ghost before = self@.peers;
                self.peers[i].contributed = self.peers[i].contributed + units;
                assert(self@.peers =~= before.update(
                    i as int,
                    PeerTrackerView {
                        contributed: (before[i as int].contributed + units) as u32,
                        ..before[i as int]
                    },
                ));
            },
        }
    }

    /// Records that we served `units` to `to_peer`; an unknown peer changes
    /// nothing.
    pub fn record_serving(&mut self, to_peer: &str, units: u32)
        requires
            old(self).wf(),
            tracker_index(old(self)@.peers, to_peer@) >= 0 ==> old(self)@.peers[tracker_index(
                old(self)@.peers,
                to_peer@,
            )].received + units <= u32::MAX,
        ensures
            final(self).wf(),
            final(self)@ == choking_served(old(self)@, to_peer@, units),
    {
        let key = to_peer.to_owned();
        match self.position(&key) {
            None => {},
            Some(i) => {
                let ghost before = self@.peers;
                self.peers[i].received = self.peers[i].received + units;
                assert(self@.peers =~= before.update(
                    i as int,
                    PeerTrackerView { received: (before[i as int].received + units) as u32, ..before[i as int] },
                ));
            },
        }
    }

    /// Recalculates choke/unchoke decisions for this round.
    ///
    ///   1. Increments the round counter.
    ///   2. Ranks the interested peers by contribution.
    ///   3. Unchokes the top `max_unchoked` of them, or the top
    ///      `max_unchoked - 1` while a slot is kept for an optimistic peer
    ///      (in a round that is a multiple of `optimistic_interval`, or while
    ///      an earlier optimistic peer is held); in such a round one random
    ///      interested peer outside the top becomes the optimistic peer, when
    ///      there is one.
    ///   4. The optimistic peer stays unchoked too; every other interested
    ///      peer is choked. So at most `max_unchoked` peers are unchoked.
    ///   5. Logs each peer whose state changed.
    ///
    /// With no interested peer only the round counter changes. Which of equal
    /// contributors make the top, and which peer is picked optimistically,
    /// is left open.
    pub fn run_choking_round(&mut self)
        requires
            old(self).wf(),
            old(self)@.round < u32::MAX,
            any_interested(old(self)@.peers) && is_multiple(
                (old(self)@.round + 1) as u32,
                old(self)@.optimistic_interval,
            ) ==> old(self)@.max_unchoked > 0,
        ensures
            final(self).wf(),
            choking_round_result(old(self)@, final(self)@),
            tracker_ids_where(final(self)@.peers, unchoked()).len() <= old(self)@.max_unchoked,
    {
        let ghost before = *self;
        self.round = self.round + 1;
        let n = self.peers.len();
        let ghost peers = old(self)@.peers;
        let mut found = false;
        let mut i: usize = 0;
        while i < n
            invariant
                n == self.peers@.len(),
                self@.peers == peers,
                i <= n,
                found <==> exists|j: int| 0 <= j < i && peers[j].is_interested,
            decreases n - i,
        {
            if self.peers[i].is_interested {
                found = true;
                assert(peers[i as int].is_interested);
            }
            i = i + 1;
        }
        if !found {
            proof {
                lemma_unchoked_within_limit(&before, self@);
            }
            return ;
        }
        let interval = self.optimistic_interval;
        let optimism = if interval == 0 {
            self.round == 0
        } else {
            self.round % interval == 0
        };
        let reserved = optimism || self.optimistic_peer.is_some();
        let slots: u8 = if reserved {
            self.max_unchoked - 1
        } else {
            self.max_unchoked
        };
        let (top, selected) = self.select_top(slots);
        let ghost topi = top@.map_values(|k: usize| k as int);
        proof {
            assert forall|j: int| 0 <= j < n implies (selected@[j] <==> topi.contains(j)) by {
                if topi.contains(j) {
                    let k = choose|k: int| 0 <= k < topi.len() && topi[k] == j;
                    assert(top@[k] as int == j);
                }
                if top@.contains(j as usize) {
                    let k = choose|k: int| 0 <= k < top@.len() && top@[k] == j as usize;
                    assert(topi[k] == j);
                }
            }
        }
        let ghost mut chosen: int = -1;
        if optimism {
            let mut candidates: Vec<usize> = Vec::new();
            let mut i: usize = 0;
            while i < n
                invariant
                    n == self.peers@.len(),
                    self@.peers == peers,
                    selected@.len() == n,
                    forall|j: int| 0 <= j < n ==> (selected@[j] <==> top@.contains(j as usize)),
                    i <= n,
                    forall|k: int|
                        0 <= k < candidates@.len() ==> candidates@[k] < n && peers[candidates@[k] as int].is_interested
                            && !selected@[candidates@[k] as int],
                    forall|j: int|
                        0 <= j < i && peers[j].is_interested && !selected@[j] ==> candidates@.contains(
                            j as usize,
                        ),
                decreases n - i,
            {
                let ghost oldc = candidates@;
                if self.peers[i].is_interested && !selected[i] {
                    candidates.push(i);
                    assert(candidates@[candidates@.len() - 1] == i);
                }
                assert forall|j: int|
                    0 <= j < i + 1 && peers[j].is_interested && !selected@[j] implies candidates@.contains(
                        j as usize,
                    ) by {
                    if j == i {
                        assert(candidates@[candidates@.len() - 1] == i);
                    } else {
                        assert(oldc.contains(j as usize));
                        let k = choose|k: int| 0 <= k < oldc.len() && oldc[k] == j as usize;
                        assert(candidates@[k] == j as usize);
                    }
                }
                i = i + 1;
            }
            match choose_index(&candidates) {
                Some(c) => {
                    let id = self.peers[c].node_id.clone();
                    self.optimistic_peer = Some(id);
                    proof {
                        chosen = c as int;
                        let k = choose|k: int| 0 <= k < candidates@.len() && candidates@[k] == c;
                        assert(peers[chosen].is_interested && !topi.contains(chosen));
                    }
                },
                None => {
                    proof {
                        assert forall|j: int|
                            0 <= j < n && peers[j].is_interested implies topi.contains(j) by {
                            if !topi.contains(j) {
                                assert(candidates@.contains(j as usize));
                            }
                        }
                    }
                },
            }
        }
        let ghost opt = self@.optimistic_peer;
        proof {
            if optimism && exists|j: int| 0 <= j < peers.len() && peers[j].is_interested && !topi.contains(j) {
                assert(chosen >= 0);
                assert(peers[chosen].is_interested && !topi.contains(chosen) && opt == Some(peers[chosen].node_id));
            }
        }
        self.apply_round(&top, &selected);
        proof {
            assert(self@.optimistic_peer == opt);
            assert(is_top_selection(peers, topi, slots as nat));
            let reserved_spec = slot_kept(old(self)@);
            assert(slots as nat == regular_slots(old(self)@.max_unchoked, reserved_spec));
            let body = {
                &&& is_top_selection(
                    peers,
                    topi,
                    regular_slots(old(self)@.max_unchoked, reserved_spec),
                )
                &&& if optimism && exists|j: int|
                    0 <= j < peers.len() && peers[j].is_interested && !topi.contains(j) {
                    exists|j: int|
                        0 <= j < peers.len() && peers[j].is_interested && !topi.contains(j)
                            && self@.optimistic_peer == Some(peers[j].node_id)
                } else {
                    self@.optimistic_peer == old(self)@.optimistic_peer
                }
                &&& self@.peers == trackers_after_round(peers, topi, self@.optimistic_peer)
            };
            assert(body);
            assert(choking_round_result(old(self)@, self@));
            lemma_unchoked_within_limit(&before, self@);
        }
    }

    /// Selects the top interested contributors, at most `slots` of them.
    fn select_top(&self, slots: u8) -> (r: (Vec<usize>, Vec<bool>))
        ensures
            is_top_selection(self@.peers, r.0@.map_values(|k: usize| k as int), slots as nat),
            r.1@.len() == self@.peers.len(),
            forall|j: int|
                0 <= j < self@.peers.len() ==> (r.1@[j] <==> r.0@.contains(j as usize)),
    {
        let n = self.peers.len();
        let ghost peers = self@.peers;
        let mut selected: Vec<bool> = Vec::new();
        let mut i: usize = 0;
        while i < n
            invariant
                n == peers.len(),
                i <= n,
                selected@.len() == i,
                forall|j: int| 0 <= j < i ==> !selected@[j],
            decreases n - i,
        {
            selected.push(false);
            i = i + 1;
        }
        let mut top: Vec<usize> = Vec::new();
        let mut done = false;
        while top.len() < slots as usize && !done
            invariant
                n == peers.len(),
                peers == self@.peers,
                selected@.len() == n,
                top@.len() <= slots,
                top@.no_duplicates(),
                forall|j: int| 0 <= j < n ==> (selected@[j] <==> top@.contains(j as usize)),
                forall|k: int|
                    0 <= k < top@.len() ==> top@[k] < n && peers[top@[k] as int].is_interested,
                forall|k: int, j: int|
                    0 <= k < top@.len() && 0 <= j < n && peers[j].is_interested && !selected@[j]
                        ==> peers[top@[k] as int].contributed >= peers[j].contributed,
                done ==> forall|j: int| 0 <= j < n && peers[j].is_interested ==> selected@[j],
            decreases slots - top@.len() + (if done { 0int } else { 1int }),
        {
            let mut best: Option<usize> = None;
            let mut j: usize = 0;
            while j < n
                invariant
                    n == peers.len(),
                    peers == self@.peers,
                    selected@.len() == n,
                    j <= n,
                    match best {
                        Some(b) => b < n && peers[b as int].is_interested && !selected@[b as int]
                            && forall|m: int|
                            0 <= m < j && peers[m].is_interested && !selected@[m]
                                ==> peers[b as int].contributed >= peers[m].contributed,
                        None => forall|m: int|
                            0 <= m < j ==> !(peers[m].is_interested && !selected@[m]),
                    },
                decreases n - j,
            {
                if self.peers[j].is_interested && !selected[j] {
                    match best {
                        None => {
                            best = Some(j);
                        },
                        Some(b) => {
                            if self.peers[j].contributed > self.peers[b].contributed {
                                best = Some(j);
                            }
                        },
                    }
                }
                j = j + 1;
            }
            match best {
                None => {
                    done = true;
                },
                Some(b) => {
                    let ghost old_top = top@;
                    let ghost old_selected = selected@;
                    selected.set(b, true);
                    top.push(b);
                    assert forall|x: int| 0 <= x < n implies (selected@[x] <==> top@.contains(
                        x as usize,
                    )) by {
                        if x == b as int {
                            assert(top@[top@.len() - 1] == b);
                        } else {
                            assert(selected@[x] == old_selected[x]);
                            if old_top.contains(x as usize) {
                                let k = choose|k: int| 0 <= k < old_top.len() && old_top[k] == x as usize;
                                assert(top@[k] == x as usize);
                            }
                            if top@.contains(x as usize) {
                                let k = choose|k: int| 0 <= k < top@.len() && top@[k] == x as usize;
                                assert(k < old_top.len());
                                assert(old_top[k] == x as usize);
                            }
                        }
                    }
                    assert(!old_top.contains(b));
                },
            }
        }
        let ghost topi = top@.map_values(|k: usize| k as int);
        proof {
        assert forall|x: int| topi.contains(x) <==> (0 <= x < n && top@.contains(x as usize)) by {
            if topi.contains(x) {
                let k = choose|k: int| 0 <= k < topi.len() && topi[k] == x;
                assert(top@[k] as int == x);
            }
            if 0 <= x < n && top@.contains(x as usize) {
                let k = choose|k: int| 0 <= k < top@.len() && top@[k] == x as usize;
                assert(topi[k] == x);
            }
        }
        assert forall|k: int| 0 <= k < topi.len() implies topi[k] == top@[k] as int && 0 <= topi[k] < n
            && peers[topi[k]].is_interested by {}
        if topi.len() < slots as nat {
            assert(done);
            assert forall|x: int| 0 <= x < n && peers[x].is_interested implies topi.contains(x) by {
                assert(selected@[x]);
                assert(top@.contains(x as usize));
            }
        }
        assert forall|k: int, j: int|
            0 <= k < topi.len() && 0 <= j < n && peers[j].is_interested && !topi.contains(j)
                implies peers[topi[k]].contributed >= peers[j].contributed by {
            assert(!selected@[j]);
        }
        assert(topi.no_duplicates()) by {
            assert forall|a: int, b: int| 0 <= a < topi.len() && 0 <= b < topi.len() && a != b implies topi[a] != topi[b] by {
                assert(top@[a] != top@[b]);
            }
        }
        }
        (top, selected)
    }

    /// Applies the decisions of a round to every interested tracker and logs
    /// the changes.
    fn apply_round(&mut self, top: &Vec<usize>, selected: &Vec<bool>)
        requires
            old(self).wf(),
            old(self)@.round >= 1,
            forall|i: int|
                0 <= i < old(self)@.peers.len() ==> old(self)@.peers[i].rounds_choked < old(
                    self,
                )@.round,
            selected@.len() == old(self)@.peers.len(),
            forall|j: int|
                0 <= j < old(self)@.peers.len() ==> (selected@[j] <==> top@.contains(j as usize)),
        ensures
            final(self).wf(),
            final(self)@.peers == trackers_after_round(
                old(self)@.peers,
                top@.map_values(|k: usize| k as int),
                old(self)@.optimistic_peer,
            ),
            final(self)@.log == old(self)@.log + round_lines(
                old(self)@.peers,
                final(self)@.peers,
                old(self)@.round,
            ),
            final(self)@.round == old(self)@.round,
            final(self)@.optimistic_peer == old(self)@.optimistic_peer,
            final(self)@.node_id == old(self)@.node_id,
            final(self)@.max_unchoked == old(self)@.max_unchoked,
            final(self)@.optimistic_interval == old(self)@.optimistic_interval,
    {
        let n = self.peers.len();
        let ghost peers = old(self)@.peers;
        let ghost topi = top@.map_values(|k: usize| k as int);
        let ghost target = trackers_after_round(peers, topi, old(self)@.optimistic_peer);
        let mut i: usize = 0;
        while i < n
            invariant
                n == self.peers@.len(),
                n == peers.len(),
                i <= n,
                selected@.len() == n,
                forall|j: int| 0 <= j < n ==> (selected@[j] <==> top@.contains(j as usize)),
                target == trackers_after_round(peers, topi, old(self)@.optimistic_peer),
                topi == top@.map_values(|k: usize| k as int),
                forall|j: int| 0 <= j < i ==> self@.peers[j] == target[j],
                forall|j: int| i <= j < n ==> self@.peers[j] == peers[j],
                forall|j: int| 0 <= j < n ==> peers[j].rounds_choked < old(self)@.round,
                distinct_trackers(peers),
                forall|j: int| 0 <= j < n && !peers[j].is_interested ==> peers[j].is_choked,
                self@.log == old(self)@.log + round_lines(
                    peers.take(i as int),
                    target.take(i as int),
                    old(self)@.round,
                ),
                self@.round == old(self)@.round,
                self@.optimistic_peer == old(self)@.optimistic_peer,
                self@.node_id == old(self)@.node_id,
                self@.max_unchoked == old(self)@.max_unchoked,
                self@.optimistic_interval == old(self)@.optimistic_interval,
            decreases n - i,
        {
            proof {
                lemma_round_lines_step(peers, target, old(self)@.round, i as int);
                assert(selected@[i as int] <==> topi.contains(i as int)) by {
                    if topi.contains(i as int) {
                        let k = choose|k: int| 0 <= k < topi.len() && topi[k] == i as int;
                        assert(top@[k] == i);
                    }
                    if top@.contains(i) {
                        let k = choose|k: int| 0 <= k < top@.len() && top@[k] == i;
                        assert(topi[k] == i as int);
                    }
                }
            }
            if self.peers[i].is_interested {
                let is_optimistic = match &self.optimistic_peer {
                    Some(o) => *o == self.peers[i].node_id,
                    None => false,
                };
                let unchoke = selected[i] || is_optimistic;
                let old_choked = self.peers[i].is_choked;
                let ghost before = self.peers@;
                self.peers[i].is_choked = !unchoke;
                if !unchoke {
                    self.peers[i].rounds_choked = self.peers[i].rounds_choked + 1;
                }
                assert forall|j: int| 0 <= j < n && j != i implies self@.peers[j] == before.map_values(|p: PeerTracker| p@)[j] by {
                    assert(self.peers@[j] == before[j]);
                }
                assert(self@.peers[i as int] == target[i as int]);
                let ghost prev_log = self@.log;
                proof {
                    assert(self.peers@[i as int]@ == target[i as int]);
                    reveal_strlit(": UNCHOKED ");
                    reveal_strlit(": CHOKED ");
                }
                if old_choked && unchoke {
                    let line = round_text(
                        self.round,
                        ": UNCHOKED ",
                        self.peers[i].node_id.as_str(),
                        self.peers[i].contributed,
                    );
                    assert(line@ == unchoke_line(
                        old(self)@.round,
                        target[i as int].node_id,
                        target[i as int].contributed,
                    ));
                    self.log.push(line);
                    assert(self@.log =~= prev_log.push(line@));
                } else if !old_choked && !unchoke {
                    let line = round_text(
                        self.round,
                        ": CHOKED ",
                        self.peers[i].node_id.as_str(),
                        self.peers[i].contributed,
                    );
                    assert(line@ == choke_line(
                        old(self)@.round,
                        target[i as int].node_id,
                        target[i as int].contributed,
                    ));
                    self.log.push(line);
                    assert(self@.log =~= prev_log.push(line@));
                }
            }
            assert(self@.log =~= old(self)@.log + round_lines(
                peers.take(i as int + 1),
                target.take(i as int + 1),
                old(self)@.round,
            ));
            i = i + 1;
        }
        assert(peers.take(n as int) =~= peers);
        assert(target.take(n as int) =~= target);
        assert(self@.peers =~= target);
    }

    /// The identifiers of all unchoked peers, in table order.
    pub fn get_unchoked_peers(&self) -> (r: Vec<String>)
        ensures
            string_list_view(r@) == tracker_ids_where(self@.peers, unchoked()),
    {
        self.ids_where_choked(false)
    }

    /// The identifiers of all choked peers, in table order.
    pub fn get_choked_peers(&self) -> (r: Vec<String>)
        ensures
            string_list_view(r@) == tracker_ids_where(self@.peers, choked()),
    {
        self.ids_where_choked(true)
    }

    fn ids_where_choked(&self, want: bool) -> (r: Vec<String>)
        ensures
            string_list_view(r@) == tracker_ids_where(
                self@.peers,
                if want {
                    choked()
                } else {
                    unchoked()
                },
            ),
    {
        let ghost keep = if want {
            choked()
        } else {
            unchoked()
        };
        let mut out: Vec<String> = Vec::new();
        let mut i: usize = 0;
        while i < self.peers.len()
            invariant
                i <= self.peers@.len(),
                keep == (if want {
                    choked()
                } else {
                    unchoked()
                }),
                string_list_view(out@) == tracker_ids_where(self@.peers.take(i as int), keep),
            decreases self.peers@.len() - i,
        {
            proof {
                lemma_tracker_ids_step(self@.peers, keep, i as int);
            }
            if self.peers[i].is_choked == want {
                out.push(self.peers[i].node_id.clone());
                assert(string_list_view(out@) =~= tracker_ids_where(
                    self@.peers.take(i as int),
                    keep,
                ).push(self@.peers[i as int].node_id));
            }
            i = i + 1;
        }
        assert(self@.peers.take(self@.peers.len() as int) =~= self@.peers);
        out
    }

    /// Returns the log and empties it.
    pub fn flush_log(&mut self) -> (r: Vec<String>)
        requires
            old(self).wf(),
        ensures
            final(self).wf(),
            string_list_view(r@) == old(self)@.log,
            final(self)@ == (ChokingView { log: Seq::empty(), ..old(self)@ }),
    {
        let mut messages: Vec<String> = Vec::new();
        std::mem::swap(&mut messages, &mut self.log);
        assert(self@.log =~= Seq::<Seq<char>>::empty());
        messages
    }
}

/// The text of a round's log line: the round, then `action`, then the peer
/// and what it contributed.
fn round_text(round: u32, action: &str, id: &str, contributed: u32) -> (r: String)
    ensures
        r@ == "  Round "@ + decimal(round as nat) + action@ + id@ + " (contributed="@
            + decimal(contributed as nat) + ")"@,
{
    proof {
        reveal_strlit("  Round ");
        reveal_strlit(" (contributed=");
        reveal_strlit(")");
    }
    let mut s = String::new();
    s.append("  Round ");
    push_decimal(&mut s, round as u64);
    s.append(action);
    s.append(id);
    s.append(" (contributed=");
    push_decimal(&mut s, contributed as u64);
    s.append(")");
    s
}


/// The number of positions below `n` that satisfy `p`.
pub open spec fn count_positions(n: nat, p: spec_fn(int) -> bool) -> nat
    decreases n,
{
    if n == 0 {
        0
    } else {
        count_positions((n - 1) as nat, p) + if p(n - 1) {
            1nat
        } else {
            0nat
        }
    }
}

proof fn lemma_count_cover(n: nat, p: spec_fn(int) -> bool, q: spec_fn(int) -> bool, r: spec_fn(int) -> bool)
    requires
        forall|i: int| 0 <= i < n && #[trigger] p(i) ==> q(i) || r(i),
    ensures
        count_positions(n, p) <= count_positions(n, q) + count_positions(n, r),
    decreases n,
{
    if n > 0 {
        lemma_count_cover((n - 1) as nat, p, q, r);
    }
}

proof fn lemma_count_none(n: nat, p: spec_fn(int) -> bool)
    requires
        forall|i: int| 0 <= i < n ==> !#[trigger] p(i),
    ensures
        count_positions(n, p) == 0,
    decreases n,
{
    if n > 0 {
        lemma_count_none((n - 1) as nat, p);
    }
}

proof fn lemma_count_at_most_one(n: nat, p: spec_fn(int) -> bool, at: int)
    requires
        forall|i: int| 0 <= i < n && #[trigger] p(i) ==> i == at,
    ensures
        count_positions(n, p) <= 1,
    decreases n,
{
    if n > 0 {
        if p(n - 1) {
            lemma_count_none((n - 1) as nat, p);
        } else {
            lemma_count_at_most_one((n - 1) as nat, p, at);
        }
    }
}

proof fn lemma_count_in_seq(n: nat, top: Seq<int>)
    ensures
        count_positions(n, |i: int| top.contains(i)) <= top.len(),
    decreases top.len(),
{
    if top.len() == 0 {
        lemma_count_none(n, |i: int| top.contains(i));
    } else {
        let rest = top.drop_last();
        let t = top.last();
        assert forall|i: int| 0 <= i < n && top.contains(i) implies rest.contains(i) || i == t by {
            let k = choose|k: int| 0 <= k < top.len() && top[k] == i;
            if k < top.len() - 1 {
                assert(rest[k] == i);
            }
        }
        lemma_count_cover(n, |i: int| top.contains(i), |i: int| rest.contains(i), |i: int| i == t);
        lemma_count_in_seq(n, rest);
        lemma_count_at_most_one(n, |i: int| i == t, t);
    }
}

proof fn lemma_ids_count(peers: Seq<PeerTrackerView>, keep: spec_fn(PeerTrackerView) -> bool)
    ensures
        tracker_ids_where(peers, keep).len() == count_positions(
            peers.len(),
            |i: int| keep(peers[i]),
        ),
    decreases peers.len(),
{
    if peers.len() > 0 {
        let rest = peers.drop_last();
        lemma_ids_count(rest, keep);
        lemma_count_same(
            rest.len(),
            |i: int| keep(rest[i]),
            |i: int| keep(peers[i]),
        );
    }
}

proof fn lemma_count_same(n: nat, p: spec_fn(int) -> bool, q: spec_fn(int) -> bool)
    requires
        forall|i: int| 0 <= i < n ==> #[trigger] p(i) == q(i),
    ensures
        count_positions(n, p) == count_positions(n, q),
    decreases n,
{
    if n > 0 {
        lemma_count_same((n - 1) as nat, p, q);
    }
}

/// A choking round leaves at most `max_unchoked` peers unchoked: the top
/// contributors fill one slot fewer whenever an optimistic peer is held.
pub proof fn lemma_unchoked_within_limit(before: &ChokingNode, after: ChokingView)
    requires
        before.wf(),
        choking_round_result(before@, after),
        any_interested(before@.peers) && is_multiple(
            (before@.round + 1) as u32,
            before@.optimistic_interval,
        ) ==> before@.max_unchoked > 0,
    ensures
        tracker_ids_where(after.peers, unchoked()).len() <= before@.max_unchoked,
{
    let b = before@;
    let peers = b.peers;
    let n = peers.len();
    lemma_ids_count(after.peers, unchoked());
    if !any_interested(peers) {
        assert forall|i: int| 0 <= i < n implies !unchoked()(peers[i]) by {
            assert(!peers[i].is_interested);
        }
        lemma_count_none(n, |i: int| unchoked()(peers[i]));
    } else {
        let round = (b.round + 1) as u32;
        let optimism = is_multiple(round, b.optimistic_interval);
        let slots = regular_slots(b.max_unchoked, slot_kept(b));
        let top = choose|top: Seq<int>|
            {
                &&& is_top_selection(peers, top, slots)
                &&& if optimism && exists|j: int|
                    0 <= j < peers.len() && peers[j].is_interested && !top.contains(j) {
                    exists|j: int|
                        0 <= j < peers.len() && peers[j].is_interested && !top.contains(j)
                            && after.optimistic_peer == Some(peers[j].node_id)
                } else {
                    after.optimistic_peer == b.optimistic_peer
                }
                &&& after.peers == trackers_after_round(peers, top, after.optimistic_peer)
            };
        let opt = after.optimistic_peer;
        let is_opt = |i: int| opt == Some(peers[i].node_id);
        let p = |i: int| unchoked()(after.peers[i]);
        let q = |i: int| top.contains(i);
        assert forall|i: int| 0 <= i < n && #[trigger] p(i) implies q(i) || is_opt(i) by {
            if !peers[i].is_interested {
                assert(peers[i].is_choked);
            }
        }
        assert(after.peers.len() == n);
        lemma_count_same(n, |i: int| unchoked()(after.peers[i]), p);
        lemma_count_cover(n, p, q, is_opt);
        lemma_count_in_seq(n, top);
        if opt is Some {
            let id = opt->0;
            if exists|j: int| 0 <= j < n && peers[j].node_id == id {
                let at = choose|j: int| 0 <= j < n && peers[j].node_id == id;
                lemma_count_at_most_one(n, is_opt, at);
            } else {
                lemma_count_none(n, is_opt);
            }
        } else {
            lemma_count_none(n, is_opt);
        }
    }
}

/// The choked and the unchoked lists are disjoint and together list every
/// tracked peer.
pub proof fn lemma_choke_lists_partition(node: &ChokingNode, id: Seq<char>)
    requires
        node.wf(),
    ensures
        !(tracker_ids_where(node@.peers, choked()).contains(id) && tracker_ids_where(
            node@.peers,
            unchoked(),
        ).contains(id)),
        node@.peers.map_values(|p: PeerTrackerView| p.node_id).contains(id) <==> (
        tracker_ids_where(node@.peers, choked()).contains(id) || tracker_ids_where(
            node@.peers,
            unchoked(),
        ).contains(id)),
{
    let peers = node@.peers;
    lemma_tracker_ids_contains(peers, choked(), id);
    lemma_tracker_ids_contains(peers, unchoked(), id);
    let ids = peers.map_values(|p: PeerTrackerView| p.node_id);
    if ids.contains(id) {
        let k = choose|k: int| 0 <= k < ids.len() && ids[k] == id;
        assert(peers[k].node_id == id);
        if peers[k].is_choked {
            assert(choked()(peers[k]));
        } else {
            assert(unchoked()(peers[k]));
        }
    }
    if exists|i: int| 0 <= i < peers.len() && peers[i].node_id == id {
        let i = choose|i: int| 0 <= i < peers.len() && peers[i].node_id == id;
        assert(ids[i] == id);
    }
}

/// A peer is listed by `tracker_ids_where` exactly when some tracker has its
/// identifier and passes the filter.
pub proof fn lemma_tracker_ids_contains(
    peers: Seq<PeerTrackerView>,
    keep: spec_fn(PeerTrackerView) -> bool,
    id: Seq<char>,
)
    ensures
        tracker_ids_where(peers, keep).contains(id) <==> exists|i: int|
            0 <= i < peers.len() && peers[i].node_id == id && keep(peers[i]),
    decreases peers.len(),
{
    if peers.len() > 0 {
        let rest = peers.drop_last();
        lemma_tracker_ids_contains(rest, keep, id);
        let r = tracker_ids_where(rest, keep);
        if exists|i: int| 0 <= i < peers.len() && peers[i].node_id == id && keep(peers[i]) {
            let i = choose|i: int| 0 <= i < peers.len() && peers[i].node_id == id && keep(peers[i]);
            if i < peers.len() - 1 {
                assert(rest[i] == peers[i]);
                let k = choose|k: int| 0 <= k < r.len() && r[k] == id;
                if keep(peers.last()) {
                    assert(r.push(peers.last().node_id)[k] == id);
                }
            } else if keep(peers.last()) {
                assert(r.push(peers.last().node_id)[r.len() as int] == id);
            }
        }
        if tracker_ids_where(peers, keep).contains(id) {
            let all = tracker_ids_where(peers, keep);
            let k = choose|k: int| 0 <= k < all.len() && all[k] == id;
            if k < r.len() {
                assert(r[k] == id);
                let i = choose|i: int| 0 <= i < rest.len() && rest[i].node_id == id && keep(rest[i]);
                assert(peers[i] == rest[i]);
            } else {
                assert(peers[peers.len() - 1].node_id == id);
            }
        }
    }
}

/// A peer added to the node starts out choked.
pub proof fn lemma_new_peer_choked(peers: Seq<PeerTrackerView>, id: Seq<char>, interested: bool)
    requires
        distinct_trackers(peers),
        tracker_index(peers, id) < 0,
    ensures
        tracker_ids_where(peers.push(registered_tracker(id, interested)), choked()).contains(id),
        !tracker_ids_where(peers.push(registered_tracker(id, interested)), unchoked()).contains(id),
{
    let after = peers.push(registered_tracker(id, interested));
    assert(after[peers.len() as int] == registered_tracker(id, interested));
    lemma_tracker_ids_contains(after, choked(), id);
    lemma_tracker_ids_contains(after, unchoked(), id);
    assert forall|i: int| 0 <= i < after.len() && after[i].node_id == id implies i == peers.len() by {
        if i < peers.len() {
            assert(after[i] == peers[i]);
        }
    }
}

/// The identifiers picked out of a table whose identifiers are distinct are
/// distinct.
proof fn lemma_tracker_ids_distinct(peers: Seq<PeerTrackerView>, keep: spec_fn(PeerTrackerView) -> bool)
    requires
        distinct_trackers(peers),
    ensures
        tracker_ids_where(peers, keep).no_duplicates(),
    decreases peers.len(),
{
    if peers.len() > 0 {
        let rest = peers.drop_last();
        assert(distinct_trackers(rest)) by {
            assert forall|i: int, j: int|
                0 <= i < rest.len() && 0 <= j < rest.len() && i != j implies rest[i].node_id
                != rest[j].node_id by {
                assert(rest[i] == peers[i] && rest[j] == peers[j]);
            }
        }
        lemma_tracker_ids_distinct(rest, keep);
        let r = tracker_ids_where(rest, keep);
        if keep(peers.last()) {
            let id = peers.last().node_id;
            lemma_tracker_ids_contains(rest, keep, id);
            if r.contains(id) {
                let i = choose|i: int| 0 <= i < rest.len() && rest[i].node_id == id && keep(rest[i]);
                assert(peers[i] == rest[i]);
                assert(peers[peers.len() - 1].node_id == id);
            }
            let q = r.push(id);
            assert forall|a: int, b: int| 0 <= a < q.len() && 0 <= b < q.len() && a != b implies q[a]
                != q[b] by {
                if a == r.len() {
                    assert(r[b] == q[b]);
                } else if b == r.len() {
                    assert(r[a] == q[a]);
                }
            }
        }
    }
}

/// No identifier appears twice in a node's table, nor in any list of its
/// peers picked out by a condition (such as a status).
pub proof fn lemma_choking_lists_distinct(node: &ChokingNode, keep: spec_fn(PeerTrackerView) -> bool)
    requires
        node.wf(),
    ensures
        distinct_trackers(node@.peers),
        tracker_ids_where(node@.peers, keep).no_duplicates(),
{
    lemma_tracker_ids_distinct(node@.peers, keep);
}

/// A choking round keeps every tracker's identifier in place.
pub proof fn lemma_round_keeps_ids(before: ChokingView, after: ChokingView)
    requires
        choking_round_result(before, after),
    ensures
        after.peers.len() == before.peers.len(),
        forall|j: int| 0 <= j < before.peers.len() ==> #[trigger] after.peers[j].node_id == before.peers[j].node_id,
{
    if any_interested(before.peers) {
        let round = (before.round + 1) as u32;
        let optimism = is_multiple(round, before.optimistic_interval);
        let slots = regular_slots(
            before.max_unchoked,
            slot_kept(before),
        );
        let top = choose|top: Seq<int>|
            {
                &&& is_top_selection(before.peers, top, slots)
                &&& if optimism && exists|j: int|
                    0 <= j < before.peers.len() && before.peers[j].is_interested && !top.contains(j) {
                    exists|j: int|
                        0 <= j < before.peers.len() && before.peers[j].is_interested && !top.contains(j)
                            && after.optimistic_peer == Some(before.peers[j].node_id)
                } else {
                    after.optimistic_peer == before.optimistic_peer
                }
                &&& after.peers == trackers_after_round(
                    before.peers,
                    top,
                    after.optimistic_peer,
                )
            };
        assert(after.peers == trackers_after_round(
            before.peers,
            top,
            after.optimistic_peer,
        ));
    }
}

/// The log lines of a round are exactly the changes: a line is logged when
/// some tracker went from choked to unchoked (its UNCHOKED line) or from
/// unchoked to choked (its CHOKED line), and only then.
proof fn lemma_round_lines_contains(
    before: Seq<PeerTrackerView>,
    after: Seq<PeerTrackerView>,
    round: u32,
    line: Seq<char>,
)
    requires
        before.len() == after.len(),
    ensures
        round_lines(before, after, round).contains(line) <==> exists|i: int|
            0 <= i < before.len() && #[trigger] logged_change(before[i], after[i], round) == Some(line),
    decreases before.len(),
{
    if before.len() > 0 {
        let b0 = before.drop_last();
        let a0 = after.drop_last();
        let n = before.len() - 1;
        lemma_round_lines_contains(b0, a0, round, line);
        let rest = round_lines(b0, a0, round);
        let lines = round_lines(before, after, round);
        if exists|i: int| 0 <= i < before.len() && #[trigger] logged_change(before[i], after[i], round) == Some(line) {
            let i = choose|i: int| 0 <= i < before.len() && #[trigger] logged_change(before[i], after[i], round) == Some(line);
            if i < n {
                assert(b0[i] == before[i] && a0[i] == after[i]);
                assert(logged_change(b0[i], a0[i], round) == Some(line));
                let k = choose|k: int| 0 <= k < rest.len() && rest[k] == line;
                assert(lines[k] == line);
            } else {
                assert(lines[rest.len() as int] == line);
            }
        }
        if lines.contains(line) {
            let k = choose|k: int| 0 <= k < lines.len() && lines[k] == line;
            if k < rest.len() {
                assert(rest[k] == line);
                let i = choose|i: int| 0 <= i < b0.len() && #[trigger] logged_change(b0[i], a0[i], round) == Some(line);
                assert(b0[i] == before[i] && a0[i] == after[i]);
            } else {
                assert(logged_change(before[n], after[n], round) == Some(line));
            }
        }
    }
}

/// No digit of a decimal numeral is a space.
proof fn lemma_decimal_has_no_space(n: nat)
    ensures
        forall|i: int| 0 <= i < decimal(n).len() ==> decimal(n)[i] != ' ',
    decreases n,
{
    if n >= 10 {
        lemma_decimal_has_no_space(n / 10);
        assert forall|i: int| 0 <= i < decimal(n).len() implies decimal(n)[i] != ' ' by {
            if i < decimal(n / 10).len() {
                assert(decimal(n)[i] == decimal(n / 10)[i]);
            }
        }
    }
}

/// The end of a round's log line, after the peer's identifier.
spec fn line_tail(contributed: u32) -> Seq<char> {
    " (contributed="@ + decimal(contributed as nat) + ")"@
}

/// The end of a log line starts with its only space.
proof fn lemma_line_tail_space(contributed: u32)
    ensures
        line_tail(contributed).len() > 0,
        line_tail(contributed)[0] == ' ',
        forall|k: int| 0 < k < line_tail(contributed).len() ==> line_tail(contributed)[k] != ' ',
{
    reveal_strlit(" (contributed=");
    reveal_strlit(")");
    let a = " (contributed="@;
    let d = decimal(contributed as nat);
    lemma_decimal_has_no_space(contributed as nat);
    let t = line_tail(contributed);
    assert forall|k: int| 0 < k < t.len() implies t[k] != ' ' by {
        if k < a.len() {
            assert(t[k] == a[k]);
        } else if k < a.len() + d.len() {
            assert(t[k] == d[k - a.len()]);
        } else {
            assert(t[k] == ")"@[k - a.len() - d.len()]);
        }
    }
}

/// Two log lines with the same beginning and the same shape of end name the
/// same peer.
proof fn lemma_line_names_one_peer(h: Seq<char>, p: Seq<char>, q: Seq<char>, c: u32, d: u32)
    requires
        h + p + line_tail(c) == h + q + line_tail(d),
    ensures
        p == q,
{
    lemma_line_tail_space(c);
    lemma_line_tail_space(d);
    let x = h + p + line_tail(c);
    let y = h + q + line_tail(d);
    assert(x.len() == y.len());
    if p.len() < q.len() {
        let k = (q.len() - p.len()) as int;
        let at = (h.len() + q.len()) as int;
        assert(y[at] == line_tail(d)[0]);
        assert(x[at] == line_tail(c)[k]);
    } else if q.len() < p.len() {
        let k = (p.len() - q.len()) as int;
        let at = (h.len() + p.len()) as int;
        assert(x[at] == line_tail(c)[0]);
        assert(y[at] == line_tail(d)[k]);
    } else {
        assert forall|i: int| 0 <= i < p.len() implies p[i] == q[i] by {
            assert(x[h.len() + i] == p[i]);
            assert(y[h.len() + i] == q[i]);
        }
        assert(p =~= q);
    }
}

/// Log lines of one round are told apart by what they say: an UNCHOKED
/// line is never a CHOKED line, and each names one peer.
proof fn lemma_round_line_parts(round: u32, p: Seq<char>, c: u32, q: Seq<char>, d: u32)
    ensures
        unchoke_line(round, p, c) != choke_line(round, q, d),
        unchoke_line(round, p, c) == unchoke_line(round, q, d) ==> p == q,
        choke_line(round, p, c) == choke_line(round, q, d) ==> p == q,
{
    reveal_strlit("  Round ");
    reveal_strlit(": UNCHOKED ");
    reveal_strlit(": CHOKED ");
    let r = decimal(round as nat);
    let hu = "  Round "@ + r + ": UNCHOKED "@;
    let hc = "  Round "@ + r + ": CHOKED "@;
    assert(unchoke_line(round, p, c) =~= hu + p + line_tail(c));
    assert(unchoke_line(round, q, d) =~= hu + q + line_tail(d));
    assert(choke_line(round, p, c) =~= hc + p + line_tail(c));
    assert(choke_line(round, q, d) =~= hc + q + line_tail(d));
    let at = (8 + r.len() + 2) as int;
    assert((hu + p + line_tail(c))[at] == 'U');
    assert((hc + q + line_tail(d))[at] == 'C');
    if unchoke_line(round, p, c) == unchoke_line(round, q, d) {
        lemma_line_names_one_peer(hu, p, q, c, d);
    }
    if choke_line(round, p, c) == choke_line(round, q, d) {
        lemma_line_names_one_peer(hc, p, q, c, d);
    }
}

/// When the trackers after a round have distinct identifiers, no line of
/// the round's log is written twice.
proof fn lemma_round_lines_distinct(
    before: Seq<PeerTrackerView>,
    after: Seq<PeerTrackerView>,
    round: u32,
)
    requires
        before.len() == after.len(),
        distinct_trackers(after),
    ensures
        round_lines(before, after, round).no_duplicates(),
    decreases before.len(),
{
    if before.len() > 0 {
        let b0 = before.drop_last();
        let a0 = after.drop_last();
        let n = before.len() - 1;
        assert(distinct_trackers(a0)) by {
            assert forall|i: int, j: int|
                0 <= i < a0.len() && 0 <= j < a0.len() && i != j implies a0[i].node_id
                != a0[j].node_id by {
                assert(a0[i] == after[i] && a0[j] == after[j]);
            }
        }
        lemma_round_lines_distinct(b0, a0, round);
        let rest = round_lines(b0, a0, round);
        if let Some(line) = logged_change(before[n], after[n], round) {
            lemma_round_lines_contains(b0, a0, round, line);
            if rest.contains(line) {
                let i = choose|i: int| 0 <= i < b0.len() && #[trigger] logged_change(b0[i], a0[i], round) == Some(line);
                assert(b0[i] == before[i] && a0[i] == after[i]);
                let (p, cp) = (after[i].node_id, after[i].contributed);
                let (q, cq) = (after[n].node_id, after[n].contributed);
                lemma_round_line_parts(round, p, cp, q, cq);
                lemma_round_line_parts(round, q, cq, p, cp);
                assert(after[i].node_id != after[n].node_id);
            }
            assert(round_lines(before, after, round) == rest.push(line));
            let q = rest.push(line);
            assert forall|x: int, y: int| 0 <= x < q.len() && 0 <= y < q.len() && x != y implies q[x]
                != q[y] by {
                if x == rest.len() {
                    assert(rest[y] == q[y]);
                } else if y == rest.len() {
                    assert(rest[x] == q[x]);
                }
            }
        } else {
            assert(round_lines(before, after, round) == rest);
        }
    }
}

/// A choking round logs, for each peer that it unchoked (unchoked now but
/// not before), that peer's UNCHOKED line with its contribution; for each
/// peer that it choked (unchoked before but not now), its CHOKED line; no
/// other line; and no line twice, so exactly one line per changed peer.
pub proof fn lemma_round_log_is_the_change(
    before: &ChokingNode,
    after: ChokingView,
    p: Seq<char>,
    line: Seq<char>,
)
    requires
        before.wf(),
        choking_round_result(before@, after),
    ensures
        ({
            let round = (before@.round + 1) as u32;
            let lines = round_lines(before@.peers, after.peers, round);
            let was = tracker_ids_where(before@.peers, unchoked());
            let now = tracker_ids_where(after.peers, unchoked());
            &&& now.contains(p) && !was.contains(p) ==> exists|i: int|
                0 <= i < after.peers.len() && after.peers[i].node_id == p && lines.contains(
                    #[trigger] unchoke_line(round, p, after.peers[i].contributed),
                )
            &&& was.contains(p) && !now.contains(p) ==> exists|i: int|
                0 <= i < after.peers.len() && after.peers[i].node_id == p && lines.contains(
                    #[trigger] choke_line(round, p, after.peers[i].contributed),
                )
            &&& lines.contains(line) ==> exists|q: Seq<char>, c: u32|
                #![trigger unchoke_line(round, q, c)]
                #![trigger choke_line(round, q, c)]
                (now.contains(q) && !was.contains(q) && line == unchoke_line(round, q, c)) || (
                was.contains(q) && !now.contains(q) && line == choke_line(round, q, c))
            &&& lines.no_duplicates()
        }),
{
    let round = (before@.round + 1) as u32;
    let b = before@.peers;
    let a = after.peers;
    lemma_round_keeps_ids(before@, after);
    assert(distinct_trackers(a)) by {
        assert forall|i: int, j: int|
            0 <= i < a.len() && 0 <= j < a.len() && i != j implies a[i].node_id != a[j].node_id by {
            assert(a[i].node_id == b[i].node_id && a[j].node_id == b[j].node_id);
        }
    }
    lemma_round_lines_distinct(b, a, round);
    let was = tracker_ids_where(b, unchoked());
    let now = tracker_ids_where(a, unchoked());
    lemma_tracker_ids_contains(b, unchoked(), p);
    lemma_tracker_ids_contains(a, unchoked(), p);
    if now.contains(p) && !was.contains(p) {
        let i = choose|i: int| 0 <= i < a.len() && a[i].node_id == p && unchoked()(a[i]);
        assert(b[i].node_id == p);
        assert(b[i].is_choked);
        lemma_round_lines_contains(b, a, round, unchoke_line(round, p, a[i].contributed));
        assert(logged_change(b[i], a[i], round) == Some(unchoke_line(round, p, a[i].contributed)));
    }
    if was.contains(p) && !now.contains(p) {
        let i = choose|i: int| 0 <= i < b.len() && b[i].node_id == p && unchoked()(b[i]);
        assert(a[i].node_id == p);
        assert(a[i].is_choked);
        lemma_round_lines_contains(b, a, round, choke_line(round, p, a[i].contributed));
        assert(logged_change(b[i], a[i], round) == Some(choke_line(round, p, a[i].contributed)));
    }
    lemma_round_lines_contains(b, a, round, line);
    if round_lines(b, a, round).contains(line) {
        let i = choose|i: int| 0 <= i < b.len() && #[trigger] logged_change(b[i], a[i], round) == Some(line);
        let q = a[i].node_id;
        assert(b[i].node_id == q);
        lemma_tracker_ids_contains(b, unchoked(), q);
        lemma_tracker_ids_contains(a, unchoked(), q);
        assert forall|j: int| 0 <= j < b.len() && b[j].node_id == q implies j == i by {
            assert(distinct_trackers(b));
        }
        assert forall|j: int| 0 <= j < a.len() && a[j].node_id == q implies j == i by {
            assert(b[j].node_id == a[j].node_id);
        }
        if b[i].is_choked && !a[i].is_choked {
            assert(now.contains(q) && !was.contains(q) && line == unchoke_line(round, q, a[i].contributed));
        } else {
            assert(was.contains(q) && !now.contains(q) && line == choke_line(round, q, a[i].contributed));
        }
    }
}

/// Contributions add up: recording `first` and then `second` units from a
/// tracked peer raises its contribution by `first` and then by `second`,
/// touching nothing else of it and no other tracker.
pub proof fn lemma_contributions_accumulate(c: ChokingView, id: Seq<char>, first: u32, second: u32)
    requires
        distinct_trackers(c.peers),
        tracker_index(c.peers, id) >= 0,
        c.peers[tracker_index(c.peers, id)].contributed + first + second <= u32::MAX,
    ensures
        ({
            let i = tracker_index(c.peers, id);
            let once = choking_contributed(c, id, first).peers;
            let twice = choking_contributed(choking_contributed(c, id, first), id, second).peers;
            &&& once.len() == c.peers.len() && twice.len() == c.peers.len()
            &&& once[i].contributed == c.peers[i].contributed + first
            &&& twice[i].contributed == c.peers[i].contributed + first + second
            &&& twice[i].received == c.peers[i].received
            &&& twice[i].node_id == id
            &&& twice[i].is_choked == c.peers[i].is_choked
            &&& twice[i].is_interested == c.peers[i].is_interested
            &&& forall|j: int| 0 <= j < c.peers.len() && j != i ==> twice[j] == c.peers[j]
        }),
{
    let i = tracker_index(c.peers, id);
    let once = choking_contributed(c, id, first);
    assert(c.peers[i].node_id == id);
    assert(once.peers[i].node_id == id);
    let k = tracker_index(once.peers, id);
    assert(k >= 0);
    assert(once.peers[k].node_id == id);
    if k != i {
        assert(c.peers[k].node_id == once.peers[k].node_id);
    }
}

/// Service adds up: recording that we served `first` and then `second`
/// units to a tracked peer raises what it received by `first` and then by
/// `second`, touching nothing else of it and no other tracker.
pub proof fn lemma_service_accumulates(c: ChokingView, id: Seq<char>, first: u32, second: u32)
    requires
        distinct_trackers(c.peers),
        tracker_index(c.peers, id) >= 0,
        c.peers[tracker_index(c.peers, id)].received + first + second <= u32::MAX,
    ensures
        ({
            let i = tracker_index(c.peers, id);
            let once = choking_served(c, id, first).peers;
            let twice = choking_served(choking_served(c, id, first), id, second).peers;
            &&& once.len() == c.peers.len() && twice.len() == c.peers.len()
            &&& once[i].received == c.peers[i].received + first
            &&& twice[i].received == c.peers[i].received + first + second
            &&& twice[i].contributed == c.peers[i].contributed
            &&& twice[i].node_id == id
            &&& twice[i].is_choked == c.peers[i].is_choked
            &&& twice[i].is_interested == c.peers[i].is_interested
            &&& forall|j: int| 0 <= j < c.peers.len() && j != i ==> twice[j] == c.peers[j]
        }),
{
    let i = tracker_index(c.peers, id);
    let once = choking_served(c, id, first);
    assert(c.peers[i].node_id == id);
    assert(once.peers[i].node_id == id);
    let k = tracker_index(once.peers, id);
    assert(k >= 0);
    assert(once.peers[k].node_id == id);
    if k != i {
        assert(c.peers[k].node_id == once.peers[k].node_id);
    }
}

} // verus!

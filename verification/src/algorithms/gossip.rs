//! Gossip protocol: peer-list exchange and convergence.
//!
//!   1. Each node maintains a list of peers it knows about.
//!   2. Periodically, a node picks a random peer and shares its peer list.
//!   3. The receiving node merges the incoming list with its own.
//!   4. Over time, all nodes converge to a complete view of the network.

use vstd::prelude::*;

use crate::algorithms::choking::choose_index;
use crate::node::Id;
use crate::protocol::{peers_view, Peer, PeerView};
use crate::text::{push_signed_decimal, signed_decimal};

verus! {

/// The number of rounds a peer stays known without being mentioned.
pub const PEER_TIME_TO_LIVE: i8 = 5;

/// A single known peer in the gossip table.
#[derive(Debug)]
pub struct PeerEntry {
    node_id: Id,
    queue_url: String,
    time_to_live: i8,
}

/// The plain values a `PeerEntry` holds.
pub struct PeerEntryView {
    pub node_id: Seq<char>,
    pub queue_url: Seq<char>,
    pub time_to_live: i8,
}

impl View for PeerEntry {
    type V = PeerEntryView;

    closed spec fn view(&self) -> PeerEntryView {
        PeerEntryView {
            node_id: self.node_id@,
            queue_url: self.queue_url@,
            time_to_live: self.time_to_live,
        }
    }
}

/// A newly learned peer, with a full time to live.
pub open spec fn fresh_entry(node_id: Seq<char>, queue_url: Seq<char>) -> PeerEntryView {
    PeerEntryView { node_id, queue_url, time_to_live: PEER_TIME_TO_LIVE }
}

/// How an entry is printed: `PeerEntry(<id>, ttl=<rounds>)`.
pub open spec fn entry_text(e: PeerEntryView) -> Seq<char> {
    "PeerEntry("@ + e.node_id + ", ttl="@ + signed_decimal(e.time_to_live as int) + ")"@
}

impl PeerEntry {
    /// The entry as it is printed.
    pub fn describe(&self) -> (r: String)
        ensures
            r@ == entry_text(self@),
    {
        let mut s = String::new();
        s.append("PeerEntry(");
        s.append(self.node_id.as_str());
        s.append(", ttl=");
        push_signed_decimal(&mut s, self.time_to_live as i64);
        s.append(")");
        s
    }

    /// A newly learned peer, with a full time to live.
    pub fn new(node_id: Id, queue_url: String) -> (r: PeerEntry)
        ensures
            r@ == fresh_entry(node_id@, queue_url@),
    {
        PeerEntry { node_id, queue_url, time_to_live: PEER_TIME_TO_LIVE }
    }

    /// Mutable access to the rounds left until the entry expires.
    pub fn time_to_live_mut(&mut self) -> (r: &mut i8)
        ensures
            *r == old(self)@.time_to_live,
            final(self)@ == (PeerEntryView { time_to_live: *final(r), ..old(self)@ }),
    {
        &mut self.time_to_live
    }

    /// The rounds left until the entry expires.
    pub fn time_to_live(&self) -> (r: i8)
        ensures
            r == self@.time_to_live,
    {
        self.time_to_live
    }

    /// The peer's queue URL.
    pub fn queue_url(&self) -> (r: &str)
        ensures
            r@ == self@.queue_url,
    {
        self.queue_url.as_str()
    }

    /// The peer's identifier.
    pub fn node_id(&self) -> (r: &Id)
        ensures
            r@ == self@.node_id,
    {
        &self.node_id
    }

    fn is_expired(&self) -> (r: bool)
        ensures
            r == (self@.time_to_live <= 0),
    {
        self.time_to_live <= 0
    }
}

/// The identifiers of a gossip table, in table order.
pub open spec fn entry_ids(peers: Seq<PeerEntryView>) -> Seq<Seq<char>> {
    peers.map_values(|e: PeerEntryView| e.node_id)
}

/// The position of the entry with identifier `id`, or -1.
pub open spec fn entry_index(peers: Seq<PeerEntryView>, id: Seq<char>) -> int {
    if exists|i: int| 0 <= i < peers.len() && peers[i].node_id == id {
        choose|i: int| 0 <= i < peers.len() && peers[i].node_id == id
    } else {
        -1
    }
}

/// No two entries share an identifier.
pub open spec fn distinct_entries(peers: Seq<PeerEntryView>) -> bool {
    forall|i: int, j: int|
        0 <= i < peers.len() && 0 <= j < peers.len() && i != j ==> peers[i].node_id
            != peers[j].node_id
}

/// A well-formed table: identifiers are distinct, the node does not list
/// itself, and every entry has rounds left to live.
pub open spec fn table_ok(peers: Seq<PeerEntryView>, self_id: Seq<char>) -> bool {
    &&& distinct_entries(peers)
    &&& forall|i: int| 0 <= i < peers.len() ==> peers[i].node_id != self_id
    &&& forall|i: int| 0 <= i < peers.len() ==> peers[i].time_to_live > 0
}

/// Some peer of an incoming list, other than the node itself, has
/// identifier `id`.
pub open spec fn mentions(incoming: Seq<PeerView>, id: Seq<char>, self_id: Seq<char>) -> bool {
    id != self_id && exists|j: int| 0 <= j < incoming.len() && #[trigger] incoming[j].node_id == id
}

/// One incoming peer merged into the table: our own identifier is skipped; a
/// known peer gets a full time to live again; an unknown peer is added with a
/// full time to live and counted as new.
pub open spec fn merge_one(
    acc: (Seq<PeerEntryView>, nat),
    incoming: PeerView,
    self_id: Seq<char>,
) -> (Seq<PeerEntryView>, nat) {
    let (peers, new_count) = acc;
    if incoming.node_id == self_id {
        acc
    } else if entry_index(peers, incoming.node_id) >= 0 {
        let i = entry_index(peers, incoming.node_id);
        (peers.update(i, PeerEntryView { time_to_live: PEER_TIME_TO_LIVE, ..peers[i] }), new_count)
    } else {
        (peers.push(fresh_entry(incoming.node_id, incoming.queue_url)), new_count + 1)
    }
}

/// An incoming peer list merged into the table, one entry after the other:
/// the new table and the number of peers it did not hold before.
pub open spec fn merge_peer_list(
    peers: Seq<PeerEntryView>,
    incoming: Seq<PeerView>,
    self_id: Seq<char>,
) -> (Seq<PeerEntryView>, nat)
    decreases incoming.len(),
{
    if incoming.len() == 0 {
        (peers, 0)
    } else {
        merge_one(merge_peer_list(peers, incoming.drop_last(), self_id), incoming.last(), self_id)
    }
}

/// The table after one round of aging: every time to live drops by one and
/// the entries that reach zero are removed; the rest keep their order.
pub open spec fn aged(peers: Seq<PeerEntryView>) -> Seq<PeerEntryView>
    decreases peers.len(),
{
    if peers.len() == 0 {
        Seq::empty()
    } else {
        let rest = aged(peers.drop_last());
        let e = peers.last();
        if e.time_to_live - 1 > 0 {
            rest.push(PeerEntryView { time_to_live: (e.time_to_live - 1) as i8, ..e })
        } else {
            rest
        }
    }
}

/// How a table entry is advertised: its identifier and queue URL.
pub open spec fn entry_as_peer(e: PeerEntryView) -> PeerView {
    PeerView { node_id: e.node_id, queue_url: e.queue_url }
}

/// The peers a table advertises: every entry, then the node itself.
pub open spec fn advertised(peers: Seq<PeerEntryView>, self_id: Seq<char>, self_url: Seq<char>) -> Seq<
    PeerView,
> {
    peers.map_values(|e: PeerEntryView| entry_as_peer(e)).push(
        PeerView { node_id: self_id, queue_url: self_url },
    )
}

/// The plain values a `GossipNode` holds.
pub struct GossipView {
    pub node_id: Seq<char>,
    pub queue_url: Seq<char>,
    pub peers: Seq<PeerEntryView>,
    pub log: Seq<Seq<char>>,
}

/// A node that participates in gossip-based peer discovery.
#[derive(Debug)]
pub struct GossipNode {
    node_id: Id,
    queue_url: String,
    peers: Vec<PeerEntry>,
    log: Vec<String>,
}

impl View for GossipNode {
    type V = GossipView;

    closed spec fn view(&self) -> GossipView {
        GossipView {
            node_id: self.node_id@,
            queue_url: self.queue_url@,
            peers: self.peers@.map_values(|e: PeerEntry| e@),
            log: self.log@.map_values(|s: String| s@),
        }
    }
}

/// The table after a peer is added or refreshed at bootstrap or from a
/// HELLO: a new peer joins with a full time to live, a known peer gets a
/// full time to live again (keeping its URL), and the node itself is left
/// out.
pub open spec fn gossip_added(g: GossipView, id: Seq<char>, url: Seq<char>) -> GossipView {
    if id == g.node_id {
        g
    } else if entry_index(g.peers, id) >= 0 {
        gossip_refreshed(g, id)
    } else {
        GossipView { peers: g.peers.push(fresh_entry(id, url)), ..g }
    }
}

/// The table after a message from `id`: a known peer gets a full time to
/// live again.
pub open spec fn gossip_refreshed(g: GossipView, id: Seq<char>) -> GossipView {
    let i = entry_index(g.peers, id);
    if i < 0 {
        g
    } else {
        GossipView {
            peers: g.peers.update(i, PeerEntryView { time_to_live: PEER_TIME_TO_LIVE, ..g.peers[i] }),
            ..g
        }
    }
}

proof fn lemma_entry_index(peers: Seq<PeerEntryView>, id: Seq<char>, i: int)
    requires
        distinct_entries(peers),
        0 <= i < peers.len(),
        peers[i].node_id == id,
    ensures
        entry_index(peers, id) == i,
{
}

/// The plain values of the entries of a table.
pub open spec fn entries_view(peers: Seq<PeerEntry>) -> Seq<PeerEntryView> {
    peers.map_values(|e: PeerEntry| e@)
}

impl GossipNode {
    /// Identifiers are distinct, the node does not list itself, and every
    /// entry has rounds left to live.
    pub open spec fn wf(&self) -> bool {
        table_ok(self@.peers, self@.node_id)
    }

    /// A node that knows no peer yet.
    pub fn new(node_id: Id, queue_url: String) -> (r: GossipNode)
        ensures
            r.wf(),
            r@.node_id == node_id@,
            r@.queue_url == queue_url@,
            r@.peers == Seq::<PeerEntryView>::empty(),
            r@.log == Seq::<Seq<char>>::empty(),
    {
        let r = GossipNode { node_id, queue_url, peers: Vec::new(), log: Vec::new() };
        assert(r@.peers =~= Seq::<PeerEntryView>::empty());
        assert(r@.log =~= Seq::<Seq<char>>::empty());
        r
    }

    /// The node's own identifier.
    pub fn node_id(&self) -> (r: &Id)
        ensures
            r@ == self@.node_id,
    {
        &self.node_id
    }

    /// The known peers, in table order.
    pub fn peers(&self) -> (r: &Vec<PeerEntry>)
        ensures
            entries_view(r@) == self@.peers,
    {
        &self.peers
    }

    /// Mutable access to the known peers. The caller must keep identifiers
    /// distinct, leave the node itself out and keep every time to live
    /// positive, for `wf` to hold again.
    pub fn peers_mut(&mut self) -> (r: &mut Vec<PeerEntry>)
        ensures
            entries_view(r@) == old(self)@.peers,
            final(self)@ == (GossipView { peers: entries_view(final(r)@), ..old(self)@ }),
    {
        &mut self.peers
    }

    fn position(&self, id: &Id) -> (r: Option<usize>)
        requires
            self.wf(),
        ensures
            match r {
                Some(i) => i < self@.peers.len() && self@.peers[i as int].node_id == id@
                    && entry_index(self@.peers, id@) == i,
                None => entry_index(self@.peers, id@) == -1,
            },
    {
        let mut i: usize = 0;
        while i < self.peers.len()
            invariant
                i <= self.peers@.len(),
                self.wf(),
                forall|j: int| 0 <= j < i ==> self@.peers[j].node_id != id@,
            decreases self.peers@.len() - i,
        {
            if self.peers[i].node_id == *id {
                proof {
                    lemma_entry_index(self@.peers, id@, i as int);
                }
                return Some(i);
            }
            i = i + 1;
        }
        None
    }

    /// Adds or refreshes a peer learned at bootstrap or from a HELLO: a new
    /// peer joins with a full time to live, a known one gets a full time to
    /// live again. The node itself is left out.
    pub fn add_peer(&mut self, node_id: Id, queue_url: String)
        requires
            old(self).wf(),
        ensures
            final(self).wf(),
            final(self)@ == gossip_added(old(self)@, node_id@, queue_url@),
    {
        if self.node_id != node_id {
            match self.position(&node_id) {
                Some(_) => {
                    self.refresh_peer(&node_id);
                },
                None => {
                    let ghost id = node_id@;
                    let ghost url = queue_url@;
                    self.peers.push(PeerEntry::new(node_id, queue_url));
                    assert(self@.peers =~= old(self)@.peers.push(fresh_entry(id, url)));
                },
            }
        }
    }

    /// Gives a known peer a full time to live again (it was just heard
    /// from); an unknown peer changes nothing.
    pub fn refresh_peer(&mut self, node_id: &Id)
        requires
            old(self).wf(),
        ensures
            final(self).wf(),
            final(self)@ == gossip_refreshed(old(self)@, node_id@),
    {
        match self.position(node_id) {
            None => {},
            Some(i) => {
                let ghost before = self.peers@;
                self.peers[i].time_to_live = PEER_TIME_TO_LIVE;
                assert forall|j: int| 0 <= j < self.peers@.len() && j != i implies self@.peers[j]
                    == entries_view(before)[j] by {
                    assert(self.peers@[j] == before[j]);
                }
                assert(self@.peers =~= entries_view(before).update(
                    i as int,
                    PeerEntryView { time_to_live: PEER_TIME_TO_LIVE, ..entries_view(before)[i as int] },
                ));
            },
        }
    }

    /// The PEER_LIST payload: every known peer with its queue URL, in table
    /// order, then the node itself so that receivers learn its URL. Only live
    /// peers are listed: a well-formed table holds no entry whose time to
    /// live has run out (expired entries leave it when their time to live is
    /// counted down to zero).
    pub fn get_peer_list_message(&self) -> (r: Vec<Peer>)
        requires
            self.wf(),
        ensures
            peers_view(r@) == advertised(self@.peers, self@.node_id, self@.queue_url),
            forall|i: int|
                0 <= i < r@.len() - 1 ==> #[trigger] r@[i]@.node_id == self@.peers[i].node_id
                    && self@.peers[i].time_to_live > 0,
    {
        let mut entries: Vec<Peer> = Vec::new();
        let mut i: usize = 0;
        while i < self.peers.len()
            invariant
                i <= self.peers@.len(),
                entries@.len() == i,
                forall|j: int| 0 <= j < i ==> #[trigger] entries@[j]@ == entry_as_peer(self@.peers[j]),
            decreases self.peers@.len() - i,
        {
            let peer = Peer {
                node_id: self.peers[i].node_id.clone(),
                queue_url: self.peers[i].queue_url.clone(),
            };
            assert(self@.peers[i as int] == self.peers@[i as int]@);
            entries.push(peer);
            i = i + 1;
        }
        let our_node = Peer { node_id: self.node_id.clone(), queue_url: self.queue_url.clone() };
        entries.push(our_node);
        assert(peers_view(entries@) =~= advertised(self@.peers, self@.node_id, self@.queue_url));
        entries
    }

    /// How many peers of `incoming` are new to the table (the node itself
    /// and repeats not counted): what merging it would return.
    pub fn new_peer_count(&self, incoming: &[Peer]) -> (r: u64)
        requires
            self.wf(),
        ensures
            r == merge_peer_list(self@.peers, peers_view(incoming@), self@.node_id).1,
    {
        let ghost inc = peers_view(incoming@);
        let ghost self_id = self@.node_id;
        let ghost peers = self@.peers;
        let mut known: Vec<Id> = Vec::new();
        let mut i: usize = 0;
        while i < self.peers.len()
            invariant
                i <= self.peers@.len(),
                peers == self@.peers,
                known@.len() == i,
                forall|j: int| 0 <= j < i ==> #[trigger] known@[j]@ == peers[j].node_id,
            decreases self.peers@.len() - i,
        {
            assert(peers[i as int] == self.peers@[i as int]@);
            known.push(self.peers[i].node_id.clone());
            i = i + 1;
        }
        assert(inc.take(0) =~= Seq::<PeerView>::empty());
        let mut count: u64 = 0;
        let mut k: usize = 0;
        while k < incoming.len()
            invariant
                k <= incoming@.len(),
                inc == peers_view(incoming@),
                self_id == self@.node_id,
                ({
                    let m = merge_peer_list(peers, inc.take(k as int), self_id);
                    &&& known@.len() == m.0.len()
                    &&& forall|j: int| 0 <= j < known@.len() ==> #[trigger] known@[j]@ == m.0[j].node_id
                    &&& count == m.1
                }),
                count <= k,
            decreases incoming@.len() - k,
        {
            let ghost prev = merge_peer_list(peers, inc.take(k as int), self_id);
            assert(inc.take(k as int + 1).drop_last() =~= inc.take(k as int));
            assert(inc[k as int] == incoming@[k as int]@);
            let p = &incoming[k];
            if p.node_id != self.node_id {
                let mut found = false;
                let mut j: usize = 0;
                while j < known.len()
                    invariant
                        j <= known@.len(),
                        found <==> exists|q: int| 0 <= q < j && known@[q]@ == p.node_id@,
                    decreases known@.len() - j,
                {
                    if known[j] == p.node_id {
                        found = true;
                    }
                    j = j + 1;
                }
                proof {
                    if found {
                        let q = choose|q: int| 0 <= q < j && known@[q]@ == p.node_id@;
                        assert(prev.0[q].node_id == p.node_id@);
                    } else {
                        assert forall|q: int| 0 <= q < prev.0.len() implies prev.0[q].node_id != p.node_id@ by {
                            assert(known@[q]@ == prev.0[q].node_id);
                        }
                    }
                }
                if !found {
                    known.push(p.node_id.clone());
                    count = count + 1;
                } else {
                    let ghost i = entry_index(prev.0, p.node_id@);
                    assert forall|q: int| 0 <= q < known@.len() implies #[trigger] known@[q]@ == prev.0.update(
                        i,
                        PeerEntryView { time_to_live: PEER_TIME_TO_LIVE, ..prev.0[i] },
                    )[q].node_id by {}
                }
            }
            k = k + 1;
        }
        assert(inc.take(incoming@.len() as int) =~= inc);
        count
    }

    /// Merges an incoming peer list into the table, entry after entry: a
    /// peer not yet known is added with a full time to live, a known peer
    /// gets a full time to live again, and the node itself is skipped.
    /// Returns how many peers were new.
    pub fn receive_peer_list(&mut self, incoming: &[Peer], sender_id: &Id) -> (r: u8)
        requires
            old(self).wf(),
            merge_peer_list(
                old(self)@.peers,
                peers_view(incoming@),
                old(self)@.node_id,
            ).1 <= u8::MAX,
        ensures
            final(self).wf(),
            ({
                let merged = merge_peer_list(
                    old(self)@.peers,
                    peers_view(incoming@),
                    old(self)@.node_id,
                );
                &&& final(self)@ == (GossipView { peers: merged.0, ..old(self)@ })
                &&& r == merged.1
            }),
    {
        let ghost inc = peers_view(incoming@);
        let ghost self_id = self@.node_id;
        let mut new_count: u8 = 0;
        let mut k: usize = 0;
        proof {
            lemma_merge_count_monotone(self@.peers, inc, self_id, 0);
        }
        while k < incoming.len()
            invariant
                k <= incoming@.len(),
                inc == peers_view(incoming@),
                self_id == self@.node_id,
                self@.node_id == old(self)@.node_id,
                self@.queue_url == old(self)@.queue_url,
                self@.log == old(self)@.log,
                self.wf(),
                merge_peer_list(old(self)@.peers, inc.take(k as int), self_id) == (
                    self@.peers,
                    new_count as nat,
                ),
                merge_peer_list(old(self)@.peers, inc, self_id).1 <= u8::MAX,
            decreases incoming@.len() - k,
        {
            assert(inc.take(k as int + 1).drop_last() =~= inc.take(k as int));
            proof {
                lemma_merge_count_monotone(old(self)@.peers, inc, self_id, k as int + 1);
            }
            let entry = &incoming[k];
            if entry.node_id != self.node_id {
                match self.position(&entry.node_id) {
                    Some(i) => {
                        let ghost before = self.peers@;
                        self.peers[i].time_to_live = PEER_TIME_TO_LIVE;
                        assert forall|j: int| 0 <= j < self.peers@.len() && j != i implies self@.peers[j]
                            == entries_view(before)[j] by {
                            assert(self.peers@[j] == before[j]);
                        }
                        assert(self@.peers =~= entries_view(before).update(
                            i as int,
                            PeerEntryView {
                                time_to_live: PEER_TIME_TO_LIVE,
                                ..entries_view(before)[i as int]
                            },
                        ));
                    },
                    None => {
                        let fresh = PeerEntry::new(entry.node_id.clone(), entry.queue_url.clone());
                        let ghost before = self@.peers;
                        self.peers.push(fresh);
                        assert(self@.peers =~= before.push(fresh@));
                        new_count = new_count + 1;
                    },
                }
            }
            k = k + 1;
        }
        assert(inc.take(incoming@.len() as int) =~= inc);
        new_count
    }

    /// One round of aging: every time to live drops by one and the entries
    /// that reach zero are removed.
    pub fn age_entries(&mut self)
        requires
            old(self).wf(),
        ensures
            final(self).wf(),
            final(self)@ == (GossipView { peers: aged(old(self)@.peers), ..old(self)@ }),
    {
        let ghost old_peers = self@.peers;
        let mut kept: Vec<PeerEntry> = Vec::new();
        let mut rest: Vec<PeerEntry> = Vec::new();
        std::mem::swap(&mut rest, &mut self.peers);
        let n = rest.len();
        let mut i: usize = 0;
        while i < n
            invariant
                n == rest@.len(),
                entries_view(rest@) == old_peers,
                i <= n,
                entries_view(kept@) == aged(old_peers.take(i as int)),
                forall|j: int| 0 <= j < old_peers.len() ==> old_peers[j].time_to_live > 0,
            decreases n - i,
        {
            assert(old_peers.take(i as int + 1).drop_last() =~= old_peers.take(i as int));
            assert(old_peers[i as int] == rest@[i as int]@);
            let ttl: i8 = rest[i].time_to_live - 1;
            if ttl > 0 {
                let e = PeerEntry {
                    node_id: rest[i].node_id.clone(),
                    queue_url: rest[i].queue_url.clone(),
                    time_to_live: ttl,
                };
                kept.push(e);
                assert(entries_view(kept@) =~= aged(old_peers.take(i as int)).push(e@));
            }
            i = i + 1;
        }
        assert(old_peers.take(n as int) =~= old_peers);
        proof {
            lemma_aged_keeps(old_peers);
            lemma_aged_step(old_peers);
        }
        self.peers = kept;
    }

    /// Picks a random known peer to send a PEER_LIST to; `None` when no
    /// peer is known.
    pub fn pick_gossip_target(&self) -> (r: Option<Id>)
        ensures
            r is None <==> self@.peers.len() == 0,
            r matches Some(id) ==> entry_ids(self@.peers).contains(id@),
    {
        if self.peers.len() == 0 {
            return None;
        }
        let mut indices: Vec<usize> = Vec::new();
        let mut i: usize = 0;
        while i < self.peers.len()
            invariant
                i <= self.peers@.len(),
                indices@.len() == i,
                forall|k: int| 0 <= k < i ==> indices@[k] == k,
            decreases self.peers@.len() - i,
        {
            indices.push(i);
            i = i + 1;
        }
        match choose_index(&indices) {
            Some(c) => {
                proof {
                    let k = choose|k: int| 0 <= k < indices@.len() && indices@[k] == c;
                    assert(c < self@.peers.len());
                }
                let id = self.peers[c].node_id.clone();
                assert(entry_ids(self@.peers)[c as int] == id@);
                Some(id)
            },
            None => None,
        }
    }

    /// The number of known peers.
    pub fn known_peer_count(&self) -> (r: usize)
        ensures
            r == self@.peers.len(),
    {
        self.peers.len()
    }
}

/// Some entry of the table has identifier `id`.
pub open spec fn lists_id(peers: Seq<PeerEntryView>, id: Seq<char>) -> bool {
    exists|i: int| 0 <= i < peers.len() && #[trigger] peers[i].node_id == id
}

/// The table holds `id` with a full time to live.
pub open spec fn lists_fresh(peers: Seq<PeerEntryView>, id: Seq<char>) -> bool {
    exists|i: int|
        0 <= i < peers.len() && #[trigger] peers[i].node_id == id && peers[i].time_to_live
            == PEER_TIME_TO_LIVE
}

proof fn lemma_merge_one(acc: (Seq<PeerEntryView>, nat), incoming: PeerView, self_id: Seq<char>)
    requires
        table_ok(acc.0, self_id),
    ensures
        ({
            let (p, c) = merge_one(acc, incoming, self_id);
            &&& table_ok(p, self_id)
            &&& p.len() + acc.1 == acc.0.len() + c
            &&& p.len() >= acc.0.len()
            &&& forall|i: int| 0 <= i < acc.0.len() ==> #[trigger] p[i].node_id == acc.0[i].node_id
                && p[i].queue_url == acc.0[i].queue_url
            &&& forall|i: int|
                0 <= i < acc.0.len() && acc.0[i].node_id != incoming.node_id ==> #[trigger] p[i]
                    == acc.0[i]
            &&& forall|id: Seq<char>|
                lists_id(p, id) <==> (lists_id(acc.0, id) || (id == incoming.node_id && id
                    != self_id))
            &&& incoming.node_id != self_id ==> lists_fresh(p, incoming.node_id)
            &&& forall|id: Seq<char>|
                id != incoming.node_id && lists_fresh(acc.0, id) ==> lists_fresh(p, id)
        }),
{
    let (peers, c) = acc;
    let id = incoming.node_id;
    let (p, c2) = merge_one(acc, incoming, self_id);
    if id == self_id {
    } else if entry_index(peers, id) >= 0 {
        let i = entry_index(peers, id);
        assert(peers[i].node_id == id);
        assert forall|x: Seq<char>| lists_id(p, x) <==> (lists_id(peers, x) || (x == id && x
            != self_id)) by {
            if lists_id(peers, x) {
                let k = choose|k: int| 0 <= k < peers.len() && #[trigger] peers[k].node_id == x;
                assert(p[k].node_id == x);
            }
            if lists_id(p, x) {
                let k = choose|k: int| 0 <= k < p.len() && #[trigger] p[k].node_id == x;
                assert(peers[k].node_id == x);
            }
        }
        assert(p[i].node_id == id);
        assert forall|x: Seq<char>| x != id && lists_fresh(peers, x) implies lists_fresh(p, x) by {
            let k = choose|k: int|
                0 <= k < peers.len() && #[trigger] peers[k].node_id == x && peers[k].time_to_live
                    == PEER_TIME_TO_LIVE;
            assert(p[k] == peers[k]);
        }
    } else {
        let n = peers.len() as int;
        assert(p[n].node_id == id);
        assert forall|i: int| 0 <= i < peers.len() implies p[i].node_id != id by {
            if p[i].node_id == id {
                assert(peers[i].node_id == id);
            }
        }
        assert forall|x: Seq<char>| lists_id(p, x) <==> (lists_id(peers, x) || (x == id && x
            != self_id)) by {
            if lists_id(peers, x) {
                let k = choose|k: int| 0 <= k < peers.len() && #[trigger] peers[k].node_id == x;
                assert(p[k].node_id == x);
            }
            if lists_id(p, x) {
                let k = choose|k: int| 0 <= k < p.len() && #[trigger] p[k].node_id == x;
                if k < n {
                    assert(peers[k].node_id == x);
                }
            }
        }
        assert forall|x: Seq<char>| x != id && lists_fresh(peers, x) implies lists_fresh(p, x) by {
            let k = choose|k: int|
                0 <= k < peers.len() && #[trigger] peers[k].node_id == x && peers[k].time_to_live
                    == PEER_TIME_TO_LIVE;
            assert(p[k] == peers[k]);
        }
    }
}

/// Aging keeps identifiers distinct and keeps only entries of the table.
pub proof fn lemma_aged_keeps(peers: Seq<PeerEntryView>)
    ensures
        forall|k: int| 0 <= k < aged(peers).len() ==> lists_id(peers, #[trigger] aged(peers)[k].node_id),
        distinct_entries(peers) ==> distinct_entries(aged(peers)),
    decreases peers.len(),
{
    if peers.len() > 0 {
        let rest = peers.drop_last();
        lemma_aged_keeps(rest);
        let r = aged(rest);
        let e = peers.last();
        assert forall|k: int| 0 <= k < r.len() implies lists_id(peers, #[trigger] r[k].node_id) by {
            assert(lists_id(rest, r[k].node_id));
            let i = choose|i: int| 0 <= i < rest.len() && rest[i].node_id == r[k].node_id;
            assert(peers[i] == rest[i]);
        }
        if e.time_to_live - 1 > 0 {
            let last = PeerEntryView { time_to_live: (e.time_to_live - 1) as i8, ..e };
            assert(aged(peers) == r.push(last));
            assert forall|k: int| 0 <= k < aged(peers).len() implies lists_id(
                peers,
                #[trigger] aged(peers)[k].node_id,
            ) by {
                if k == r.len() {
                    assert(aged(peers)[k] == last);
                    assert(peers[peers.len() - 1].node_id == last.node_id);
                } else {
                    assert(aged(peers)[k] == r[k]);
                }
            }
            if distinct_entries(peers) {
                assert forall|k: int| 0 <= k < r.len() implies r[k].node_id != e.node_id by {
                    assert(lists_id(rest, r[k].node_id));
                    let i = choose|i: int| 0 <= i < rest.len() && rest[i].node_id == r[k].node_id;
                    assert(peers[i] == rest[i]);
                }
            }
        }
    }
}

/// Merging an incoming peer list keeps the table well formed; afterwards
/// the table lists exactly the peers it listed before and every incoming
/// peer other than the node itself, each incoming peer with a full time to
/// live. The entries already held keep their place, identifier and URL, and
/// those not mentioned are left as they were. The count of new peers is how
/// much the table grew.
pub proof fn lemma_merge_peer_list(
    peers: Seq<PeerEntryView>,
    incoming: Seq<PeerView>,
    self_id: Seq<char>,
)
    requires
        table_ok(peers, self_id),
    ensures
        ({
            let (p, c) = merge_peer_list(peers, incoming, self_id);
            &&& table_ok(p, self_id)
            &&& p.len() == peers.len() + c
            &&& forall|i: int| 0 <= i < peers.len() ==> #[trigger] p[i].node_id == peers[i].node_id
                && p[i].queue_url == peers[i].queue_url
            &&& forall|i: int|
                0 <= i < peers.len() && !mentions(incoming, peers[i].node_id, self_id)
                    ==> #[trigger] p[i] == peers[i]
            &&& forall|id: Seq<char>|
                lists_id(p, id) <==> (lists_id(peers, id) || mentions(incoming, id, self_id))
            &&& forall|id: Seq<char>| mentions(incoming, id, self_id) ==> lists_fresh(p, id)
        }),
    decreases incoming.len(),
{
    if incoming.len() > 0 {
        let front = incoming.drop_last();
        let last = incoming.last();
        lemma_merge_peer_list(peers, front, self_id);
        let prev = merge_peer_list(peers, front, self_id);
        lemma_merge_one(prev, last, self_id);
        let (p, c) = merge_peer_list(peers, incoming, self_id);
        assert forall|id: Seq<char>| mentions(incoming, id, self_id) <==> (mentions(front, id, self_id)
            || (id == last.node_id && id != self_id)) by {
            if mentions(incoming, id, self_id) {
                let j = choose|j: int| 0 <= j < incoming.len() && #[trigger] incoming[j].node_id == id;
                if j < front.len() {
                    assert(front[j].node_id == id);
                }
            }
            if mentions(front, id, self_id) {
                let j = choose|j: int| 0 <= j < front.len() && #[trigger] front[j].node_id == id;
                assert(incoming[j].node_id == id);
            }
            if id == last.node_id && id != self_id {
                assert(incoming[incoming.len() - 1].node_id == id);
            }
        }
        assert forall|i: int|
            0 <= i < peers.len() && !mentions(incoming, peers[i].node_id, self_id) implies #[trigger] p[i]
            == peers[i] by {
            assert(prev.0[i] == peers[i]);
            assert(peers[i].node_id != self_id);
        }
        assert forall|id: Seq<char>| mentions(incoming, id, self_id) implies lists_fresh(p, id) by {
            if id != last.node_id {
                assert(mentions(front, id, self_id));
            }
        }
    } else {
        assert forall|i: int| 0 <= i < peers.len() implies #[trigger] merge_peer_list(
            peers,
            incoming,
            self_id,
        ).0[i] == peers[i] by {}
    }
}

/// What one gossip exchange achieves: once a node has merged the peer list
/// that another node advertises, it knows every peer it knew before, every
/// peer the sender knew, and the sender itself (but never itself).
pub proof fn lemma_gossip_exchange(
    sender_peers: Seq<PeerEntryView>,
    sender_id: Seq<char>,
    sender_url: Seq<char>,
    receiver_peers: Seq<PeerEntryView>,
    receiver_id: Seq<char>,
    id: Seq<char>,
)
    requires
        table_ok(receiver_peers, receiver_id),
    ensures
        ({
            let p = merge_peer_list(
                receiver_peers,
                advertised(sender_peers, sender_id, sender_url),
                receiver_id,
            ).0;
            &&& (lists_id(receiver_peers, id) || lists_id(sender_peers, id) || id == sender_id) && id
                != receiver_id ==> lists_id(p, id)
            &&& !lists_id(p, receiver_id)
        }),
{
    let adv = advertised(sender_peers, sender_id, sender_url);
    lemma_merge_peer_list(receiver_peers, adv, receiver_id);
    let p = merge_peer_list(receiver_peers, adv, receiver_id).0;
    if lists_id(sender_peers, id) && id != receiver_id {
        let i = choose|i: int| 0 <= i < sender_peers.len() && #[trigger] sender_peers[i].node_id == id;
        assert(adv[i].node_id == id);
    }
    if id == sender_id && id != receiver_id {
        assert(adv[sender_peers.len() as int].node_id == id);
    }
    if lists_id(p, receiver_id) {
        let k = choose|k: int| 0 <= k < p.len() && #[trigger] p[k].node_id == receiver_id;
    }
}

/// A node's advertised list mentions exactly the peers it knows and itself
/// (the receiver itself left out).
proof fn lemma_mentions_advertised(
    peers: Seq<PeerEntryView>,
    sender_id: Seq<char>,
    sender_url: Seq<char>,
    receiver_id: Seq<char>,
    id: Seq<char>,
)
    ensures
        mentions(advertised(peers, sender_id, sender_url), id, receiver_id) <==> (id != receiver_id
            && (lists_id(peers, id) || id == sender_id)),
{
    let adv = advertised(peers, sender_id, sender_url);
    if mentions(adv, id, receiver_id) {
        let j = choose|j: int| 0 <= j < adv.len() && #[trigger] adv[j].node_id == id;
        if j < peers.len() {
            assert(peers[j].node_id == id);
        }
    }
    if id != receiver_id && lists_id(peers, id) {
        let i = choose|i: int| 0 <= i < peers.len() && #[trigger] peers[i].node_id == id;
        assert(adv[i].node_id == id);
    }
    if id != receiver_id && id == sender_id {
        assert(adv[peers.len() as int].node_id == id);
    }
}

/// Convergence of two nodes: once `b` has merged the list `a` advertises
/// and `a` has merged the list `b` then advertises, both know of the same
/// nodes (counting themselves): every node either of them knew, and the two
/// of them.
pub proof fn lemma_pairwise_convergence(
    a_peers: Seq<PeerEntryView>,
    a_id: Seq<char>,
    a_url: Seq<char>,
    b_peers: Seq<PeerEntryView>,
    b_id: Seq<char>,
    b_url: Seq<char>,
    id: Seq<char>,
)
    requires
        table_ok(a_peers, a_id),
        table_ok(b_peers, b_id),
    ensures
        ({
            let b2 = merge_peer_list(b_peers, advertised(a_peers, a_id, a_url), b_id).0;
            let a2 = merge_peer_list(a_peers, advertised(b2, b_id, b_url), a_id).0;
            &&& (lists_id(a2, id) || id == a_id) <==> (lists_id(a_peers, id) || lists_id(b_peers, id)
                || id == a_id || id == b_id)
            &&& (lists_id(b2, id) || id == b_id) <==> (lists_id(a_peers, id) || lists_id(b_peers, id)
                || id == a_id || id == b_id)
        }),
{
    let adv_a = advertised(a_peers, a_id, a_url);
    lemma_merge_peer_list(b_peers, adv_a, b_id);
    let b2 = merge_peer_list(b_peers, adv_a, b_id).0;
    let adv_b = advertised(b2, b_id, b_url);
    lemma_merge_peer_list(a_peers, adv_b, a_id);
    lemma_mentions_advertised(a_peers, a_id, a_url, b_id, id);
    lemma_mentions_advertised(b2, b_id, b_url, a_id, id);
    if id == a_id && id != b_id {
        assert(mentions(adv_a, id, b_id));
    }
}

/// The table after `n` rounds of aging.
pub open spec fn aged_times(peers: Seq<PeerEntryView>, n: nat) -> Seq<PeerEntryView>
    decreases n,
{
    if n == 0 {
        peers
    } else {
        aged(aged_times(peers, (n - 1) as nat))
    }
}

/// `e` comes from an entry of `peers` with its identifier and `n` more
/// rounds to live.
pub open spec fn has_origin(peers: Seq<PeerEntryView>, e: PeerEntryView, n: int) -> bool {
    exists|i: int|
        0 <= i < peers.len() && #[trigger] peers[i].node_id == e.node_id && peers[i].time_to_live
            == e.time_to_live + n
}

/// `e` lives on in `later` with `n` fewer rounds to live.
pub open spec fn survives(later: Seq<PeerEntryView>, e: PeerEntryView, n: int) -> bool {
    exists|k: int|
        0 <= k < later.len() && #[trigger] later[k].node_id == e.node_id && later[k].time_to_live
            == e.time_to_live - n
}

proof fn lemma_aged_step(peers: Seq<PeerEntryView>)
    ensures
        forall|k: int|
            0 <= k < aged(peers).len() ==> has_origin(peers, #[trigger] aged(peers)[k], 1) && aged(
                peers,
            )[k].time_to_live > 0,
        forall|i: int|
            0 <= i < peers.len() && peers[i].time_to_live > 1 ==> survives(
                aged(peers),
                #[trigger] peers[i],
                1,
            ),
    decreases peers.len(),
{
    if peers.len() > 0 {
        let rest = peers.drop_last();
        lemma_aged_step(rest);
        let r = aged(rest);
        let e = peers.last();
        let a = aged(peers);
        assert forall|k: int| 0 <= k < a.len() implies has_origin(peers, #[trigger] a[k], 1)
            && a[k].time_to_live > 0 by {
            if k < r.len() {
                assert(a[k] == r[k]);
                assert(has_origin(rest, r[k], 1));
                let i = choose|i: int|
                    0 <= i < rest.len() && #[trigger] rest[i].node_id == r[k].node_id
                        && rest[i].time_to_live == r[k].time_to_live + 1;
                assert(peers[i] == rest[i]);
            } else {
                assert(peers[peers.len() - 1] == e);
            }
        }
        assert forall|i: int| 0 <= i < peers.len() && peers[i].time_to_live > 1 implies survives(
            a,
            #[trigger] peers[i],
            1,
        ) by {
            if i < rest.len() {
                assert(peers[i] == rest[i]);
                assert(survives(r, rest[i], 1));
                let k = choose|k: int|
                    0 <= k < r.len() && #[trigger] r[k].node_id == rest[i].node_id
                        && r[k].time_to_live == rest[i].time_to_live - 1;
                assert(a[k] == r[k]);
            } else {
                assert(a[r.len() as int].node_id == e.node_id);
            }
        }
    }
}

/// Every entry of `a`, the table after `n` rounds, comes from an entry of
/// `peers` with `n` more rounds to live.
spec fn origins_ok(peers: Seq<PeerEntryView>, a: Seq<PeerEntryView>, n: nat) -> bool {
    forall|k: int|
        0 <= k < a.len() ==> has_origin(peers, #[trigger] a[k], n as int) && (n > 0
            ==> a[k].time_to_live > 0)
}

/// Every entry of `peers` with more than `n` rounds to live is still in `a`.
spec fn survivors_ok(peers: Seq<PeerEntryView>, a: Seq<PeerEntryView>, n: nat) -> bool {
    forall|i: int|
        0 <= i < peers.len() && peers[i].time_to_live > n ==> survives(
            a,
            #[trigger] peers[i],
            n as int,
        )
}

proof fn lemma_origins_next(peers: Seq<PeerEntryView>, prev: Seq<PeerEntryView>, m: nat)
    requires
        origins_ok(peers, prev, m),
    ensures
        origins_ok(peers, aged(prev), m + 1),
{
    lemma_aged_step(prev);
    let a = aged(prev);
    let n = m + 1;
    assert forall|k: int| 0 <= k < a.len() implies has_origin(peers, #[trigger] a[k], n as int)
        && a[k].time_to_live > 0 by {
        assert(has_origin(prev, a[k], 1));
        let j = choose|j: int|
            0 <= j < prev.len() && #[trigger] prev[j].node_id == a[k].node_id
                && prev[j].time_to_live == a[k].time_to_live + 1;
        assert(has_origin(peers, prev[j], m as int));
    }
}

proof fn lemma_survivors_next(peers: Seq<PeerEntryView>, prev: Seq<PeerEntryView>, m: nat)
    requires
        survivors_ok(peers, prev, m),
    ensures
        survivors_ok(peers, aged(prev), m + 1),
{
    lemma_aged_step(prev);
    let a = aged(prev);
    let n = m + 1;
    assert forall|i: int| 0 <= i < peers.len() && peers[i].time_to_live > n implies survives(
        a,
        #[trigger] peers[i],
        n as int,
    ) by {
        assert(survives(prev, peers[i], m as int));
        let j = choose|j: int|
            0 <= j < prev.len() && #[trigger] prev[j].node_id == peers[i].node_id
                && prev[j].time_to_live == peers[i].time_to_live - m;
        assert(survives(a, prev[j], 1));
    }
}

proof fn lemma_origins_times(peers: Seq<PeerEntryView>, n: nat)
    ensures
        origins_ok(peers, aged_times(peers, n), n),
    decreases n,
{
    if n == 0 {
        assert forall|k: int| 0 <= k < peers.len() implies has_origin(peers, #[trigger] peers[k], 0) by {
            assert(peers[k].node_id == peers[k].node_id);
        }
    } else {
        let m = (n - 1) as nat;
        lemma_origins_times(peers, m);
        lemma_origins_next(peers, aged_times(peers, m), m);
    }
}

proof fn lemma_survivors_times(peers: Seq<PeerEntryView>, n: nat)
    ensures
        survivors_ok(peers, aged_times(peers, n), n),
    decreases n,
{
    if n == 0 {
        assert forall|i: int| 0 <= i < peers.len() && peers[i].time_to_live > n implies survives(
            peers,
            #[trigger] peers[i],
            0,
        ) by {
            assert(peers[i].node_id == peers[i].node_id);
        }
    } else {
        let m = (n - 1) as nat;
        lemma_survivors_times(peers, m);
        lemma_survivors_next(peers, aged_times(peers, m), m);
    }
}

proof fn lemma_expired_gone(peers: Seq<PeerEntryView>, n: nat, id: Seq<char>)
    requires
        n >= 1,
        lists_id(aged_times(peers, n), id),
    ensures
        exists|i: int|
            0 <= i < peers.len() && #[trigger] peers[i].node_id == id && peers[i].time_to_live > n,
{
    lemma_origins_times(peers, n);
    let a = aged_times(peers, n);
    let k = choose|k: int| 0 <= k < a.len() && #[trigger] a[k].node_id == id;
    assert(has_origin(peers, a[k], n as int));
}

proof fn lemma_living_kept(peers: Seq<PeerEntryView>, n: nat, i: int)
    requires
        0 <= i < peers.len(),
        peers[i].time_to_live > n,
    ensures
        lists_id(aged_times(peers, n), peers[i].node_id),
{
    lemma_survivors_times(peers, n);
    assert(survives(aged_times(peers, n), peers[i], n as int));
}

/// Expiry: after `n` rounds of aging (and no gossip), a peer is still known
/// exactly when its entry had more than `n` rounds to live.
pub proof fn lemma_expiry(peers: Seq<PeerEntryView>, n: nat, id: Seq<char>)
    requires
        n >= 1,
    ensures
        lists_id(aged_times(peers, n), id) <==> exists|i: int|
            0 <= i < peers.len() && #[trigger] peers[i].node_id == id && peers[i].time_to_live > n,
{
    if lists_id(aged_times(peers, n), id) {
        lemma_expired_gone(peers, n, id);
    }
    if exists|i: int|
        0 <= i < peers.len() && #[trigger] peers[i].node_id == id && peers[i].time_to_live > n {
        let i = choose|i: int|
            0 <= i < peers.len() && #[trigger] peers[i].node_id == id && peers[i].time_to_live > n;
        lemma_living_kept(peers, n, i);
    }
}

/// A gossip target is a known peer, and so never the node itself.
pub proof fn lemma_target_not_self(peers: Seq<PeerEntryView>, self_id: Seq<char>, id: Seq<char>)
    requires
        table_ok(peers, self_id),
        entry_ids(peers).contains(id),
    ensures
        id != self_id,
{
    let k = choose|k: int| 0 <= k < entry_ids(peers).len() && entry_ids(peers)[k] == id;
    assert(peers[k].node_id == id);
}

/// The count of new peers only grows along an incoming list.
proof fn lemma_merge_count_monotone(
    peers: Seq<PeerEntryView>,
    incoming: Seq<PeerView>,
    self_id: Seq<char>,
    k: int,
)
    requires
        0 <= k <= incoming.len(),
    ensures
        merge_peer_list(peers, incoming.take(k), self_id).1 <= merge_peer_list(
            peers,
            incoming,
            self_id,
        ).1,
    decreases incoming.len() - k,
{
    if k < incoming.len() {
        lemma_merge_count_monotone(peers, incoming, self_id, k + 1);
        assert(incoming.take(k + 1).drop_last() =~= incoming.take(k));
        if k + 1 == incoming.len() {
            assert(incoming.take(k + 1) =~= incoming);
        }
    } else {
        assert(incoming.take(k) =~= incoming);
    }
}

} // verus!

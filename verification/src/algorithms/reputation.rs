//! Reputation scoring: per-peer evidence and trust ranking.
//!
//!   1. Each peer has a trust score (0.0 = untrusted, 1.0 = fully trusted).
//!   2. Scores are built from three signals:
//!        - Accuracy:     Did their reported counts match the majority?
//!        - Uptime:       Do they respond to heartbeats reliably?
//!        - Reciprocity:  Do they contribute as much as they consume?
//!   3. Peers are ranked by trust score, highest first.
//!
//! A trust score is held as the bit pattern of an IEEE-754 double; this
//! module keeps the evidence and orders peers by score, and the arithmetic
//! that turns evidence into a score is done by the caller.

use vstd::prelude::*;

verus! {

broadcast use vstd::seq_lib::group_to_multiset_ensures;

/// The trust score of a newly registered peer, 0.5, as the bit pattern of an
/// IEEE-754 double.
pub const NEUTRAL_TRUST_BITS: u64 = 0x3FE0_0000_0000_0000;

/// Reputation evidence and trust score for a single peer.
#[derive(Debug)]
pub struct ReputationRecord {
    node_id: String,
    reports_total: u32,
    reports_accurate: u32,
    heartbeats_total: u32,
    heartbeats_responded: u32,
    contributions: u32,
    consumptions: u32,
    trust_score: u64,
}

/// The plain values a `ReputationRecord` holds.
pub struct ReputationRecordView {
    pub node_id: Seq<char>,
    pub reports_total: u32,
    pub reports_accurate: u32,
    pub heartbeats_total: u32,
    pub heartbeats_responded: u32,
    pub contributions: u32,
    pub consumptions: u32,
    pub trust_score: u64,
}

impl View for ReputationRecord {
    type V = ReputationRecordView;

    closed spec fn view(&self) -> ReputationRecordView {
        ReputationRecordView {
            node_id: self.node_id@,
            reports_total: self.reports_total,
            reports_accurate: self.reports_accurate,
            heartbeats_total: self.heartbeats_total,
            heartbeats_responded: self.heartbeats_responded,
            contributions: self.contributions,
            consumptions: self.consumptions,
            trust_score: self.trust_score,
        }
    }
}

/// A newly registered peer: no evidence yet and a neutral trust score.
pub open spec fn fresh_record(node_id: Seq<char>) -> ReputationRecordView {
    ReputationRecordView {
        node_id,
        reports_total: 0,
        reports_accurate: 0,
        heartbeats_total: 0,
        heartbeats_responded: 0,
        contributions: 0,
        consumptions: 0,
        trust_score: NEUTRAL_TRUST_BITS,
    }
}

/// The evidence of a record is consistent: no more accurate reports than
/// reports, no more answered heartbeats than heartbeats.
pub open spec fn record_ok(r: ReputationRecordView) -> bool {
    r.reports_accurate <= r.reports_total && r.heartbeats_responded <= r.heartbeats_total
}

/// The position in the total order of IEEE-754 doubles (the order of
/// `f64::total_cmp`) of the double with bit pattern `bits`, as an unsigned
/// integer: negative values have every bit flipped, the others only their
/// sign bit.
pub open spec fn total_order_key(bits: u64) -> u64 {
    if bits & 0x8000_0000_0000_0000u64 != 0 {
        !bits
    } else {
        bits | 0x8000_0000_0000_0000u64
    }
}

/// How ranking keys order scores: among non-negative scores (sign bit
/// clear) as their bit patterns do, among negative ones the other way
/// round, and every non-negative score above every negative one; equal keys
/// only for equal bit patterns.
pub proof fn lemma_total_order_key(a: u64, b: u64)
    ensures
        (a >> 63u64 == 0 && b >> 63u64 == 0) ==> (total_order_key(a) <= total_order_key(b) <==> a
            <= b),
        (a >> 63u64 == 1 && b >> 63u64 == 1) ==> (total_order_key(a) <= total_order_key(b) <==> b
            <= a),
        (a >> 63u64 == 0 && b >> 63u64 == 1) ==> total_order_key(b) < total_order_key(a),
        total_order_key(a) == total_order_key(b) ==> a == b,
{
    assert(
        (a >> 63u64 == 0 && b >> 63u64 == 0) ==> ((if a & 0x8000_0000_0000_0000u64 != 0 {
            !a
        } else {
            a | 0x8000_0000_0000_0000u64
        }) <= (if b & 0x8000_0000_0000_0000u64 != 0 {
            !b
        } else {
            b | 0x8000_0000_0000_0000u64
        }) <==> a <= b)
    ) by (bit_vector);
    assert(
        (a >> 63u64 == 1 && b >> 63u64 == 1) ==> ((if a & 0x8000_0000_0000_0000u64 != 0 {
            !a
        } else {
            a | 0x8000_0000_0000_0000u64
        }) <= (if b & 0x8000_0000_0000_0000u64 != 0 {
            !b
        } else {
            b | 0x8000_0000_0000_0000u64
        }) <==> b <= a)
    ) by (bit_vector);
    assert(
        (a >> 63u64 == 0 && b >> 63u64 == 1) ==> (if b & 0x8000_0000_0000_0000u64 != 0 {
            !b
        } else {
            b | 0x8000_0000_0000_0000u64
        }) < (if a & 0x8000_0000_0000_0000u64 != 0 {
            !a
        } else {
            a | 0x8000_0000_0000_0000u64
        })
    ) by (bit_vector);
    assert(
        (if a & 0x8000_0000_0000_0000u64 != 0 {
            !a
        } else {
            a | 0x8000_0000_0000_0000u64
        }) == (if b & 0x8000_0000_0000_0000u64 != 0 {
            !b
        } else {
            b | 0x8000_0000_0000_0000u64
        }) ==> a == b
    ) by (bit_vector);
}

/// The key by which records are ranked: the total order of their scores.
pub open spec fn rank_key(r: ReputationRecordView) -> u64 {
    total_order_key(r.trust_score)
}

fn order_key(bits: u64) -> (r: u64)
    ensures
        r == total_order_key(bits),
{
    if bits & 0x8000_0000_0000_0000u64 != 0 {
        !bits
    } else {
        bits | 0x8000_0000_0000_0000u64
    }
}

impl ReputationRecord {
    /// A new record with no evidence and a neutral trust score.
    pub fn new(node_id: String) -> (r: ReputationRecord)
        ensures
            r@ == fresh_record(node_id@),
    {
        ReputationRecord {
            node_id,
            reports_total: 0,
            reports_accurate: 0,
            heartbeats_total: 0,
            heartbeats_responded: 0,
            contributions: 0,
            consumptions: 0,
            trust_score: NEUTRAL_TRUST_BITS,
        }
    }

    /// The peer's identifier.
    pub fn node_id(&self) -> (r: &str)
        ensures
            r@ == self@.node_id,
    {
        self.node_id.as_str()
    }

    /// Reports checked against an audit.
    pub fn reports_total(&self) -> (r: u32)
        ensures
            r == self@.reports_total,
    {
        self.reports_total
    }

    /// Reports that matched the audit majority.
    pub fn reports_accurate(&self) -> (r: u32)
        ensures
            r == self@.reports_accurate,
    {
        self.reports_accurate
    }

    /// Heartbeats sent to the peer.
    pub fn heartbeats_total(&self) -> (r: u32)
        ensures
            r == self@.heartbeats_total,
    {
        self.heartbeats_total
    }

    /// Heartbeats the peer answered.
    pub fn heartbeats_responded(&self) -> (r: u32)
        ensures
            r == self@.heartbeats_responded,
    {
        self.heartbeats_responded
    }

    /// Units the peer contributed to us.
    pub fn contributions(&self) -> (r: u32)
        ensures
            r == self@.contributions,
    {
        self.contributions
    }

    /// Units the peer consumed from us.
    pub fn consumptions(&self) -> (r: u32)
        ensures
            r == self@.consumptions,
    {
        self.consumptions
    }

    /// The trust score, as the bit pattern of an IEEE-754 double.
    pub fn trust_score(&self) -> (r: u64)
        ensures
            r == self@.trust_score,
    {
        self.trust_score
    }

    /// Replaces the trust score (a bit pattern of an IEEE-754 double).
    pub fn set_trust_score(&mut self, bits: u64)
        ensures
            final(self)@ == (ReputationRecordView { trust_score: bits, ..old(self)@ }),
    {
        self.trust_score = bits;
    }
}

impl Clone for ReputationRecord {
    fn clone(&self) -> (r: Self)
        ensures
            r@ == self@,
    {
        ReputationRecord {
            node_id: self.node_id.clone(),
            reports_total: self.reports_total,
            reports_accurate: self.reports_accurate,
            heartbeats_total: self.heartbeats_total,
            heartbeats_responded: self.heartbeats_responded,
            contributions: self.contributions,
            consumptions: self.consumptions,
            trust_score: self.trust_score,
        }
    }
}

/// The plain values of a list of records.
pub open spec fn records_view(records: Seq<ReputationRecord>) -> Seq<ReputationRecordView> {
    records.map_values(|r: ReputationRecord| r@)
}

/// The position of the record with identifier `id`, or -1.
pub open spec fn record_index(peers: Seq<ReputationRecordView>, id: Seq<char>) -> int {
    if exists|i: int| 0 <= i < peers.len() && peers[i].node_id == id {
        choose|i: int| 0 <= i < peers.len() && peers[i].node_id == id
    } else {
        -1
    }
}

/// No two records share an identifier.
pub open spec fn distinct_records(peers: Seq<ReputationRecordView>) -> bool {
    forall|i: int, j: int|
        0 <= i < peers.len() && 0 <= j < peers.len() && i != j ==> peers[i].node_id
            != peers[j].node_id
}

/// Records ordered by trust score, highest first.
pub open spec fn ranked(records: Seq<ReputationRecordView>) -> bool {
    forall|i: int, j: int| 0 <= i < j < records.len() ==> rank_key(records[i]) >= rank_key(records[j])
}

/// The plain values a `ReputationNode` holds.
pub struct ReputationView {
    pub node_id: Seq<char>,
    pub peers: Seq<ReputationRecordView>,
    pub log: Seq<Seq<char>>,
}

/// The table after a peer is registered: a new peer starts with no evidence
/// and a neutral score, a known peer is left as it is.
pub open spec fn reputation_added(t: ReputationView, id: Seq<char>) -> ReputationView {
    ReputationView {
        peers: if record_index(t.peers, id) >= 0 {
            t.peers
        } else {
            t.peers.push(fresh_record(id))
        },
        ..t
    }
}

/// Tracks reputation for all known peers.
#[derive(Debug)]
pub struct ReputationNode {
    node_id: String,
    peers: Vec<ReputationRecord>,
    log: Vec<String>,
}

impl View for ReputationNode {
    type V = ReputationView;

    closed spec fn view(&self) -> ReputationView {
        ReputationView {
            node_id: self.node_id@,
            peers: records_view(self.peers@),
            log: self.log@.map_values(|s: String| s@),
        }
    }
}

proof fn lemma_record_index(peers: Seq<ReputationRecordView>, id: Seq<char>, i: int)
    requires
        distinct_records(peers),
        0 <= i < peers.len(),
        peers[i].node_id == id,
    ensures
        record_index(peers, id) == i,
{
}

/// The record of `id` after `change`, or the table unchanged when `id` is
/// not known.
pub open spec fn change_record(
    peers: Seq<ReputationRecordView>,
    id: Seq<char>,
    change: spec_fn(ReputationRecordView) -> ReputationRecordView,
) -> Seq<ReputationRecordView> {
    let i = record_index(peers, id);
    if i < 0 {
        peers
    } else {
        peers.update(i, change(peers[i]))
    }
}

/// A report checked against an audit.
pub open spec fn after_report(r: ReputationRecordView, was_accurate: bool) -> ReputationRecordView {
    ReputationRecordView {
        reports_total: (r.reports_total + 1) as u32,
        reports_accurate: if was_accurate {
            (r.reports_accurate + 1) as u32
        } else {
            r.reports_accurate
        },
        ..r
    }
}

/// A heartbeat sent to the peer.
pub open spec fn after_heartbeat(r: ReputationRecordView, responded: bool) -> ReputationRecordView {
    ReputationRecordView {
        heartbeats_total: (r.heartbeats_total + 1) as u32,
        heartbeats_responded: if responded {
            (r.heartbeats_responded + 1) as u32
        } else {
            r.heartbeats_responded
        },
        ..r
    }
}

/// The table after a report of `id` was checked against an audit.
pub open spec fn reputation_reported(t: ReputationView, id: Seq<char>, was_accurate: bool) -> ReputationView {
    ReputationView {
        peers: change_record(t.peers, id, |r: ReputationRecordView| after_report(r, was_accurate)),
        ..t
    }
}

/// The table after a heartbeat was sent to `id`.
pub open spec fn reputation_heartbeat_recorded(
    t: ReputationView,
    id: Seq<char>,
    responded: bool,
) -> ReputationView {
    ReputationView {
        peers: change_record(t.peers, id, |r: ReputationRecordView| after_heartbeat(r, responded)),
        ..t
    }
}

/// The table after `id` contributed `units` to us.
pub open spec fn reputation_contributed(t: ReputationView, id: Seq<char>, units: u32) -> ReputationView {
    ReputationView {
        peers: change_record(
            t.peers,
            id,
            |r: ReputationRecordView|
                ReputationRecordView { contributions: (r.contributions + units) as u32, ..r },
        ),
        ..t
    }
}

/// The table after `id` consumed `units` from us.
pub open spec fn reputation_consumed(t: ReputationView, id: Seq<char>, units: u32) -> ReputationView {
    ReputationView {
        peers: change_record(
            t.peers,
            id,
            |r: ReputationRecordView|
                ReputationRecordView { consumptions: (r.consumptions + units) as u32, ..r },
        ),
        ..t
    }
}

/// The table after the trust score of `id` became `bits`.
pub open spec fn reputation_scored(t: ReputationView, id: Seq<char>, bits: u64) -> ReputationView {
    ReputationView {
        peers: change_record(t.peers, id, |r: ReputationRecordView| ReputationRecordView { trust_score: bits, ..r }),
        ..t
    }
}

impl ReputationNode {
    /// Identifiers are distinct and every record's evidence is consistent.
    pub open spec fn wf(&self) -> bool {
        &&& distinct_records(self@.peers)
        &&& forall|i: int| 0 <= i < self@.peers.len() ==> record_ok(#[trigger] self@.peers[i])
    }

    /// A node that knows no peer yet.
    pub fn new(node_id: String) -> (r: ReputationNode)
        ensures
            r.wf(),
            r@.node_id == node_id@,
            r@.peers == Seq::<ReputationRecordView>::empty(),
            r@.log == Seq::<Seq<char>>::empty(),
    {
        let r = ReputationNode { node_id, peers: Vec::new(), log: Vec::new() };
        assert(r@.peers =~= Seq::<ReputationRecordView>::empty());
        assert(r@.log =~= Seq::<Seq<char>>::empty());
        r
    }

    /// The record of `peer_id`, if it has one.
    pub fn record(&self, peer_id: &str) -> (r: Option<&ReputationRecord>)
        requires
            self.wf(),
        ensures
            match r {
                Some(rec) => record_index(self@.peers, peer_id@) >= 0 && rec@ == self@.peers[record_index(
                    self@.peers,
                    peer_id@,
                )],
                None => record_index(self@.peers, peer_id@) < 0,
            },
    {
        match self.position(peer_id) {
            Some(i) => {
                assert(self@.peers[i as int] == self.peers@[i as int]@);
                Some(&self.peers[i])
            },
            None => None,
        }
    }

    fn position(&self, id: &str) -> (r: Option<usize>)
        requires
            self.wf(),
        ensures
            match r {
                Some(i) => i < self@.peers.len() && self@.peers[i as int].node_id == id@
                    && record_index(self@.peers, id@) == i,
                None => record_index(self@.peers, id@) == -1,
            },
    {
        let key = id.to_owned();
        let mut i: usize = 0;
        while i < self.peers.len()
            invariant
                i <= self.peers@.len(),
                self.wf(),
                key@ == id@,
                forall|j: int| 0 <= j < i ==> self@.peers[j].node_id != id@,
            decreases self.peers@.len() - i,
        {
            assert(self@.peers[i as int] == self.peers@[i as int]@);
            if self.peers[i].node_id == key {
                proof {
                    lemma_record_index(self@.peers, id@, i as int);
                }
                return Some(i);
            }
            i = i + 1;
        }
        None
    }

    /// Registers a new peer with a neutral trust score; a known peer is left
    /// as it is.
    pub fn add_peer(&mut self, node_id: String)
        requires
            old(self).wf(),
        ensures
            final(self).wf(),
            final(self)@ == reputation_added(old(self)@, node_id@),
    {
        match self.position(node_id.as_str()) {
            Some(_) => {},
            None => {
                let ghost id = node_id@;
                self.peers.push(ReputationRecord::new(node_id));
                assert(self@.peers =~= old(self)@.peers.push(fresh_record(id)));
                assert forall|i: int| 0 <= i < old(self)@.peers.len() implies self@.peers[i].node_id
                    != id by {
                    assert(self@.peers[i] == old(self)@.peers[i]);
                }
            },
        }
    }

    /// Records whether a peer's report matched the audit majority; an
    /// unknown peer changes nothing.
    pub fn record_report(&mut self, peer_id: &str, was_accurate: bool)
        requires
            old(self).wf(),
            record_index(old(self)@.peers, peer_id@) >= 0 ==> old(self)@.peers[record_index(
                old(self)@.peers,
                peer_id@,
            )].reports_total < u32::MAX,
        ensures
            final(self).wf(),
            final(self)@ == reputation_reported(old(self)@, peer_id@, was_accurate),
    {
        match self.position(peer_id) {
            None => {},
            Some(i) => {
                let ghost before = self@.peers;
                let mut rec = self.peers.remove(i);
                assert(rec@ == before[i as int]);
                rec.reports_total = rec.reports_total + 1;
                if was_accurate {
                    rec.reports_accurate = rec.reports_accurate + 1;
                }
                self.peers.insert(i, rec);
                assert(self@.peers =~= before.update(i as int, after_report(before[i as int], was_accurate)));
            },
        }
    }

    /// Records a heartbeat sent to a peer and whether it answered; an
    /// unknown peer changes nothing.
    pub fn record_heartbeat(&mut self, peer_id: &str, responded: bool)
        requires
            old(self).wf(),
            record_index(old(self)@.peers, peer_id@) >= 0 ==> old(self)@.peers[record_index(
                old(self)@.peers,
                peer_id@,
            )].heartbeats_total < u32::MAX,
        ensures
            final(self).wf(),
            final(self)@ == reputation_heartbeat_recorded(old(self)@, peer_id@, responded),
    {
        match self.position(peer_id) {
            None => {},
            Some(i) => {
                let ghost before = self@.peers;
                let mut rec = self.peers.remove(i);
                assert(rec@ == before[i as int]);
                rec.heartbeats_total = rec.heartbeats_total + 1;
                if responded {
                    rec.heartbeats_responded = rec.heartbeats_responded + 1;
                }
                self.peers.insert(i, rec);
                assert(self@.peers =~= before.update(i as int, after_heartbeat(before[i as int], responded)));
            },
        }
    }
    /// Records that a peer contributed `units` of data or messages to us;
    /// an unknown peer changes nothing.
    pub fn record_contribution(&mut self, peer_id: &str, units: u32)
        requires
            old(self).wf(),
            record_index(old(self)@.peers, peer_id@) >= 0 ==> old(self)@.peers[record_index(
                old(self)@.peers,
                peer_id@,
            )].contributions + units <= u32::MAX,
        ensures
            final(self).wf(),
            final(self)@ == reputation_contributed(old(self)@, peer_id@, units),
    {
        match self.position(peer_id) {
            None => {},
            Some(i) => {
                let ghost before = self@.peers;
                let mut rec = self.peers.remove(i);
                assert(rec@ == before[i as int]);
                rec.contributions = rec.contributions + units;
                self.peers.insert(i, rec);
                assert(self@.peers =~= before.update(
                    i as int,
                    ReputationRecordView {
                        contributions: (before[i as int].contributions + units) as u32,
                        ..before[i as int]
                    },
                ));
            },
        }
    }

    /// Records that a peer consumed `units` of data or messages from us; an
    /// unknown peer changes nothing.
    pub fn record_consumption(&mut self, peer_id: &str, units: u32)
        requires
            old(self).wf(),
            record_index(old(self)@.peers, peer_id@) >= 0 ==> old(self)@.peers[record_index(
                old(self)@.peers,
                peer_id@,
            )].consumptions + units <= u32::MAX,
        ensures
            final(self).wf(),
            final(self)@ == reputation_consumed(old(self)@, peer_id@, units),
    {
        match self.position(peer_id) {
            None => {},
            Some(i) => {
                let ghost before = self@.peers;
                let mut rec = self.peers.remove(i);
                assert(rec@ == before[i as int]);
                rec.consumptions = rec.consumptions + units;
                self.peers.insert(i, rec);
                assert(self@.peers =~= before.update(
                    i as int,
                    ReputationRecordView {
                        consumptions: (before[i as int].consumptions + units) as u32,
                        ..before[i as int]
                    },
                ));
            },
        }
    }

    /// Replaces a peer's trust score (a bit pattern of an IEEE-754 double);
    /// an unknown peer changes nothing.
    pub fn set_trust_score(&mut self, peer_id: &str, bits: u64)
        requires
            old(self).wf(),
        ensures
            final(self).wf(),
            final(self)@ == reputation_scored(old(self)@, peer_id@, bits),
    {
        match self.position(peer_id) {
            None => {},
            Some(i) => {
                let ghost before = self@.peers;
                let mut rec = self.peers.remove(i);
                assert(rec@ == before[i as int]);
                rec.set_trust_score(bits);
                self.peers.insert(i, rec);
                assert(self@.peers =~= before.update(
                    i as int,
                    ReputationRecordView { trust_score: bits, ..before[i as int] },
                ));
            },
        }
    }

    /// The trust score of a peer (a bit pattern of an IEEE-754 double), or
    /// `None` for an unknown peer.
    pub fn trust_score_of(&self, peer_id: &str) -> (r: Option<u64>)
        requires
            self.wf(),
        ensures
            r == if record_index(self@.peers, peer_id@) >= 0 {
                Some(self@.peers[record_index(self@.peers, peer_id@)].trust_score)
            } else {
                None::<u64>
            },
    {
        match self.position(peer_id) {
            None => None,
            Some(i) => {
                assert(self@.peers[i as int] == self.peers@[i as int]@);
                Some(self.peers[i].trust_score)
            },
        }
    }

    /// The node's own identifier.
    pub fn node_id(&self) -> (r: &str)
        ensures
            r@ == self@.node_id,
    {
        self.node_id.as_str()
    }

    /// The number of known peers.
    pub fn known_peer_count(&self) -> (r: usize)
        ensures
            r == self@.peers.len(),
    {
        self.peers.len()
    }

    /// All peers, ranked by trust score, highest first (in the total order
    /// of doubles).
    pub fn get_ranked_peers(&self) -> (r: Vec<ReputationRecord>)
        ensures
            records_view(r@).to_multiset() == self@.peers.to_multiset(),
            ranked(records_view(r@)),
    {
        let mut out: Vec<ReputationRecord> = Vec::new();
        let mut i: usize = 0;
        while i < self.peers.len()
            invariant
                i <= self.peers@.len(),
                records_view(out@).to_multiset() == self@.peers.take(i as int).to_multiset(),
                ranked(records_view(out@)),
            decreases self.peers@.len() - i,
        {
            let rec = self.peers[i].clone();
            assert(rec@ == self@.peers[i as int]);
            let key = order_key(rec.trust_score);
            let mut p: usize = 0;
            while p < out.len() && order_key(out[p].trust_score) > key
                invariant
                    p <= out@.len(),
                    key == rank_key(rec@),
                    forall|q: int| 0 <= q < p ==> rank_key(records_view(out@)[q]) > key,
                decreases out@.len() - p,
            {
                assert(records_view(out@)[p as int] == out@[p as int]@);
                p = p + 1;
            }
            proof {
                if p < out@.len() {
                    assert(records_view(out@)[p as int] == out@[p as int]@);
                }
            }
            let ghost before = records_view(out@);
            out.insert(p, rec);
            assert(records_view(out@) =~= before.insert(p as int, rec@));
            assert(self@.peers.take(i as int + 1) =~= self@.peers.take(i as int).push(self@.peers[i as int]));
            i = i + 1;
        }
        assert(self@.peers.take(self@.peers.len() as int) =~= self@.peers);
        out
    }

    /// Returns the log and empties it.
    pub fn flush_log(&mut self) -> (r: Vec<String>)
        ensures
            r@.map_values(|s: String| s@) == old(self)@.log,
            final(self)@ == (ReputationView { log: Seq::empty(), ..old(self)@ }),
    {
        let mut messages: Vec<String> = Vec::new();
        std::mem::swap(&mut messages, &mut self.log);
        assert(self@.log =~= Seq::<Seq<char>>::empty());
        messages
    }
}

/// Whether a reported count is within 5% of a group's representative count.
pub open spec fn within_five_percent(count: u64, representative: u64) -> bool {
    20 * (if count >= representative { count - representative } else { representative - count })
        <= representative
}

/// The first of `representatives` that `count` is within 5% of, or -1.
pub open spec fn first_close_group(representatives: Seq<u64>, count: u64) -> int
    decreases representatives.len(),
{
    if representatives.len() == 0 {
        -1
    } else {
        let earlier = first_close_group(representatives.drop_last(), count);
        if earlier >= 0 {
            earlier
        } else if within_five_percent(count, representatives.last()) {
            representatives.len() - 1
        } else {
            -1
        }
    }
}

/// How the first `n` reported counts group for a vote, in order: each count
/// joins the first group whose representative (its first count) it is
/// within 5% of, or starts a new group. Gives the representatives, and the
/// group of each count.
pub open spec fn vote_groups_prefix(counts: Seq<u64>, n: int) -> (Seq<u64>, Seq<int>)
    decreases n,
{
    if n <= 0 {
        (Seq::empty(), Seq::empty())
    } else {
        let (reps, groups) = vote_groups_prefix(counts, n - 1);
        let g = first_close_group(reps, counts[n - 1]);
        if g >= 0 {
            (reps, groups.push(g))
        } else {
            (reps.push(counts[n - 1]), groups.push(reps.len() as int))
        }
    }
}

/// How reported counts group for a vote.
pub open spec fn vote_groups(counts: Seq<u64>) -> (Seq<u64>, Seq<int>) {
    vote_groups_prefix(counts, counts.len() as int)
}

fn close_to(count: u64, representative: u64) -> (r: bool)
    ensures
        r == within_five_percent(count, representative),
{
    let diff: u64 = if count >= representative {
        count - representative
    } else {
        representative - count
    };
    assert((20 * diff <= representative) == (diff <= representative / 20)) by (nonlinear_arith);
    diff <= representative / 20
}

/// Groups reported counts for a weighted vote: each count joins the first
/// group whose representative (its first count) it is within 5% of, or
/// starts a new group with itself as representative. Returns the
/// representatives in order of appearance and, for each count, the index of
/// its group.
pub fn group_votes(counts: &Vec<u64>) -> (r: (Vec<u64>, Vec<usize>))
    ensures
        r.0@ == vote_groups(counts@).0,
        r.1@.len() == counts@.len(),
        forall|i: int| 0 <= i < counts@.len() ==> r.1@[i] == #[trigger] vote_groups(counts@).1[i],
        forall|i: int, j: int|
            0 <= i < counts@.len() && 0 <= j < counts@.len() && counts@[i] == counts@[j] ==> #[trigger] r.1@[i]
                == #[trigger] r.1@[j],
        forall|i: int|
            0 <= i < counts@.len() ==> #[trigger] r.1@[i] < r.0@.len() && within_five_percent(
                counts@[i],
                r.0@[r.1@[i] as int],
            ),
{
    let mut reps: Vec<u64> = Vec::new();
    let mut groups: Vec<usize> = Vec::new();
    let mut i: usize = 0;
    while i < counts.len()
        invariant
            i <= counts@.len(),
            reps@ == vote_groups_prefix(counts@, i as int).0,
            groups@.len() == i,
            vote_groups_prefix(counts@, i as int).1.len() == i,
            reps@.len() <= i,
            forall|k: int| 0 <= k < i ==> groups@[k] == #[trigger] vote_groups_prefix(counts@, i as int).1[k],
        decreases counts@.len() - i,
    {
        let c = counts[i];
        let ghost prev = vote_groups_prefix(counts@, i as int);
        let mut j: usize = 0;
        let mut found: Option<usize> = None;
        while j < reps.len()
            invariant_except_break
                j <= reps@.len(),
                first_close_group(reps@.subrange(0, j as int), c) == -1,
                found is None,
            ensures
                found matches Some(g) ==> first_close_group(reps@, c) == g && g < reps@.len(),
                found is None ==> j == reps@.len() && first_close_group(
                    reps@.subrange(0, j as int),
                    c,
                ) == -1,
            decreases reps@.len() - j,
        {
            assert(reps@.subrange(0, (j + 1) as int).drop_last() =~= reps@.subrange(0, j as int));
            if close_to(c, reps[j]) {
                proof {
                    lemma_first_close_extends(reps@, c, (j + 1) as int);
                }
                found = Some(j);
                break;
            }
            j = j + 1;
        }
        proof {
            if found is None {
                assert(reps@.subrange(0, reps@.len() as int) =~= reps@);
            }
        }
        let ghost step = vote_groups_prefix(counts@, (i + 1) as int);
        match found {
            Some(g) => {
                assert(step == (prev.0, prev.1.push(g as int)));
                groups.push(g);
            },
            None => {
                assert(step == (prev.0.push(c), prev.1.push(prev.0.len() as int)));
                groups.push(reps.len());
                reps.push(c);
            },
        }
        assert forall|k: int| 0 <= k < i + 1 implies groups@[k] == #[trigger] step.1[k] by {
            if k < i {
                assert(step.1[k] == prev.1[k]);
            }
        }
        i = i + 1;
    }
    assert(counts@.len() as int == i as int);
    assert forall|a: int, b: int|
        0 <= a < counts@.len() && 0 <= b < counts@.len() && counts@[a] == counts@[b] implies #[trigger] groups@[a]
            == #[trigger] groups@[b] by {
        lemma_equal_counts_share_group(counts@, a, b);
    }
    assert forall|a: int| 0 <= a < counts@.len() implies #[trigger] groups@[a] < reps@.len()
        && within_five_percent(counts@[a], reps@[groups@[a] as int]) by {
        lemma_equal_counts_share_group(counts@, a, a);
    }
    (reps, groups)
}

/// A group found among the first `n` representatives is the first one of
/// them all.
proof fn lemma_first_close_extends(reps: Seq<u64>, count: u64, n: int)
    requires
        0 < n <= reps.len(),
        first_close_group(reps.subrange(0, n - 1), count) == -1,
        within_five_percent(count, reps[n - 1]),
    ensures
        first_close_group(reps, count) == n - 1,
    decreases reps.len() - n,
{
    assert(reps.subrange(0, n).drop_last() =~= reps.subrange(0, n - 1));
    assert(first_close_group(reps.subrange(0, n), count) == n - 1);
    if n < reps.len() {
        lemma_first_close_prefix(reps, count, n);
    } else {
        assert(reps.subrange(0, n) =~= reps);
    }
}

/// Once a group is found among the first `n` representatives, longer
/// prefixes find the same one.
proof fn lemma_first_close_prefix(reps: Seq<u64>, count: u64, n: int)
    requires
        0 <= n <= reps.len(),
        first_close_group(reps.subrange(0, n), count) >= 0,
    ensures
        first_close_group(reps, count) == first_close_group(reps.subrange(0, n), count),
    decreases reps.len() - n,
{
    if n < reps.len() {
        assert(reps.subrange(0, n + 1).drop_last() =~= reps.subrange(0, n));
        lemma_first_close_prefix(reps, count, n + 1);
    } else {
        assert(reps.subrange(0, n) =~= reps);
    }
}

/// The first representative close to a count is -1 or one of them.
proof fn lemma_first_close_range(representatives: Seq<u64>, count: u64)
    ensures
        -1 <= first_close_group(representatives, count) < representatives.len(),
        first_close_group(representatives, count) >= 0 ==> within_five_percent(
            count,
            representatives[first_close_group(representatives, count)],
        ),
    decreases representatives.len(),
{
    if representatives.len() > 0 {
        lemma_first_close_range(representatives.drop_last(), count);
        let e = first_close_group(representatives.drop_last(), count);
        if e >= 0 {
            assert(representatives.drop_last()[e] == representatives[e]);
        }
    }
}

/// Every count is within 5% of itself.
pub proof fn lemma_count_close_to_itself(count: u64)
    ensures
        within_five_percent(count, count),
{
}

/// Each count's group, once all counts are grouped, is the first group
/// whose representative it is within 5% of.
proof fn lemma_group_is_first_close(counts: Seq<u64>, n: int)
    requires
        0 <= n <= counts.len(),
    ensures
        ({
            let (reps, groups) = vote_groups_prefix(counts, n);
            &&& groups.len() == n
            &&& forall|i: int|
                0 <= i < n ==> #[trigger] groups[i] == first_close_group(reps, counts[i]) && 0
                    <= groups[i] < reps.len()
        }),
    decreases n,
{
    if n > 0 {
        lemma_group_is_first_close(counts, n - 1);
        let (reps, groups) = vote_groups_prefix(counts, n - 1);
        let c = counts[n - 1];
        let g = first_close_group(reps, c);
        lemma_first_close_range(reps, c);
        let (reps2, groups2) = vote_groups_prefix(counts, n);
        if g >= 0 {
            assert(reps2 == reps && groups2 == groups.push(g));
            assert forall|i: int| 0 <= i < n implies #[trigger] groups2[i] == first_close_group(reps2, counts[i])
                && 0 <= groups2[i] < reps2.len() by {
                if i < n - 1 {
                    assert(groups2[i] == groups[i]);
                }
            }
        } else {
            assert(reps2 == reps.push(c) && groups2 == groups.push(reps.len() as int));
            assert(reps2.drop_last() =~= reps);
            lemma_count_close_to_itself(c);
            assert(first_close_group(reps2, c) == reps.len());
            assert forall|i: int| 0 <= i < n implies #[trigger] groups2[i] == first_close_group(reps2, counts[i])
                && 0 <= groups2[i] < reps2.len() by {
                if i < n - 1 {
                    assert(groups2[i] == groups[i]);
                    assert(first_close_group(reps, counts[i]) >= 0);
                }
            }
        }
    }
}

/// Equal counts always land in the same group, so identical reports pool
/// their weight; and every count's group has a representative that the
/// count is within 5% of.
pub proof fn lemma_equal_counts_share_group(counts: Seq<u64>, i: int, j: int)
    requires
        0 <= i < counts.len(),
        0 <= j < counts.len(),
    ensures
        counts[i] == counts[j] ==> vote_groups(counts).1[i] == vote_groups(counts).1[j],
        0 <= vote_groups(counts).1[i] < vote_groups(counts).0.len(),
        within_five_percent(counts[i], vote_groups(counts).0[vote_groups(counts).1[i]]),
{
    lemma_group_is_first_close(counts, counts.len() as int);
    let (reps, groups) = vote_groups(counts);
    assert(groups[i] == first_close_group(reps, counts[i]));
    assert(groups[j] == first_close_group(reps, counts[j]));
    lemma_first_close_range(reps, counts[i]);
}

/// Contributions and consumptions add up: recording `first` and then
/// `second` units from a known peer raises its count by both, leaving its
/// other evidence and every other record as they were.
pub proof fn lemma_evidence_accumulates(t: ReputationView, id: Seq<char>, first: u32, second: u32)
    requires
        distinct_records(t.peers),
        record_index(t.peers, id) >= 0,
        t.peers[record_index(t.peers, id)].contributions + first + second <= u32::MAX,
        t.peers[record_index(t.peers, id)].consumptions + first + second <= u32::MAX,
    ensures
        ({
            let i = record_index(t.peers, id);
            let given = reputation_contributed(reputation_contributed(t, id, first), id, second).peers;
            let taken = reputation_consumed(reputation_consumed(t, id, first), id, second).peers;
            &&& given.len() == t.peers.len() && taken.len() == t.peers.len()
            &&& given[i].contributions == t.peers[i].contributions + first + second
            &&& given[i].consumptions == t.peers[i].consumptions
            &&& taken[i].consumptions == t.peers[i].consumptions + first + second
            &&& taken[i].contributions == t.peers[i].contributions
            &&& given[i].reports_total == t.peers[i].reports_total
            &&& taken[i].reports_total == t.peers[i].reports_total
            &&& forall|j: int| 0 <= j < t.peers.len() && j != i ==> given[j] == t.peers[j] && taken[j] == t.peers[j]
        }),
{
    let i = record_index(t.peers, id);
    assert(t.peers[i].node_id == id);
    let g1 = reputation_contributed(t, id, first).peers;
    let c1 = reputation_consumed(t, id, first).peers;
    assert(g1[i].node_id == id && c1[i].node_id == id);
    let kg = record_index(g1, id);
    let kc = record_index(c1, id);
    assert(kg >= 0 && kc >= 0);
    assert(g1[kg].node_id == id && c1[kc].node_id == id);
    if kg != i {
        assert(t.peers[kg].node_id == g1[kg].node_id);
    }
    if kc != i {
        assert(t.peers[kc].node_id == c1[kc].node_id);
    }
}

} // verus!

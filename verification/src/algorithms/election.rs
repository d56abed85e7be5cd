//! Leader election: a reputation-weighted bully algorithm that elects a
//! single payment server from the bot pool.
//!
//! Only bots can win an election, but any node can start one when it finds
//! the current leader dead:
//!   1. The node raises its term and sends ELECTION to every live bot that
//!      outranks it (higher reputation; on a tie, the larger identifier).
//!   2. A bot that outranks the sender answers ELECTION_OK, and the sender
//!      backs off.
//!   3. A bot that finds no live bot above it declares itself leader.
//!   4. The leader's COORDINATOR message makes every node a follower.
//!
//! Term numbers keep a stale election from overriding a newer one: a node
//! ignores a COORDINATOR whose term is below its own, and its term never
//! goes down.
//!
//! Reputations are floating-point scores, so whether one node outranks
//! another is decided by the caller and handed in as a `bool`. Times are
//! milliseconds on a monotonic clock that the caller reads.

use vstd::prelude::*;

use crate::node::{ids_view, Id};

verus! {

/// The role a node plays in an election.
#[derive(Debug, Clone, Copy, PartialEq, Eq, Structural, PartialOrd, Ord, Hash)]
pub enum ElectionStatus {
    Follower,
    Candidate,
    Leader,
}

/// The printed name of a role.
pub open spec fn election_label(status: ElectionStatus) -> Seq<char> {
    match status {
        ElectionStatus::Follower => "FOLLOWER"@,
        ElectionStatus::Candidate => "CANDIDATE"@,
        ElectionStatus::Leader => "LEADER"@,
    }
}

impl ElectionStatus {
    /// The printed name of the role: `FOLLOWER`, `CANDIDATE` or `LEADER`.
    pub fn label(&self) -> (r: &'static str)
        ensures
            r@ == election_label(*self),
    {
        match *self {
            ElectionStatus::Follower => "FOLLOWER",
            ElectionStatus::Candidate => "CANDIDATE",
            ElectionStatus::Leader => "LEADER",
        }
    }
}

/// How long a candidate waits for an ELECTION_OK, in milliseconds.
pub const ELECTION_TIMEOUT_MS: u64 = 8000;

/// How long a leader may stay out of the live set before it is declared
/// dead, in milliseconds.
pub const LEADER_TIMEOUT_MS: u64 = 15000;

/// A node's part in leader elections.
#[derive(Debug, Clone)]
pub struct ElectionNode {
    node_id: Id,
    bot_ids: Vec<Id>,
    is_bot: bool,
    state: ElectionStatus,
    current_leader: Option<Id>,
    term: u64,
    election_in_progress: bool,
    election_start: u64,
    got_ok: bool,
    election_timeout: u64,
    last_leader_contact: u64,
    leader_timeout: u64,
}

/// The plain values an `ElectionNode` holds.
pub struct ElectionView {
    pub node_id: Seq<char>,
    pub bot_ids: Seq<Seq<char>>,
    pub is_bot: bool,
    pub state: ElectionStatus,
    pub current_leader: Option<Seq<char>>,
    pub term: u64,
    pub election_in_progress: bool,
    pub election_start: u64,
    pub got_ok: bool,
    pub election_timeout: u64,
    pub last_leader_contact: u64,
    pub leader_timeout: u64,
}

/// The identifier held in an optional identifier.
pub open spec fn optional_id_view(o: Option<Id>) -> Option<Seq<char>> {
    match o {
        Some(id) => Some(id@),
        None => None,
    }
}

impl View for ElectionNode {
    type V = ElectionView;

    closed spec fn view(&self) -> ElectionView {
        ElectionView {
            node_id: self.node_id@,
            bot_ids: ids_view(self.bot_ids@),
            is_bot: self.is_bot,
            state: self.state,
            current_leader: optional_id_view(self.current_leader),
            term: self.term,
            election_in_progress: self.election_in_progress,
            election_start: self.election_start,
            got_ok: self.got_ok,
            election_timeout: self.election_timeout,
            last_leader_contact: self.last_leader_contact,
            leader_timeout: self.leader_timeout,
        }
    }
}

/// The bots among the first `n` of `bots` that an election started by `me`
/// challenges: those other than `me` that are alive and outrank `me`, in
/// order.
pub open spec fn challenged_prefix(
    bots: Seq<Seq<char>>,
    me: Seq<char>,
    alive: Seq<Seq<char>>,
    outranks_me: Seq<bool>,
    n: int,
) -> Seq<Seq<char>>
    decreases n,
{
    if n <= 0 {
        Seq::empty()
    } else {
        let before = challenged_prefix(bots, me, alive, outranks_me, n - 1);
        if bots[n - 1] != me && alive.contains(bots[n - 1]) && outranks_me[n - 1] {
            before.push(bots[n - 1])
        } else {
            before
        }
    }
}

/// The bots that an election started by `me` challenges.
pub open spec fn challenged(
    bots: Seq<Seq<char>>,
    me: Seq<char>,
    alive: Seq<Seq<char>>,
    outranks_me: Seq<bool>,
) -> Seq<Seq<char>> {
    challenged_prefix(bots, me, alive, outranks_me, bots.len() as int)
}

/// The plain values of a list of ELECTION messages to send: each target and
/// the term.
pub open spec fn challenges_view(c: Seq<(Id, u64)>) -> Seq<(Seq<char>, u64)> {
    c.map_values(|e: (Id, u64)| (e.0@, e.1))
}

/// The ELECTION messages for `targets`, all carrying `term`.
pub open spec fn challenges_for(targets: Seq<Seq<char>>, term: u64) -> Seq<(Seq<char>, u64)> {
    targets.map_values(|id: Seq<char>| (id, term))
}

/// What a COORDINATOR from `sender` for `term`, received at `now`, does to a
/// node: it is accepted when its term is not below the node's own, and then
/// `sender` becomes the leader and the node a follower; a stale one changes
/// nothing.
pub open spec fn after_coordinator(v: ElectionView, sender: Seq<char>, term: u64, now: u64) -> (
    ElectionView,
    bool,
) {
    if term < v.term {
        (v, false)
    } else {
        (
            ElectionView {
                term,
                current_leader: Some(sender),
                state: ElectionStatus::Follower,
                election_in_progress: false,
                last_leader_contact: now,
                ..v
            },
            true,
        )
    }
}

/// `id` is one of `ids`.
fn contains_id(ids: &Vec<Id>, id: &Id) -> (r: bool)
    ensures
        r == ids_view(ids@).contains(id@),
{
    let mut i: usize = 0;
    while i < ids.len()
        invariant
            i <= ids@.len(),
            forall|j: int| 0 <= j < i ==> ids@[j]@ != id@,
        decreases ids@.len() - i,
    {
        if ids[i] == *id {
            assert(ids_view(ids@)[i as int] == id@);
            return true;
        }
        i = i + 1;
    }
    assert forall|j: int| 0 <= j < ids_view(ids@).len() implies ids_view(ids@)[j] != id@ by {
        assert(ids_view(ids@)[j] == ids@[j]@);
    }
    false
}

impl ElectionNode {
    /// A follower with no known leader at term 0, created at `now`. It is a
    /// bot exactly when `node_id` is one of `bot_ids`.
    pub fn new(node_id: Id, bot_ids: Vec<Id>, now: u64) -> (r: ElectionNode)
        ensures
            r@.node_id == node_id@,
            r@.bot_ids == ids_view(bot_ids@),
            r@.is_bot == ids_view(bot_ids@).contains(node_id@),
            r@.state == ElectionStatus::Follower,
            r@.current_leader == None::<Seq<char>>,
            r@.term == 0,
            !r@.election_in_progress,
            r@.election_start == now,
            !r@.got_ok,
            r@.election_timeout == ELECTION_TIMEOUT_MS,
            r@.last_leader_contact == now,
            r@.leader_timeout == LEADER_TIMEOUT_MS,
    {
        let is_bot = contains_id(&bot_ids, &node_id);
        ElectionNode {
            node_id,
            bot_ids,
            is_bot,
            state: ElectionStatus::Follower,
            current_leader: None,
            term: 0,
            election_in_progress: false,
            election_start: now,
            got_ok: false,
            election_timeout: ELECTION_TIMEOUT_MS,
            last_leader_contact: now,
            leader_timeout: LEADER_TIMEOUT_MS,
        }
    }

    /// Whether an election is needed. Never while one is in progress; always
    /// when no leader is known. Otherwise: when the leader is in `alive`,
    /// the contact time becomes `now` and no election is needed; when it is
    /// not, one is needed once more than the leader timeout has passed since
    /// the last contact.
    pub fn check_leader(&mut self, alive: &Vec<Id>, now: u64) -> (r: bool)
        ensures
            r == (!old(self)@.election_in_progress && match old(self)@.current_leader {
                None => true,
                Some(leader) => !ids_view(alive@).contains(leader) && now
                    > old(self)@.last_leader_contact && now - old(self)@.last_leader_contact
                    > old(self)@.leader_timeout,
            }),
            final(self)@ == (if !old(self)@.election_in_progress && old(
                self,
            )@.current_leader is Some && ids_view(alive@).contains(
                old(self)@.current_leader->0,
            ) {
                ElectionView { last_leader_contact: now, ..old(self)@ }
            } else {
                old(self)@
            }),
    {
        if self.election_in_progress {
            return false;
        }
        match &self.current_leader {
            None => true,
            Some(leader) => {
                if contains_id(alive, leader) {
                    self.last_leader_contact = now;
                    false
                } else {
                    now > self.last_leader_contact && now - self.last_leader_contact
                        > self.leader_timeout
                }
            },
        }
    }

    /// Starts an election at `now` under the next term. `alive` is the set
    /// of live nodes and `outranks_me[i]` says whether bot `i` outranks this
    /// node. Returns the ELECTION messages to send, as (target, term): one
    /// for each bot other than this node that is alive and outranks it, in
    /// the order of the bot list. A bot that challenges nobody becomes the
    /// leader at once; otherwise the node is a candidate waiting for an
    /// answer.
    pub fn start_election(&mut self, alive: &Vec<Id>, outranks_me: &Vec<bool>, now: u64) -> (r: Vec<
        (Id, u64),
    >)
        requires
            old(self)@.term < u64::MAX,
            outranks_me@.len() == old(self)@.bot_ids.len(),
        ensures
            challenges_view(r@) == challenges_for(
                challenged(old(self)@.bot_ids, old(self)@.node_id, ids_view(alive@), outranks_me@),
                (old(self)@.term + 1) as u64,
            ),
            forall|k: int|
                #![trigger r@[k]]
                0 <= k < r@.len() ==> exists|i: int|
                    #![trigger old(self)@.bot_ids[i]]
                    0 <= i < old(self)@.bot_ids.len() && old(self)@.bot_ids[i] == r@[k].0@ && r@[k].0@
                        != old(self)@.node_id && ids_view(alive@).contains(r@[k].0@) && outranks_me@[i],
            forall|i: int|
                0 <= i < old(self)@.bot_ids.len() && #[trigger] old(self)@.bot_ids[i] != old(self)@.node_id
                    && ids_view(alive@).contains(old(self)@.bot_ids[i]) && outranks_me@[i] ==> exists|k: int|
                    0 <= k < r@.len() && r@[k].0@ == old(self)@.bot_ids[i],
            final(self)@ == (if r@.len() == 0 && old(self)@.is_bot {
                ElectionView {
                    term: (old(self)@.term + 1) as u64,
                    state: ElectionStatus::Leader,
                    current_leader: Some(old(self)@.node_id),
                    election_in_progress: false,
                    election_start: now,
                    got_ok: false,
                    last_leader_contact: now,
                    ..old(self)@
                }
            } else {
                ElectionView {
                    term: (old(self)@.term + 1) as u64,
                    state: ElectionStatus::Candidate,
                    election_in_progress: true,
                    election_start: now,
                    got_ok: false,
                    ..old(self)@
                }
            }),
    {
        self.term = self.term + 1;
        self.state = ElectionStatus::Candidate;
        self.election_in_progress = true;
        self.election_start = now;
        self.got_ok = false;
        let ghost bots = ids_view(self.bot_ids@);
        let ghost me = self.node_id@;
        let ghost live = ids_view(alive@);
        let mut outgoing: Vec<(Id, u64)> = Vec::new();
        let mut i: usize = 0;
        while i < self.bot_ids.len()
            invariant
                i <= self.bot_ids@.len(),
                bots == ids_view(self.bot_ids@),
                me == self.node_id@,
                live == ids_view(alive@),
                outranks_me@.len() == self.bot_ids@.len(),
                challenges_view(outgoing@) == challenges_for(
                    challenged_prefix(bots, me, live, outranks_me@, i as int),
                    self.term,
                ),
            decreases self.bot_ids@.len() - i,
        {
            let bot = &self.bot_ids[i];
            assert(bots[i as int] == bot@);
            let ghost prev = outgoing@;
            if *bot != self.node_id && contains_id(alive, bot) && outranks_me[i] {
                outgoing.push((bot.clone(), self.term));
                assert(challenges_view(outgoing@) =~= challenges_view(prev).push((bot@, self.term)));
            }
            i = i + 1;
            assert(challenges_view(outgoing@) =~= challenges_for(
                challenged_prefix(bots, me, live, outranks_me@, i as int),
                self.term,
            ));
        }
        proof {
            let targets = challenged(bots, me, live, outranks_me@);
            assert(challenged_prefix(bots, me, live, outranks_me@, self.bot_ids@.len() as int) == targets);
            assert forall|k: int| #![trigger outgoing@[k]] 0 <= k < outgoing@.len() implies exists|i: int|
                #![trigger old(self)@.bot_ids[i]]
                0 <= i < old(self)@.bot_ids.len() && old(self)@.bot_ids[i] == outgoing@[k].0@
                    && outgoing@[k].0@ != old(self)@.node_id && ids_view(alive@).contains(outgoing@[k].0@)
                    && outranks_me@[i] by {
                let id = outgoing@[k].0@;
                lemma_challenged_are_the_live_higher_bots(bots, me, live, outranks_me@, id);
                assert(challenges_view(outgoing@)[k] == challenges_for(targets, self.term)[k]);
                assert(targets[k] == id);
                let i = choose|i: int|
                    0 <= i < bots.len() && #[trigger] bots[i] == id && id != me && live.contains(id)
                        && outranks_me@[i];
                assert(old(self)@.bot_ids[i] == id);
            }
            assert forall|i: int|
                0 <= i < old(self)@.bot_ids.len() && #[trigger] old(self)@.bot_ids[i] != old(self)@.node_id
                    && ids_view(alive@).contains(old(self)@.bot_ids[i]) && outranks_me@[i]
                implies exists|k: int| 0 <= k < outgoing@.len() && outgoing@[k].0@ == old(self)@.bot_ids[i] by {
                let id = bots[i];
                lemma_challenged_are_the_live_higher_bots(bots, me, live, outranks_me@, id);
                let k = choose|k: int| 0 <= k < targets.len() && targets[k] == id;
                assert(challenges_view(outgoing@)[k] == challenges_for(targets, self.term)[k]);
                assert(outgoing@[k].0@ == id);
            }
        }
        if outgoing.len() == 0 && self.is_bot {
            self.state = ElectionStatus::Leader;
            self.current_leader = Some(self.node_id.clone());
            self.election_in_progress = false;
            self.last_leader_contact = now;
        }
        outgoing
    }

    /// Handles an ELECTION from `sender` for `term`, received at `now`;
    /// `i_outrank` says whether this node outranks the sender. The node's
    /// term rises to `term` if that is higher. A bot that outranks the
    /// sender answers ELECTION_OK, as (sender, its term), and joins the
    /// election as a candidate if it was not running one; otherwise there is
    /// no answer.
    pub fn receive_election(&mut self, sender: Id, term: u64, i_outrank: bool, now: u64) -> (r:
        Option<(Id, u64)>)
        ensures
            ({
                let raised = ElectionView {
                    term: if term > old(self)@.term { term } else { old(self)@.term },
                    ..old(self)@
                };
                if old(self)@.is_bot && i_outrank {
                    &&& r matches Some(answer) && answer.0@ == sender@ && answer.1 == raised.term
                    &&& final(self)@ == (if old(self)@.election_in_progress {
                        raised
                    } else {
                        ElectionView {
                            election_in_progress: true,
                            election_start: now,
                            got_ok: false,
                            state: ElectionStatus::Candidate,
                            ..raised
                        }
                    })
                } else {
                    &&& r is None
                    &&& final(self)@ == raised
                }
            }),
    {
        if term > self.term {
            self.term = term;
        }
        if self.is_bot && i_outrank {
            if !self.election_in_progress {
                self.election_in_progress = true;
                self.election_start = now;
                self.got_ok = false;
                self.state = ElectionStatus::Candidate;
            }
            return Some((sender, self.term));
        }
        None
    }

    /// Handles an ELECTION_OK from a bot that outranks this node: that bot
    /// is alive, so the node backs off. The sender and its term change
    /// nothing else.
    pub fn receive_election_ok(&mut self, _sender: &Id, _term: u64)
        ensures
            final(self)@ == (ElectionView { got_ok: true, ..old(self)@ }),
    {
        self.got_ok = true;
    }

    /// Handles a COORDINATOR from `sender` for `term`, received at `now`.
    /// Returns whether it was accepted: exactly when `term` is not below the
    /// node's own term. Then `sender` is the leader, the term becomes
    /// `term`, the node is a follower and no election is in progress; a
    /// stale COORDINATOR changes nothing.
    pub fn receive_coordinator(&mut self, sender: Id, term: u64, now: u64) -> (r: bool)
        ensures
            r == (term >= old(self)@.term),
            (final(self)@, r) == after_coordinator(old(self)@, sender@, term, now),
    {
        if term < self.term {
            false
        } else {
            self.term = term;
            self.current_leader = Some(sender);
            self.state = ElectionStatus::Follower;
            self.election_in_progress = false;
            self.last_leader_contact = now;
            true
        }
    }

    /// The node's role.
    pub fn state(&self) -> (r: ElectionStatus)
        ensures
            r == self@.state,
    {
        self.state
    }

    /// The current term.
    pub fn term(&self) -> (r: u64)
        ensures
            r == self@.term,
    {
        self.term
    }

    /// The leader this node follows, if it knows one.
    pub fn current_leader(&self) -> (r: Option<&Id>)
        ensures
            match r {
                Some(id) => self@.current_leader == Some(id@),
                None => self@.current_leader is None,
            },
    {
        match &self.current_leader {
            Some(id) => Some(id),
            None => None,
        }
    }

    /// Whether this node can win elections.
    pub fn is_bot(&self) -> (r: bool)
        ensures
            r == self@.is_bot,
    {
        self.is_bot
    }

    /// Whether an election this node takes part in is running.
    pub fn election_in_progress(&self) -> (r: bool)
        ensures
            r == self@.election_in_progress,
    {
        self.election_in_progress
    }

    /// Whether a bot that outranks this node has answered its election.
    pub fn got_ok(&self) -> (r: bool)
        ensures
            r == self@.got_ok,
    {
        self.got_ok
    }
}

/// Terms keep a stale election from overriding a newer one: once a node has
/// accepted a COORDINATOR for some term, a COORDINATOR for a lower term is
/// refused and leaves the node as it was.
pub proof fn lemma_stale_coordinator_refused(
    v: ElectionView,
    newer: Seq<char>,
    newer_term: u64,
    older: Seq<char>,
    older_term: u64,
    t1: u64,
    t2: u64,
)
    requires
        older_term < newer_term,
        after_coordinator(v, newer, newer_term, t1).1,
    ensures
        ({
            let accepted = after_coordinator(v, newer, newer_term, t1).0;
            &&& accepted.current_leader == Some(newer)
            &&& after_coordinator(accepted, older, older_term, t2) == (accepted, false)
        }),
{
}

/// An election challenges exactly the right bots: an identifier is among the
/// targets if and only if it is in the bot list at some position, is not
/// the node itself, is alive, and the bot at that position outranks the
/// node.
pub proof fn lemma_challenged_are_the_live_higher_bots(
    bots: Seq<Seq<char>>,
    me: Seq<char>,
    alive: Seq<Seq<char>>,
    outranks_me: Seq<bool>,
    id: Seq<char>,
)
    requires
        outranks_me.len() == bots.len(),
    ensures
        challenged(bots, me, alive, outranks_me).contains(id) <==> exists|i: int|
            0 <= i < bots.len() && #[trigger] bots[i] == id && id != me && alive.contains(id)
                && outranks_me[i],
{
    lemma_challenged_prefix_members(bots, me, alive, outranks_me, id, bots.len() as int);
}

proof fn lemma_challenged_prefix_members(
    bots: Seq<Seq<char>>,
    me: Seq<char>,
    alive: Seq<Seq<char>>,
    outranks_me: Seq<bool>,
    id: Seq<char>,
    n: int,
)
    requires
        0 <= n <= bots.len(),
        outranks_me.len() == bots.len(),
    ensures
        challenged_prefix(bots, me, alive, outranks_me, n).contains(id) <==> exists|i: int|
            0 <= i < n && #[trigger] bots[i] == id && id != me && alive.contains(id)
                && outranks_me[i],
    decreases n,
{
    if n > 0 {
        lemma_challenged_prefix_members(bots, me, alive, outranks_me, id, n - 1);
        let before = challenged_prefix(bots, me, alive, outranks_me, n - 1);
        let now = challenged_prefix(bots, me, alive, outranks_me, n);
        let k = n - 1;
        if bots[k] != me && alive.contains(bots[k]) && outranks_me[k] {
            assert(now == before.push(bots[k]));
            if now.contains(id) {
                let j = choose|j: int| 0 <= j < now.len() && now[j] == id;
                if j < before.len() {
                    assert(before[j] == id);
                } else {
                    assert(bots[k] == id);
                }
            }
            if exists|i: int| 0 <= i < n && #[trigger] bots[i] == id && id != me && alive.contains(id)
                && outranks_me[i] {
                let i = choose|i: int| 0 <= i < n && #[trigger] bots[i] == id && id != me && alive.contains(
                    id,
                ) && outranks_me[i];
                if i < k {
                    let j = choose|j: int| 0 <= j < before.len() && before[j] == id;
                    assert(now[j] == id);
                } else {
                    assert(now[before.len() as int] == id);
                }
            }
        } else {
            assert(now == before);
            if exists|i: int| 0 <= i < n && #[trigger] bots[i] == id && id != me && alive.contains(id)
                && outranks_me[i] {
                let i = choose|i: int| 0 <= i < n && #[trigger] bots[i] == id && id != me && alive.contains(
                    id,
                ) && outranks_me[i];
                assert(i != k);
            }
        }
    }
}

} // verus!

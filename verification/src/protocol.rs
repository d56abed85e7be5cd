//! The peer-to-peer message protocol.
//!
//! Every message has:
//!   - a type:      one of the `MessageKind`s
//!   - a sender:    node_id of the sender
//!   - a timestamp: the UTC instant it was made
//!   - a msg_id:    a random UUID
//!
//! Type-specific fields are documented on each message type.

use vstd::prelude::*;

use crate::node::Id;

verus! {

/// The kinds of message nodes exchange.
#[derive(Debug, Clone, Copy, PartialEq, Eq, Structural, PartialOrd, Ord, Hash)]
pub enum MessageKind {
    Hello,
    PeerList,
    Ping,
    Pong,
    ViewEvent,
    AuditResult,
    Choke,
    Unchoke,
}

/// The name of a kind on the wire.
pub open spec fn wire_name(kind: MessageKind) -> Seq<char> {
    match kind {
        MessageKind::Hello => "HELLO"@,
        MessageKind::PeerList => "PEER_LIST"@,
        MessageKind::Ping => "PING"@,
        MessageKind::Pong => "PONG"@,
        MessageKind::ViewEvent => "VIEW_EVENT"@,
        MessageKind::AuditResult => "AUDIT_RESULT"@,
        MessageKind::Choke => "CHOKE"@,
        MessageKind::Unchoke => "UNCHOKE"@,
    }
}

/// The kind whose wire name is exactly `s`, if any.
pub open spec fn kind_named(s: Seq<char>) -> Option<MessageKind> {
    if s == "HELLO"@ {
        Some(MessageKind::Hello)
    } else if s == "PEER_LIST"@ {
        Some(MessageKind::PeerList)
    } else if s == "PING"@ {
        Some(MessageKind::Ping)
    } else if s == "PONG"@ {
        Some(MessageKind::Pong)
    } else if s == "VIEW_EVENT"@ {
        Some(MessageKind::ViewEvent)
    } else if s == "AUDIT_RESULT"@ {
        Some(MessageKind::AuditResult)
    } else if s == "CHOKE"@ {
        Some(MessageKind::Choke)
    } else if s == "UNCHOKE"@ {
        Some(MessageKind::Unchoke)
    } else {
        None
    }
}

/// Whether `c` has the Unicode `White_Space` property (what
/// `char::is_whitespace` tests).
pub open spec fn is_white_space(c: char) -> bool {
    let n = c as u32;
    ||| 0x9 <= n <= 0xD
    ||| n == 0x20
    ||| n == 0x85
    ||| n == 0xA0
    ||| n == 0x1680
    ||| 0x2000 <= n <= 0x200A
    ||| n == 0x2028
    ||| n == 0x2029
    ||| n == 0x202F
    ||| n == 0x205F
    ||| n == 0x3000
}

/// `s` without its leading white space.
pub open spec fn trim_start_text(s: Seq<char>) -> Seq<char>
    decreases s.len(),
{
    if s.len() > 0 && is_white_space(s[0]) {
        trim_start_text(s.drop_first())
    } else {
        s
    }
}

/// `s` without its trailing white space.
pub open spec fn trim_end_text(s: Seq<char>) -> Seq<char>
    decreases s.len(),
{
    if s.len() > 0 && is_white_space(s.last()) {
        trim_end_text(s.drop_last())
    } else {
        s
    }
}

/// `s` without its leading and trailing white space.
pub open spec fn trimmed(s: Seq<char>) -> Seq<char> {
    trim_end_text(trim_start_text(s))
}

/// Whether `c` is white space, as `is_white_space` defines it.
fn white_space(c: char) -> (r: bool)
    ensures
        r == is_white_space(c),
{
    let n = c as u32;
    (0x9 <= n && n <= 0xD) || n == 0x20 || n == 0x85 || n == 0xA0 || n == 0x1680 || (0x2000 <= n
        && n <= 0x200A) || n == 0x2028 || n == 0x2029 || n == 0x202F || n == 0x205F || n == 0x3000
}

/// Dropping leading white space from `s` is dropping it from what is left
/// after its first `k` characters, when those are all white space.
proof fn lemma_trim_start_skip(s: Seq<char>, k: int)
    requires
        0 <= k <= s.len(),
        forall|i: int| 0 <= i < k ==> is_white_space(#[trigger] s[i]),
    ensures
        trim_start_text(s) == trim_start_text(s.subrange(k, s.len() as int)),
    decreases k,
{
    if k > 0 {
        assert(s.drop_first().subrange(k - 1, s.drop_first().len() as int) =~= s.subrange(
            k,
            s.len() as int,
        ));
        lemma_trim_start_skip(s.drop_first(), k - 1);
    } else {
        assert(s.subrange(0, s.len() as int) =~= s);
    }
}

/// Dropping trailing white space from `s` is dropping it from its first `k`
/// characters, when the ones after them are all white space.
proof fn lemma_trim_end_skip(s: Seq<char>, k: int)
    requires
        0 <= k <= s.len(),
        forall|i: int| k <= i < s.len() ==> is_white_space(#[trigger] s[i]),
    ensures
        trim_end_text(s) == trim_end_text(s.subrange(0, k)),
    decreases s.len() - k,
{
    if k < s.len() {
        assert(s.drop_last().subrange(0, k) =~= s.subrange(0, k));
        lemma_trim_end_skip(s.drop_last(), k);
    } else {
        assert(s.subrange(0, k) =~= s);
    }
}

/// `s` without its leading and trailing white space, as `str::trim` gives
/// it.
fn trim_str(s: &str) -> (r: &str)
    ensures
        r@ == trimmed(s@),
{
    let n = s.unicode_len();
    let mut start: usize = 0;
    while start < n && white_space(s.get_char(start))
        invariant
            start <= n,
            n == s@.len(),
            forall|i: int| 0 <= i < start ==> is_white_space(#[trigger] s@[i]),
        decreases n - start,
    {
        start = start + 1;
    }
    let ghost rest = s@.subrange(start as int, n as int);
    proof {
        lemma_trim_start_skip(s@, start as int);
        if start < n {
            assert(rest[0] == s@[start as int]);
            assert(trim_start_text(rest) == rest);
        } else {
            assert(rest.len() == 0);
        }
    }
    let mut end: usize = n;
    while end > start && white_space(s.get_char(end - 1))
        invariant
            start <= end <= n,
            n == s@.len(),
            forall|i: int| end <= i < n ==> is_white_space(#[trigger] s@[i]),
        decreases end - start,
    {
        end = end - 1;
    }
    proof {
        assert forall|i: int| end - start <= i < rest.len() implies is_white_space(#[trigger] rest[i]) by {
            assert(rest[i] == s@[start + i]);
        }
        lemma_trim_end_skip(rest, end - start);
        let kept = rest.subrange(0, end - start);
        assert(kept =~= s@.subrange(start as int, end as int));
        if end > start {
            assert(kept.last() == s@[end - 1]);
        }
        assert(trim_end_text(kept) == kept);
    }
    s.substring_char(start, end)
}

fn text_is(s: &String, lit: &str) -> (r: bool)
    ensures
        r == (s@ == lit@),
{
    *s == lit.to_owned()
}

impl MessageKind {
    /// The kind's name on the wire, such as `HELLO` or `PEER_LIST`.
    pub fn wire_name(&self) -> (r: &'static str)
        ensures
            r@ == wire_name(*self),
    {
        match *self {
            MessageKind::Hello => "HELLO",
            MessageKind::PeerList => "PEER_LIST",
            MessageKind::Ping => "PING",
            MessageKind::Pong => "PONG",
            MessageKind::ViewEvent => "VIEW_EVENT",
            MessageKind::AuditResult => "AUDIT_RESULT",
            MessageKind::Choke => "CHOKE",
            MessageKind::Unchoke => "UNCHOKE",
        }
    }

    /// The kind whose wire name is exactly `s`, if any.
    pub fn from_wire(s: &str) -> (r: Option<MessageKind>)
        ensures
            r == kind_named(s@),
    {
        let owned = s.to_owned();
        if text_is(&owned, "HELLO") {
            Some(MessageKind::Hello)
        } else if text_is(&owned, "PEER_LIST") {
            Some(MessageKind::PeerList)
        } else if text_is(&owned, "PING") {
            Some(MessageKind::Ping)
        } else if text_is(&owned, "PONG") {
            Some(MessageKind::Pong)
        } else if text_is(&owned, "VIEW_EVENT") {
            Some(MessageKind::ViewEvent)
        } else if text_is(&owned, "AUDIT_RESULT") {
            Some(MessageKind::AuditResult)
        } else if text_is(&owned, "CHOKE") {
            Some(MessageKind::Choke)
        } else if text_is(&owned, "UNCHOKE") {
            Some(MessageKind::Unchoke)
        } else {
            None
        }
    }

    /// Parses a wire name, ignoring leading and trailing white space.
    pub fn parse(s: &str) -> (r: Option<MessageKind>)
        ensures
            r == kind_named(trimmed(s@)),
    {
        MessageKind::from_wire(trim_str(s))
    }
}

/// Every kind's wire name reads back as that kind, also when parsed (it
/// has no white space to trim); no two kinds share a name.
pub proof fn lemma_wire_name_round_trip(kind: MessageKind, other: MessageKind)
    ensures
        kind_named(wire_name(kind)) == Some(kind),
        kind_named(trimmed(wire_name(kind))) == Some(kind),
        wire_name(kind) == wire_name(other) ==> kind == other,
{
    reveal_strlit("HELLO");
    reveal_strlit("PEER_LIST");
    reveal_strlit("PING");
    reveal_strlit("PONG");
    reveal_strlit("VIEW_EVENT");
    reveal_strlit("AUDIT_RESULT");
    reveal_strlit("CHOKE");
    reveal_strlit("UNCHOKE");
    let names = seq![
        "HELLO"@,
        "PEER_LIST"@,
        "PING"@,
        "PONG"@,
        "VIEW_EVENT"@,
        "AUDIT_RESULT"@,
        "CHOKE"@,
        "UNCHOKE"@,
    ];
    assert forall|i: int, j: int| 0 <= i < j < 8 implies names[i] != names[j] by {
        if names[i].len() == names[j].len() {
            if names[i] == "PING"@ {
                assert(names[i][1] != names[j][1]);
            } else {
                assert(names[i][0] != names[j][0]);
            }
        }
    }
    assert(names[0] == wire_name(MessageKind::Hello));
    assert(names[1] == wire_name(MessageKind::PeerList));
    assert(names[2] == wire_name(MessageKind::Ping));
    assert(names[3] == wire_name(MessageKind::Pong));
    assert(names[4] == wire_name(MessageKind::ViewEvent));
    assert(names[5] == wire_name(MessageKind::AuditResult));
    assert(names[6] == wire_name(MessageKind::Choke));
    assert(names[7] == wire_name(MessageKind::Unchoke));
    let w = wire_name(kind);
    assert(!is_white_space(w[0]));
    assert(!is_white_space(w.last()));
    assert(trim_start_text(w) == w);
    assert(trim_end_text(w) == w);
}

/// What is left after removing leading white space is empty or starts with
/// a character that is not white space.
proof fn lemma_trim_start_shape(s: Seq<char>)
    ensures
        trim_start_text(s).len() == 0 || !is_white_space(trim_start_text(s)[0]),
    decreases s.len(),
{
    if s.len() > 0 && is_white_space(s[0]) {
        lemma_trim_start_shape(s.drop_first());
    }
}

/// What is left after removing trailing white space is empty or ends with a
/// character that is not white space; and a text that starts with a
/// character that is not white space keeps it.
proof fn lemma_trim_end_shape(s: Seq<char>)
    ensures
        trim_end_text(s).len() == 0 || !is_white_space(trim_end_text(s).last()),
        s.len() > 0 && !is_white_space(s[0]) ==> trim_end_text(s).len() > 0 && trim_end_text(
            s,
        )[0] == s[0],
    decreases s.len(),
{
    if s.len() > 0 && is_white_space(s.last()) {
        lemma_trim_end_shape(s.drop_last());
    }
}

/// Trimming twice is trimming once: a trimmed text has no white space left
/// at either end.
pub proof fn lemma_trimmed_idempotent(s: Seq<char>)
    ensures
        trimmed(trimmed(s)) == trimmed(s),
{
    let t = trimmed(s);
    lemma_trim_start_shape(s);
    lemma_trim_end_shape(trim_start_text(s));
    if t.len() > 0 {
        assert(!is_white_space(t[0]));
        assert(!is_white_space(t.last()));
        assert(trim_start_text(t) == t);
        assert(trim_end_text(t) == t);
    }
}

/// Parsing a kind ignores white space around it: `s` and `s` trimmed name
/// the same kind, or none.
pub proof fn lemma_kind_parse_ignores_surrounding_white_space(s: Seq<char>)
    ensures
        kind_named(trimmed(trimmed(s))) == kind_named(trimmed(s)),
{
    lemma_trimmed_idempotent(s);
}

impl core::str::FromStr for MessageKind {
    type Err = ();

    fn from_str(s: &str) -> (r: Result<MessageKind, ()>)
        ensures
            r == match kind_named(trimmed(s@)) {
                Some(kind) => Ok::<MessageKind, ()>(kind),
                None => Err::<MessageKind, ()>(()),
            },
    {
        match MessageKind::parse(s) {
            Some(kind) => Ok(kind),
            None => Err(()),
        }
    }
}

/// A peer as it is told to others: its identifier and its queue URL.
#[derive(Debug, PartialOrd, Ord, Hash)]
pub struct Peer {
    pub node_id: Id,
    pub queue_url: String,
}

/// The plain values a `Peer` holds.
pub struct PeerView {
    pub node_id: Seq<char>,
    pub queue_url: Seq<char>,
}

impl View for Peer {
    type V = PeerView;

    open spec fn view(&self) -> PeerView {
        PeerView { node_id: self.node_id@, queue_url: self.queue_url@ }
    }
}

impl Clone for Peer {
    fn clone(&self) -> (r: Self)
        ensures
            r@ == self@,
    {
        Peer { node_id: self.node_id.clone(), queue_url: self.queue_url.clone() }
    }
}

impl PartialEq for Peer {
    fn eq(&self, other: &Self) -> (r: bool) {
        self.node_id == other.node_id && self.queue_url == other.queue_url
    }
}

impl vstd::std_specs::cmp::PartialEqSpecImpl for Peer {
    open spec fn obeys_eq_spec() -> bool {
        true
    }

    open spec fn eq_spec(&self, other: &Peer) -> bool {
        self@ == other@
    }
}

impl Eq for Peer {
}

/// An instant in time, as seconds and nanoseconds since the Unix epoch
/// (1970-01-01T00:00:00Z). The nanoseconds have the sign of the seconds.
#[derive(Debug, Clone, Copy, PartialEq, Eq, Structural, PartialOrd, Ord, Default, Hash)]
pub struct Timestamp {
    second: i64,
    nanosecond: i32,
}

impl Timestamp {
    /// The instant `second` seconds and `nanosecond` nanoseconds after the epoch.
    pub fn from_parts(second: i64, nanosecond: i32) -> (r: Timestamp)
        ensures
            r.second() == second,
            r.nanosecond() == nanosecond,
    {
        Timestamp { second, nanosecond }
    }

    /// Whole seconds since the epoch.
    pub closed spec fn second(self) -> i64 {
        self.second
    }

    /// The fraction of a second, in nanoseconds.
    pub closed spec fn nanosecond(self) -> i32 {
        self.nanosecond
    }

    /// Whole seconds since the epoch.
    pub fn as_second(&self) -> (r: i64)
        ensures
            r == self.second(),
    {
        self.second
    }

    /// The fraction of a second, in nanoseconds.
    pub fn subsec_nanosecond(&self) -> (r: i32)
        ensures
            r == self.nanosecond(),
    {
        self.nanosecond
    }

    /// The current time, read with `jiff::Timestamp::now`.
    ///
    /// Claimed of the outside code: the fraction of a second lies strictly
    /// between -1 and 1 second, and it never has the opposite sign of the
    /// whole seconds (jiff keeps both parts of a timestamp on one side of
    /// zero). Which instant comes back rests on the clock
    /// and is left open. `jiff::Timestamp::now` panics when the system clock
    /// lies outside the years -9999 to 9999; that is not excluded here. (The
    /// instant is the same one that converting to the UTC zone and back
    /// gives.)
    #[verifier::external_body]
    pub fn now() -> (r: Timestamp)
        ensures
            -1_000_000_000 < r.nanosecond() < 1_000_000_000,
            r.second() > 0 ==> r.nanosecond() >= 0,
            r.second() < 0 ==> r.nanosecond() <= 0,
    {
        let now = jiff::Timestamp::now();
        Timestamp { second: now.as_second(), nanosecond: now.subsec_nanosecond() }
    }
}

/// A digit of lower-case hexadecimal: `0`-`9` or `a`-`f`.
pub open spec fn is_lower_hex_digit(c: char) -> bool {
    let n = c as u32;
    (0x30 <= n <= 0x39) || (0x61 <= n <= 0x66)
}

/// The hyphenated lower-case text of a version 4 UUID: 36 characters, 32
/// hexadecimal digits in groups of 8, 4, 4, 4 and 12 split by hyphens, with
/// the version digit `4` and a variant digit of `8`, `9`, `a` or `b`.
pub open spec fn is_v4_uuid_text(s: Seq<char>) -> bool {
    &&& s.len() == 36
    &&& forall|i: int|
        0 <= i < 36 ==> if i == 8 || i == 13 || i == 18 || i == 23 {
            s[i] == '-'
        } else {
            is_lower_hex_digit(#[trigger] s[i])
        }
    &&& s[14] == '4'
    &&& (s[19] == '8' || s[19] == '9' || s[19] == 'a' || s[19] == 'b')
}

/// A fresh message identifier: a random version 4 UUID, made with
/// `uuid::Uuid::new_v4` and written in its hyphenated form.
///
/// Claimed of the outside code: `new_v4` sets the version and variant bits
/// of a random number, and its `Display` form is the hyphenated lower-case
/// hexadecimal text, so the result is the text of a version 4 UUID. Which
/// identifier comes back rests on chance and is left open.
#[verifier::external_body]
pub fn new_message_id() -> (r: String)
    ensures
        r@.len() == 36,
        is_v4_uuid_text(r@),
{
    uuid::Uuid::new_v4().to_string()
}

/// A node announcing itself and the queue it listens on.
#[derive(Debug, PartialEq, Eq, PartialOrd, Ord, Default, Hash)]
pub struct Hello {
    sender: Id,
    timestamp: Timestamp,
    msg_id: String,
    queue_url: String,
}

/// The plain values a `Hello` holds.
pub struct HelloView {
    pub sender: Seq<char>,
    pub timestamp: Timestamp,
    pub msg_id: Seq<char>,
    pub queue_url: Seq<char>,
}

impl View for Hello {
    type V = HelloView;

    open spec fn view(&self) -> HelloView {
        HelloView {
            sender: self.sender_view(),
            timestamp: self.timestamp_view(),
            msg_id: self.msg_id_view(),
            queue_url: self.queue_url_view(),
        }
    }
}

impl Clone for Hello {
    fn clone(&self) -> (r: Self)
        ensures
            r@ == self@,
    {
        Hello {
            sender: self.sender.clone(),
            timestamp: self.timestamp,
            msg_id: self.msg_id.clone(),
            queue_url: self.queue_url.clone(),
        }
    }
}

impl Hello {
    /// The message's sender.
    pub closed spec fn sender_view(&self) -> Seq<char> {
        self.sender@
    }

    /// The message's time.
    pub closed spec fn timestamp_view(&self) -> Timestamp {
        self.timestamp
    }

    /// The message's identifier.
    pub closed spec fn msg_id_view(&self) -> Seq<char> {
        self.msg_id@
    }

    /// The sender's queue URL.
    pub closed spec fn queue_url_view(&self) -> Seq<char> {
        self.queue_url@
    }

    /// A HELLO from `sender`, stamped now with a fresh identifier.
    pub fn new(sender: Id, queue_url: String) -> (r: Hello)
        ensures
            r.sender_view() == sender@,
            r.queue_url_view() == queue_url@,
            is_v4_uuid_text(r.msg_id_view()),
    {
        Hello { sender, timestamp: Timestamp::now(), msg_id: new_message_id(), queue_url }
    }

    /// A HELLO with every field given.
    pub fn from_parts(sender: Id, timestamp: Timestamp, msg_id: String, queue_url: String) -> (r:
        Hello)
        ensures
            r.sender_view() == sender@,
            r.timestamp_view() == timestamp,
            r.msg_id_view() == msg_id@,
            r.queue_url_view() == queue_url@,
    {
        Hello { sender, timestamp, msg_id, queue_url }
    }

    /// The message's sender.
    pub fn sender(&self) -> (r: &Id)
        ensures
            r@ == self.sender_view(),
    {
        &self.sender
    }

    /// The message's time.
    pub fn timestamp(&self) -> (r: Timestamp)
        ensures
            r == self.timestamp_view(),
    {
        self.timestamp
    }

    /// The message's identifier.
    pub fn msg_id(&self) -> (r: &str)
        ensures
            r@ == self.msg_id_view(),
    {
        self.msg_id.as_str()
    }

    /// The sender's queue URL.
    pub fn queue_url(&self) -> (r: &str)
        ensures
            r@ == self.queue_url_view(),
    {
        self.queue_url.as_str()
    }
}

/// A node sharing the peers it knows.
#[derive(Debug, PartialEq, Eq, PartialOrd, Ord, Default, Hash)]
pub struct PeerList {
    sender: Id,
    timestamp: Timestamp,
    msg_id: String,
    peers: Vec<Peer>,
}

/// The plain values a `PeerList` holds.
pub struct PeerListView {
    pub sender: Seq<char>,
    pub timestamp: Timestamp,
    pub msg_id: Seq<char>,
    pub peers: Seq<PeerView>,
}

impl View for PeerList {
    type V = PeerListView;

    open spec fn view(&self) -> PeerListView {
        PeerListView {
            sender: self.sender_view(),
            timestamp: self.timestamp_view(),
            msg_id: self.msg_id_view(),
            peers: self.peers_view(),
        }
    }
}

impl Clone for PeerList {
    fn clone(&self) -> (r: Self)
        ensures
            r@ == self@,
    {
        PeerList {
            sender: self.sender.clone(),
            timestamp: self.timestamp,
            msg_id: self.msg_id.clone(),
            peers: clone_peers(&self.peers),
        }
    }
}

/// The plain values of a list of peers.
pub open spec fn peers_view(peers: Seq<Peer>) -> Seq<PeerView> {
    peers.map_values(|p: Peer| p@)
}

impl PeerList {
    /// The message's sender.
    pub closed spec fn sender_view(&self) -> Seq<char> {
        self.sender@
    }

    /// The message's time.
    pub closed spec fn timestamp_view(&self) -> Timestamp {
        self.timestamp
    }

    /// The message's identifier.
    pub closed spec fn msg_id_view(&self) -> Seq<char> {
        self.msg_id@
    }

    /// The shared peers.
    pub closed spec fn peers_view(&self) -> Seq<PeerView> {
        peers_view(self.peers@)
    }

    /// A PEER_LIST from `sender`, stamped now with a fresh identifier.
    pub fn new(sender: Id, peers: Vec<Peer>) -> (r: PeerList)
        ensures
            r.sender_view() == sender@,
            r.peers_view() == peers_view(peers@),
            is_v4_uuid_text(r.msg_id_view()),
    {
        PeerList { sender, timestamp: Timestamp::now(), msg_id: new_message_id(), peers }
    }

    /// A PEER_LIST with every field given.
    pub fn from_parts(sender: Id, timestamp: Timestamp, msg_id: String, peers: Vec<Peer>) -> (r:
        PeerList)
        ensures
            r.sender_view() == sender@,
            r.timestamp_view() == timestamp,
            r.msg_id_view() == msg_id@,
            r.peers_view() == peers_view(peers@),
    {
        PeerList { sender, timestamp, msg_id, peers }
    }

    /// The message's sender.
    pub fn sender(&self) -> (r: &Id)
        ensures
            r@ == self.sender_view(),
    {
        &self.sender
    }

    /// The message's time.
    pub fn timestamp(&self) -> (r: Timestamp)
        ensures
            r == self.timestamp_view(),
    {
        self.timestamp
    }

    /// The message's identifier.
    pub fn msg_id(&self) -> (r: &str)
        ensures
            r@ == self.msg_id_view(),
    {
        self.msg_id.as_str()
    }

    /// The shared peers.
    pub fn peers(&self) -> (r: &[Peer])
        ensures
            peers_view(r@) == self.peers_view(),
    {
        self.peers.as_slice()
    }
}

/// A liveness probe.
#[derive(Debug, PartialEq, Eq, PartialOrd, Ord, Default, Hash)]
pub struct Ping {
    sender: Id,
    timestamp: Timestamp,
    msg_id: String,
    seq: u16,
}

/// The plain values a `Ping` holds.
pub struct PingView {
    pub sender: Seq<char>,
    pub timestamp: Timestamp,
    pub msg_id: Seq<char>,
    pub seq: u16,
}

impl View for Ping {
    type V = PingView;

    open spec fn view(&self) -> PingView {
        PingView {
            sender: self.sender_view(),
            timestamp: self.timestamp_view(),
            msg_id: self.msg_id_view(),
            seq: self.seq_view(),
        }
    }
}

impl Clone for Ping {
    fn clone(&self) -> (r: Self)
        ensures
            r@ == self@,
    {
        Ping {
            sender: self.sender.clone(),
            timestamp: self.timestamp,
            msg_id: self.msg_id.clone(),
            seq: self.seq,
        }
    }
}

impl Ping {
    /// The message's sender.
    pub closed spec fn sender_view(&self) -> Seq<char> {
        self.sender@
    }

    /// The message's time.
    pub closed spec fn timestamp_view(&self) -> Timestamp {
        self.timestamp
    }

    /// The message's identifier.
    pub closed spec fn msg_id_view(&self) -> Seq<char> {
        self.msg_id@
    }

    /// The probe's sequence number.
    pub closed spec fn seq_view(&self) -> u16 {
        self.seq
    }

    /// A PING from `sender` with sequence number `seq`, stamped now with a
    /// fresh identifier.
    pub fn new(sender: Id, seq: u16) -> (r: Ping)
        ensures
            r.sender_view() == sender@,
            r.seq_view() == seq,
            is_v4_uuid_text(r.msg_id_view()),
    {
        Ping { sender, timestamp: Timestamp::now(), msg_id: new_message_id(), seq }
    }

    /// A PING with every field given.
    pub fn from_parts(sender: Id, timestamp: Timestamp, msg_id: String, seq: u16) -> (r: Ping)
        ensures
            r.sender_view() == sender@,
            r.timestamp_view() == timestamp,
            r.msg_id_view() == msg_id@,
            r.seq_view() == seq,
    {
        Ping { sender, timestamp, msg_id, seq }
    }

    /// The message's sender.
    pub fn sender(&self) -> (r: &Id)
        ensures
            r@ == self.sender_view(),
    {
        &self.sender
    }

    /// The message's time.
    pub fn timestamp(&self) -> (r: Timestamp)
        ensures
            r == self.timestamp_view(),
    {
        self.timestamp
    }

    /// The message's identifier.
    pub fn msg_id(&self) -> (r: &str)
        ensures
            r@ == self.msg_id_view(),
    {
        self.msg_id.as_str()
    }

    /// The probe's sequence number.
    pub fn seq(&self) -> (r: u16)
        ensures
            r == self.seq_view(),
    {
        self.seq
    }
}

/// The answer to a liveness probe.
#[derive(Debug, PartialEq, Eq, PartialOrd, Ord, Default, Hash)]
pub struct Pong {
    sender: Id,
    timestamp: Timestamp,
    msg_id: String,
    seq: u16,
}

/// The plain values a `Pong` holds.
pub struct PongView {
    pub sender: Seq<char>,
    pub timestamp: Timestamp,
    pub msg_id: Seq<char>,
    pub seq: u16,
}

impl View for Pong {
    type V = PongView;

    open spec fn view(&self) -> PongView {
        PongView {
            sender: self.sender_view(),
            timestamp: self.timestamp_view(),
            msg_id: self.msg_id_view(),
            seq: self.seq_view(),
        }
    }
}

impl Clone for Pong {
    fn clone(&self) -> (r: Self)
        ensures
            r@ == self@,
    {
        Pong {
            sender: self.sender.clone(),
            timestamp: self.timestamp,
            msg_id: self.msg_id.clone(),
            seq: self.seq,
        }
    }
}

impl Pong {
    /// The message's sender.
    pub closed spec fn sender_view(&self) -> Seq<char> {
        self.sender@
    }

    /// The message's time.
    pub closed spec fn timestamp_view(&self) -> Timestamp {
        self.timestamp
    }

    /// The message's identifier.
    pub closed spec fn msg_id_view(&self) -> Seq<char> {
        self.msg_id@
    }

    /// The sequence number of the answered probe.
    pub closed spec fn seq_view(&self) -> u16 {
        self.seq
    }

    /// A PONG from `sender` answering probe `seq`, stamped now with a fresh
    /// identifier.
    pub fn new(sender: Id, seq: u16) -> (r: Pong)
        ensures
            r.sender_view() == sender@,
            r.seq_view() == seq,
            is_v4_uuid_text(r.msg_id_view()),
    {
        Pong { sender, timestamp: Timestamp::now(), msg_id: new_message_id(), seq }
    }

    /// A PONG with every field given.
    pub fn from_parts(sender: Id, timestamp: Timestamp, msg_id: String, seq: u16) -> (r: Pong)
        ensures
            r.sender_view() == sender@,
            r.timestamp_view() == timestamp,
            r.msg_id_view() == msg_id@,
            r.seq_view() == seq,
    {
        Pong { sender, timestamp, msg_id, seq }
    }

    /// The message's sender.
    pub fn sender(&self) -> (r: &Id)
        ensures
            r@ == self.sender_view(),
    {
        &self.sender
    }

    /// The message's time.
    pub fn timestamp(&self) -> (r: Timestamp)
        ensures
            r == self.timestamp_view(),
    {
        self.timestamp
    }

    /// The message's identifier.
    pub fn msg_id(&self) -> (r: &str)
        ensures
            r@ == self.msg_id_view(),
    {
        self.msg_id.as_str()
    }

    /// The sequence number of the answered probe.
    pub fn seq(&self) -> (r: u16)
        ensures
            r == self.seq_view(),
    {
        self.seq
    }
}

/// The plain value of an optional string.
pub open spec fn optional_view(o: Option<String>) -> Option<Seq<char>> {
    match o {
        Some(s) => Some(s@),
        None => None,
    }
}

/// A node reporting how often it saw a piece of content.
#[derive(Debug, PartialEq, Eq, PartialOrd, Ord, Default, Hash)]
pub struct ViewEvent {
    sender: Id,
    timestamp: Timestamp,
    msg_id: String,
    event_id: String,
    content_id: String,
    count: u64,
    ad_id: Option<String>,
}

/// The plain values a `ViewEvent` holds.
pub struct ViewEventView {
    pub sender: Seq<char>,
    pub timestamp: Timestamp,
    pub msg_id: Seq<char>,
    pub event_id: Seq<char>,
    pub content_id: Seq<char>,
    pub count: u64,
    pub ad_id: Option<Seq<char>>,
}

impl View for ViewEvent {
    type V = ViewEventView;

    open spec fn view(&self) -> ViewEventView {
        ViewEventView {
            sender: self.sender_view(),
            timestamp: self.timestamp_view(),
            msg_id: self.msg_id_view(),
            event_id: self.event_id_view(),
            content_id: self.content_id_view(),
            count: self.count_view(),
            ad_id: self.ad_id_view(),
        }
    }
}

impl Clone for ViewEvent {
    fn clone(&self) -> (r: Self)
        ensures
            r@ == self@,
    {
        ViewEvent {
            sender: self.sender.clone(),
            timestamp: self.timestamp,
            msg_id: self.msg_id.clone(),
            event_id: self.event_id.clone(),
            content_id: self.content_id.clone(),
            count: self.count,
            ad_id: clone_optional(&self.ad_id),
        }
    }
}

impl ViewEvent {
    /// The message's sender.
    pub closed spec fn sender_view(&self) -> Seq<char> {
        self.sender@
    }

    /// The message's time.
    pub closed spec fn timestamp_view(&self) -> Timestamp {
        self.timestamp
    }

    /// The message's identifier.
    pub closed spec fn msg_id_view(&self) -> Seq<char> {
        self.msg_id@
    }

    /// The event's identifier.
    pub closed spec fn event_id_view(&self) -> Seq<char> {
        self.event_id@
    }

    /// The viewed content.
    pub closed spec fn content_id_view(&self) -> Seq<char> {
        self.content_id@
    }

    /// The reported count.
    pub closed spec fn count_view(&self) -> u64 {
        self.count
    }

    /// The advertisement shown, if any.
    pub closed spec fn ad_id_view(&self) -> Option<Seq<char>> {
        optional_view(self.ad_id)
    }

    /// A VIEW_EVENT from `sender`, stamped now with a fresh identifier.
    pub fn new(
        sender: Id,
        event_id: String,
        content_id: String,
        count: u64,
        ad_id: Option<String>,
    ) -> (r: ViewEvent)
        ensures
            r.sender_view() == sender@,
            r.event_id_view() == event_id@,
            r.content_id_view() == content_id@,
            r.count_view() == count,
            r.ad_id_view() == optional_view(ad_id),
            is_v4_uuid_text(r.msg_id_view()),
    {
        ViewEvent {
            sender,
            timestamp: Timestamp::now(),
            msg_id: new_message_id(),
            event_id,
            content_id,
            count,
            ad_id,
        }
    }

    /// A VIEW_EVENT with every field given.
    pub fn from_parts(
        sender: Id,
        timestamp: Timestamp,
        msg_id: String,
        event_id: String,
        content_id: String,
        count: u64,
        ad_id: Option<String>,
    ) -> (r: ViewEvent)
        ensures
            r.sender_view() == sender@,
            r.timestamp_view() == timestamp,
            r.msg_id_view() == msg_id@,
            r.event_id_view() == event_id@,
            r.content_id_view() == content_id@,
            r.count_view() == count,
            r.ad_id_view() == optional_view(ad_id),
    {
        ViewEvent { sender, timestamp, msg_id, event_id, content_id, count, ad_id }
    }

    /// The message's sender.
    pub fn sender(&self) -> (r: &Id)
        ensures
            r@ == self.sender_view(),
    {
        &self.sender
    }

    /// The message's time.
    pub fn timestamp(&self) -> (r: Timestamp)
        ensures
            r == self.timestamp_view(),
    {
        self.timestamp
    }

    /// The message's identifier.
    pub fn msg_id(&self) -> (r: &str)
        ensures
            r@ == self.msg_id_view(),
    {
        self.msg_id.as_str()
    }

    /// The event's identifier.
    pub fn event_id(&self) -> (r: &str)
        ensures
            r@ == self.event_id_view(),
    {
        self.event_id.as_str()
    }

    /// The viewed content.
    pub fn content_id(&self) -> (r: &str)
        ensures
            r@ == self.content_id_view(),
    {
        self.content_id.as_str()
    }

    /// The reported count.
    pub fn count(&self) -> (r: u64)
        ensures
            r == self.count_view(),
    {
        self.count
    }

    /// The advertisement shown, if any.
    pub fn ad_id(&self) -> (r: Option<&str>)
        ensures
            match r {
                Some(s) => self.ad_id_view() == Some(s@),
                None => self.ad_id_view() is None,
            },
    {
        match &self.ad_id {
            Some(s) => Some(s.as_str()),
            None => None,
        }
    }
}

/// The plain values of an optional list of identifiers.
pub open spec fn voters_view(voters: Option<Vec<Id>>) -> Option<Seq<Seq<char>>> {
    match voters {
        Some(v) => Some(v@.map_values(|id: Id| id@)),
        None => None,
    }
}

/// The outcome of an audit of a piece of content. The confidence is kept as
/// the bit pattern of an `f64` (`f64::to_bits`), which stands for it exactly.
#[derive(Debug, PartialEq, PartialOrd, Default)]
pub struct AuditResult {
    sender: Id,
    timestamp: Timestamp,
    msg_id: String,
    content_id: String,
    agreed_count: u64,
    confidence: u64,
    voters: Option<Vec<Id>>,
}

/// The plain values a `AuditResult` holds.
pub struct AuditResultView {
    pub sender: Seq<char>,
    pub timestamp: Timestamp,
    pub msg_id: Seq<char>,
    pub content_id: Seq<char>,
    pub agreed_count: u64,
    pub confidence: u64,
    pub voters: Option<Seq<Seq<char>>>,
}

impl View for AuditResult {
    type V = AuditResultView;

    open spec fn view(&self) -> AuditResultView {
        AuditResultView {
            sender: self.sender_view(),
            timestamp: self.timestamp_view(),
            msg_id: self.msg_id_view(),
            content_id: self.content_id_view(),
            agreed_count: self.agreed_count_view(),
            confidence: self.confidence_view(),
            voters: self.voters_view(),
        }
    }
}

impl Clone for AuditResult {
    fn clone(&self) -> (r: Self)
        ensures
            r@ == self@,
    {
        AuditResult {
            sender: self.sender.clone(),
            timestamp: self.timestamp,
            msg_id: self.msg_id.clone(),
            content_id: self.content_id.clone(),
            agreed_count: self.agreed_count,
            confidence: self.confidence,
            voters: clone_voters(&self.voters),
        }
    }
}

impl AuditResult {
    /// The message's sender.
    pub closed spec fn sender_view(&self) -> Seq<char> {
        self.sender@
    }

    /// The message's time.
    pub closed spec fn timestamp_view(&self) -> Timestamp {
        self.timestamp
    }

    /// The message's identifier.
    pub closed spec fn msg_id_view(&self) -> Seq<char> {
        self.msg_id@
    }

    /// The audited content.
    pub closed spec fn content_id_view(&self) -> Seq<char> {
        self.content_id@
    }

    /// The count the audit agreed on.
    pub closed spec fn agreed_count_view(&self) -> u64 {
        self.agreed_count
    }

    /// The bit pattern of the audit's confidence.
    pub closed spec fn confidence_view(&self) -> u64 {
        self.confidence
    }

    /// The peers whose votes were counted, if listed.
    pub closed spec fn voters_view(&self) -> Option<Seq<Seq<char>>> {
        voters_view(self.voters)
    }

    /// An AUDIT_RESULT from `sender`, stamped now with a fresh identifier;
    /// `confidence` is the bit pattern of the `f64` confidence.
    pub fn new(
        sender: Id,
        content_id: String,
        agreed_count: u64,
        confidence: u64,
        voters: Option<Vec<Id>>,
    ) -> (r: AuditResult)
        ensures
            r.sender_view() == sender@,
            r.content_id_view() == content_id@,
            r.agreed_count_view() == agreed_count,
            r.confidence_view() == confidence,
            r.voters_view() == voters_view(voters),
            is_v4_uuid_text(r.msg_id_view()),
    {
        AuditResult {
            sender,
            timestamp: Timestamp::now(),
            msg_id: new_message_id(),
            content_id,
            agreed_count,
            confidence,
            voters,
        }
    }

    /// An AUDIT_RESULT with every field given.
    pub fn from_parts(
        sender: Id,
        timestamp: Timestamp,
        msg_id: String,
        content_id: String,
        agreed_count: u64,
        confidence: u64,
        voters: Option<Vec<Id>>,
    ) -> (r: AuditResult)
        ensures
            r.sender_view() == sender@,
            r.timestamp_view() == timestamp,
            r.msg_id_view() == msg_id@,
            r.content_id_view() == content_id@,
            r.agreed_count_view() == agreed_count,
            r.confidence_view() == confidence,
            r.voters_view() == voters_view(voters),
    {
        AuditResult { sender, timestamp, msg_id, content_id, agreed_count, confidence, voters }
    }

    /// The message's sender.
    pub fn sender(&self) -> (r: &Id)
        ensures
            r@ == self.sender_view(),
    {
        &self.sender
    }

    /// The message's time.
    pub fn timestamp(&self) -> (r: Timestamp)
        ensures
            r == self.timestamp_view(),
    {
        self.timestamp
    }

    /// The message's identifier.
    pub fn msg_id(&self) -> (r: &str)
        ensures
            r@ == self.msg_id_view(),
    {
        self.msg_id.as_str()
    }

    /// The audited content.
    pub fn content_id(&self) -> (r: &str)
        ensures
            r@ == self.content_id_view(),
    {
        self.content_id.as_str()
    }

    /// The count the audit agreed on.
    pub fn agreed_count(&self) -> (r: u64)
        ensures
            r == self.agreed_count_view(),
    {
        self.agreed_count
    }

    /// The bit pattern of the audit's `f64` confidence.
    pub fn confidence(&self) -> (r: u64)
        ensures
            r == self.confidence_view(),
    {
        self.confidence
    }

    /// The peers whose votes were counted, if listed.
    pub fn voters(&self) -> (r: Option<&[Id]>)
        ensures
            match r {
                Some(v) => self.voters_view() == Some(v@.map_values(|id: Id| id@)),
                None => self.voters_view() is None,
            },
    {
        match &self.voters {
            Some(v) => Some(v.as_slice()),
            None => None,
        }
    }
}

/// A copy of a list of peers.
fn clone_peers(peers: &Vec<Peer>) -> (r: Vec<Peer>)
    ensures
        peers_view(r@) == peers_view(peers@),
{
    let mut out: Vec<Peer> = Vec::new();
    let mut i: usize = 0;
    while i < peers.len()
        invariant
            i <= peers@.len(),
            out@.len() == i,
            forall|j: int| 0 <= j < i ==> #[trigger] out@[j]@ == peers@[j]@,
        decreases peers@.len() - i,
    {
        out.push(peers[i].clone());
        i = i + 1;
    }
    assert(peers_view(out@) =~= peers_view(peers@));
    out
}

/// A copy of an optional string.
fn clone_optional(o: &Option<String>) -> (r: Option<String>)
    ensures
        optional_view(r) == optional_view(*o),
{
    match o {
        Some(s) => Some(s.clone()),
        None => None,
    }
}

/// A copy of an optional list of identifiers.
fn clone_voters(voters: &Option<Vec<Id>>) -> (r: Option<Vec<Id>>)
    ensures
        voters_view(r) == voters_view(*voters),
{
    match voters {
        None => None,
        Some(v) => {
            let mut out: Vec<Id> = Vec::new();
            let mut i: usize = 0;
            while i < v.len()
                invariant
                    i <= v@.len(),
                    out@.len() == i,
                    forall|j: int| 0 <= j < i ==> #[trigger] out@[j]@ == v@[j]@,
                decreases v@.len() - i,
            {
                out.push(v[i].clone());
                i = i + 1;
            }
            assert(out@.map_values(|id: Id| id@) =~= v@.map_values(|id: Id| id@));
            Some(out)
        },
    }
}

/// A node announcing that it stops serving the receiver.
#[derive(Debug, PartialEq, Eq, PartialOrd, Ord, Default, Hash)]
pub struct Choke {
    sender: Id,
    timestamp: Timestamp,
    msg_id: String,
}

/// The plain values a `Choke` holds.
pub struct ChokeView {
    pub sender: Seq<char>,
    pub timestamp: Timestamp,
    pub msg_id: Seq<char>,
}

impl View for Choke {
    type V = ChokeView;

    open spec fn view(&self) -> ChokeView {
        ChokeView {
            sender: self.sender_view(),
            timestamp: self.timestamp_view(),
            msg_id: self.msg_id_view(),
        }
    }
}

impl Clone for Choke {
    fn clone(&self) -> (r: Self)
        ensures
            r@ == self@,
    {
        Choke {
            sender: self.sender.clone(),
            timestamp: self.timestamp,
            msg_id: self.msg_id.clone(),
        }
    }
}

impl Choke {
    /// The message's sender.
    pub closed spec fn sender_view(&self) -> Seq<char> {
        self.sender@
    }

    /// The message's time.
    pub closed spec fn timestamp_view(&self) -> Timestamp {
        self.timestamp
    }

    /// The message's identifier.
    pub closed spec fn msg_id_view(&self) -> Seq<char> {
        self.msg_id@
    }

    /// A CHOKE with every field given.
    pub fn from_parts(sender: Id, timestamp: Timestamp, msg_id: String) -> (r: Choke)
        ensures
            r.sender_view() == sender@,
            r.timestamp_view() == timestamp,
            r.msg_id_view() == msg_id@,
    {
        Choke { sender, timestamp, msg_id }
    }

    /// The message's sender.
    pub fn sender(&self) -> (r: &Id)
        ensures
            r@ == self.sender_view(),
    {
        &self.sender
    }

    /// The message's time.
    pub fn timestamp(&self) -> (r: Timestamp)
        ensures
            r == self.timestamp_view(),
    {
        self.timestamp
    }

    /// The message's identifier.
    pub fn msg_id(&self) -> (r: &str)
        ensures
            r@ == self.msg_id_view(),
    {
        self.msg_id.as_str()
    }
}

/// A node announcing that it serves the receiver again.
#[derive(Debug, PartialEq, Eq, PartialOrd, Ord, Default, Hash)]
pub struct Unchoke {
    sender: Id,
    timestamp: Timestamp,
    msg_id: String,
}

/// The plain values a `Unchoke` holds.
pub struct UnchokeView {
    pub sender: Seq<char>,
    pub timestamp: Timestamp,
    pub msg_id: Seq<char>,
}

impl View for Unchoke {
    type V = UnchokeView;

    open spec fn view(&self) -> UnchokeView {
        UnchokeView {
            sender: self.sender_view(),
            timestamp: self.timestamp_view(),
            msg_id: self.msg_id_view(),
        }
    }
}

impl Clone for Unchoke {
    fn clone(&self) -> (r: Self)
        ensures
            r@ == self@,
    {
        Unchoke {
            sender: self.sender.clone(),
            timestamp: self.timestamp,
            msg_id: self.msg_id.clone(),
        }
    }
}

impl Unchoke {
    /// The message's sender.
    pub closed spec fn sender_view(&self) -> Seq<char> {
        self.sender@
    }

    /// The message's time.
    pub closed spec fn timestamp_view(&self) -> Timestamp {
        self.timestamp
    }

    /// The message's identifier.
    pub closed spec fn msg_id_view(&self) -> Seq<char> {
        self.msg_id@
    }

    /// An UNCHOKE with every field given.
    pub fn from_parts(sender: Id, timestamp: Timestamp, msg_id: String) -> (r: Unchoke)
        ensures
            r.sender_view() == sender@,
            r.timestamp_view() == timestamp,
            r.msg_id_view() == msg_id@,
    {
        Unchoke { sender, timestamp, msg_id }
    }

    /// The message's sender.
    pub fn sender(&self) -> (r: &Id)
        ensures
            r@ == self.sender_view(),
    {
        &self.sender
    }

    /// The message's time.
    pub fn timestamp(&self) -> (r: Timestamp)
        ensures
            r == self.timestamp_view(),
    {
        self.timestamp
    }

    /// The message's identifier.
    pub fn msg_id(&self) -> (r: &str)
        ensures
            r@ == self.msg_id_view(),
    {
        self.msg_id.as_str()
    }
}

/// Any protocol message.
#[derive(Debug, PartialEq, PartialOrd)]
pub enum Message {
    Hello { message: Hello },
    PeerList { message: PeerList },
    Ping { message: Ping },
    Pong { message: Pong },
    ViewEvent { message: ViewEvent },
    AuditResult { message: AuditResult },
    Choke { message: Choke },
    Unchoke { message: Unchoke },
}

/// The plain values of any message.
pub enum MessageView {
    Hello(HelloView),
    PeerList(PeerListView),
    Ping(PingView),
    Pong(PongView),
    ViewEvent(ViewEventView),
    AuditResult(AuditResultView),
    Choke(ChokeView),
    Unchoke(UnchokeView),
}

impl View for Message {
    type V = MessageView;

    open spec fn view(&self) -> MessageView {
        match self {
            Message::Hello { message } => MessageView::Hello(message@),
            Message::PeerList { message } => MessageView::PeerList(message@),
            Message::Ping { message } => MessageView::Ping(message@),
            Message::Pong { message } => MessageView::Pong(message@),
            Message::ViewEvent { message } => MessageView::ViewEvent(message@),
            Message::AuditResult { message } => MessageView::AuditResult(message@),
            Message::Choke { message } => MessageView::Choke(message@),
            Message::Unchoke { message } => MessageView::Unchoke(message@),
        }
    }
}

impl Clone for Message {
    fn clone(&self) -> (r: Self)
        ensures
            r@ == self@,
    {
        match self {
            Message::Hello { message } => Message::Hello { message: message.clone() },
            Message::PeerList { message } => Message::PeerList { message: message.clone() },
            Message::Ping { message } => Message::Ping { message: message.clone() },
            Message::Pong { message } => Message::Pong { message: message.clone() },
            Message::ViewEvent { message } => Message::ViewEvent { message: message.clone() },
            Message::AuditResult { message } => Message::AuditResult { message: message.clone() },
            Message::Choke { message } => Message::Choke { message: message.clone() },
            Message::Unchoke { message } => Message::Unchoke { message: message.clone() },
        }
    }
}

/// The sender of any message.
pub open spec fn message_sender(m: Message) -> Seq<char> {
    match m {
        Message::Hello { message } => message.sender_view(),
        Message::PeerList { message } => message.sender_view(),
        Message::Ping { message } => message.sender_view(),
        Message::Pong { message } => message.sender_view(),
        Message::ViewEvent { message } => message.sender_view(),
        Message::AuditResult { message } => message.sender_view(),
        Message::Choke { message } => message.sender_view(),
        Message::Unchoke { message } => message.sender_view(),
    }
}

/// The time of any message.
pub open spec fn message_timestamp(m: Message) -> Timestamp {
    match m {
        Message::Hello { message } => message.timestamp_view(),
        Message::PeerList { message } => message.timestamp_view(),
        Message::Ping { message } => message.timestamp_view(),
        Message::Pong { message } => message.timestamp_view(),
        Message::ViewEvent { message } => message.timestamp_view(),
        Message::AuditResult { message } => message.timestamp_view(),
        Message::Choke { message } => message.timestamp_view(),
        Message::Unchoke { message } => message.timestamp_view(),
    }
}

/// The identifier of any message.
pub open spec fn message_msg_id(m: Message) -> Seq<char> {
    match m {
        Message::Hello { message } => message.msg_id_view(),
        Message::PeerList { message } => message.msg_id_view(),
        Message::Ping { message } => message.msg_id_view(),
        Message::Pong { message } => message.msg_id_view(),
        Message::ViewEvent { message } => message.msg_id_view(),
        Message::AuditResult { message } => message.msg_id_view(),
        Message::Choke { message } => message.msg_id_view(),
        Message::Unchoke { message } => message.msg_id_view(),
    }
}

/// The kind of any message.
pub open spec fn message_kind(m: Message) -> MessageKind {
    match m {
        Message::Hello { .. } => MessageKind::Hello,
        Message::PeerList { .. } => MessageKind::PeerList,
        Message::Ping { .. } => MessageKind::Ping,
        Message::Pong { .. } => MessageKind::Pong,
        Message::ViewEvent { .. } => MessageKind::ViewEvent,
        Message::AuditResult { .. } => MessageKind::AuditResult,
        Message::Choke { .. } => MessageKind::Choke,
        Message::Unchoke { .. } => MessageKind::Unchoke,
    }
}

impl Message {
    /// The message's sender.
    pub fn sender(&self) -> (r: &Id)
        ensures
            r@ == message_sender(*self),
    {
        match self {
            Message::Hello { message } => message.sender(),
            Message::PeerList { message } => message.sender(),
            Message::Ping { message } => message.sender(),
            Message::Pong { message } => message.sender(),
            Message::ViewEvent { message } => message.sender(),
            Message::AuditResult { message } => message.sender(),
            Message::Choke { message } => message.sender(),
            Message::Unchoke { message } => message.sender(),
        }
    }

    /// The message's time.
    pub fn timestamp(&self) -> (r: Timestamp)
        ensures
            r == message_timestamp(*self),
    {
        match self {
            Message::Hello { message } => message.timestamp(),
            Message::PeerList { message } => message.timestamp(),
            Message::Ping { message } => message.timestamp(),
            Message::Pong { message } => message.timestamp(),
            Message::ViewEvent { message } => message.timestamp(),
            Message::AuditResult { message } => message.timestamp(),
            Message::Choke { message } => message.timestamp(),
            Message::Unchoke { message } => message.timestamp(),
        }
    }

    /// The message's identifier.
    pub fn msg_id(&self) -> (r: &str)
        ensures
            r@ == message_msg_id(*self),
    {
        match self {
            Message::Hello { message } => message.msg_id(),
            Message::PeerList { message } => message.msg_id(),
            Message::Ping { message } => message.msg_id(),
            Message::Pong { message } => message.msg_id(),
            Message::ViewEvent { message } => message.msg_id(),
            Message::AuditResult { message } => message.msg_id(),
            Message::Choke { message } => message.msg_id(),
            Message::Unchoke { message } => message.msg_id(),
        }
    }

    /// The message's kind, as its `type` field on the wire names it.
    pub fn kind(&self) -> (r: MessageKind)
        ensures
            r == message_kind(*self),
    {
        match self {
            Message::Hello { .. } => MessageKind::Hello,
            Message::PeerList { .. } => MessageKind::PeerList,
            Message::Ping { .. } => MessageKind::Ping,
            Message::Pong { .. } => MessageKind::Pong,
            Message::ViewEvent { .. } => MessageKind::ViewEvent,
            Message::AuditResult { .. } => MessageKind::AuditResult,
            Message::Choke { .. } => MessageKind::Choke,
            Message::Unchoke { .. } => MessageKind::Unchoke,
        }
    }
}

} // verus!

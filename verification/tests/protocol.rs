use p2p_node::node::Id;
use p2p_node::protocol::{
    new_message_id, AuditResult, Choke, Hello, Message, MessageKind, Peer, PeerList, Ping, Pong,
    Timestamp, Unchoke, ViewEvent,
};

fn id(s: &str) -> Id {
    Id::new(s.to_owned())
}

const ALL_KINDS: [MessageKind; 8] = [
    MessageKind::Hello,
    MessageKind::PeerList,
    MessageKind::Ping,
    MessageKind::Pong,
    MessageKind::ViewEvent,
    MessageKind::AuditResult,
    MessageKind::Choke,
    MessageKind::Unchoke,
];

#[test]
fn kinds_have_their_wire_names() {
    let names: Vec<&str> = ALL_KINDS.iter().map(|k| k.wire_name()).collect();
    assert_eq!(
        names,
        vec![
            "HELLO",
            "PEER_LIST",
            "PING",
            "PONG",
            "VIEW_EVENT",
            "AUDIT_RESULT",
            "CHOKE",
            "UNCHOKE"
        ]
    );
}

#[test]
fn wire_names_parse_back() {
    for kind in ALL_KINDS {
        assert_eq!(MessageKind::from_wire(kind.wire_name()), Some(kind));
        assert_eq!(MessageKind::parse(kind.wire_name()), Some(kind));
        assert_eq!(kind.wire_name().parse::<MessageKind>(), Ok(kind));
    }
}

#[test]
fn parse_ignores_surrounding_white_space_only() {
    assert_eq!(MessageKind::parse("  PING\n"), Some(MessageKind::Ping));
    assert_eq!(MessageKind::parse("\tAUDIT_RESULT "), Some(MessageKind::AuditResult));
    assert_eq!(MessageKind::parse("ping"), None);
    assert_eq!(MessageKind::parse("PI NG"), None);
    assert_eq!(MessageKind::parse(""), None);
    assert_eq!(MessageKind::from_wire(" PING"), None);
    assert_eq!("ELECTION".parse::<MessageKind>(), Err(()));
}

#[test]
fn message_ids_are_fresh_uuids() {
    let a = new_message_id();
    let b = new_message_id();
    assert_eq!(a.len(), 36);
    assert_ne!(a, b);
    assert_eq!(a.matches('-').count(), 4);
    assert_eq!(&a[14..15], "4");
    for (i, c) in a.chars().enumerate() {
        if i == 8 || i == 13 || i == 18 || i == 23 {
            assert_eq!(c, '-');
        } else {
            assert!(c.is_ascii_digit() || ('a'..='f').contains(&c));
        }
    }
    assert!("89ab".contains(&a[19..20]));
}

#[test]
fn timestamps_keep_their_parts() {
    let t = Timestamp::from_parts(1_700_000_000, 123_456_789);
    assert_eq!(t.as_second(), 1_700_000_000);
    assert_eq!(t.subsec_nanosecond(), 123_456_789);
    let now = Timestamp::now();
    assert!(now.as_second() > 1_600_000_000);
    assert!(now.subsec_nanosecond().abs() < 1_000_000_000);
}

#[test]
fn new_messages_are_stamped_now() {
    let hello = Hello::new(id("alice"), "https://sqs.fake/alice".to_owned());
    assert_eq!(hello.sender(), &id("alice"));
    assert_eq!(hello.queue_url(), "https://sqs.fake/alice");
    assert_eq!(hello.msg_id().len(), 36);
    assert!(hello.timestamp().as_second() > 1_600_000_000);
    let ping = Ping::new(id("alice"), 7);
    assert_eq!(ping.seq(), 7);
    let pong = Pong::new(id("bob"), 7);
    assert_eq!(pong.seq(), 7);
    assert_ne!(ping.msg_id(), pong.msg_id());
}

#[test]
fn from_parts_messages_give_back_their_fields() {
    let t = Timestamp::from_parts(1_700_000_000, 5);
    let list = PeerList::from_parts(
        id("alice"),
        t,
        "a1b2c3d4".to_owned(),
        vec![Peer { node_id: id("bob"), queue_url: "https://sqs.../ds2032-node-bob-p2p".to_owned() }],
    );
    assert_eq!(list.sender(), &id("alice"));
    assert_eq!(list.timestamp(), t);
    assert_eq!(list.msg_id(), "a1b2c3d4");
    assert_eq!(list.peers().len(), 1);
    assert_eq!(list.peers()[0].node_id, id("bob"));

    let event = ViewEvent::from_parts(
        id("bob"),
        t,
        "a1b2c3d4".to_owned(),
        "evt-a1b2c3d4".to_owned(),
        "show:midnight-run".to_owned(),
        150,
        Some("ad-7".to_owned()),
    );
    assert_eq!(event.event_id(), "evt-a1b2c3d4");
    assert_eq!(event.content_id(), "show:midnight-run");
    assert_eq!(event.count(), 150);
    assert_eq!(event.ad_id(), Some("ad-7"));

    let audit = AuditResult::from_parts(
        id("alice"),
        t,
        "a1b2c3d4".to_owned(),
        "show:midnight-run".to_owned(),
        150,
        0.75_f64.to_bits(),
        Some(vec![id("bob"), id("charlie")]),
    );
    assert_eq!(audit.agreed_count(), 150);
    assert_eq!(f64::from_bits(audit.confidence()), 0.75);
    assert_eq!(audit.voters().map(|v| v.len()), Some(2));
    let unlisted = AuditResult::new(id("alice"), "x".to_owned(), 1, 0, None);
    assert!(unlisted.voters().is_none());

    let choke = Choke::from_parts(id("alice"), t, "c".to_owned());
    let unchoke = Unchoke::from_parts(id("alice"), t, "u".to_owned());
    assert_eq!(choke.msg_id(), "c");
    assert_eq!(unchoke.msg_id(), "u");
}

#[test]
fn any_message_tells_its_common_fields() {
    let t = Timestamp::from_parts(42, 0);
    let messages = vec![
        Message::Hello { message: Hello::from_parts(id("a"), t, "m0".to_owned(), String::new()) },
        Message::PeerList { message: PeerList::from_parts(id("a"), t, "m1".to_owned(), vec![]) },
        Message::Ping { message: Ping::from_parts(id("a"), t, "m2".to_owned(), 1) },
        Message::Pong { message: Pong::from_parts(id("a"), t, "m3".to_owned(), 1) },
        Message::ViewEvent {
            message: ViewEvent::from_parts(
                id("a"),
                t,
                "m4".to_owned(),
                String::new(),
                String::new(),
                0,
                None,
            ),
        },
        Message::AuditResult {
            message: AuditResult::from_parts(id("a"), t, "m5".to_owned(), String::new(), 0, 0, None),
        },
        Message::Choke { message: Choke::from_parts(id("a"), t, "m6".to_owned()) },
        Message::Unchoke { message: Unchoke::from_parts(id("a"), t, "m7".to_owned()) },
    ];
    for (i, message) in messages.iter().enumerate() {
        assert_eq!(message.sender(), &id("a"));
        assert_eq!(message.timestamp(), t);
        assert_eq!(message.msg_id(), format!("m{i}"));
        assert_eq!(message.kind(), ALL_KINDS[i]);
        assert_eq!(message.clone(), *message);
    }
}

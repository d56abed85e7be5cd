use p2p_node::algorithms::content::{optional_str, PaymentRecord, ViewEventRecord};
use p2p_node::algorithms::election::ElectionStatus;
use p2p_node::node::Id;
use p2p_node::read_a_book;

#[test]
fn view_event_record_keeps_its_fields() {
    let record = ViewEventRecord::new(
        Id::new("bob".to_owned()),
        "evt-a1b2c3d4".to_owned(),
        "show:midnight-run".to_owned(),
        150,
        Some("ad-7".to_owned()),
    );
    assert_eq!(record.peer_id(), &Id::new("bob".to_owned()));
    assert_eq!(record.event_id(), "evt-a1b2c3d4");
    assert_eq!(record.content_id(), "show:midnight-run");
    assert_eq!(record.count(), 150);
    assert_eq!(record.ad_id(), Some("ad-7"));
    let copy = record.clone();
    assert_eq!(copy.ad_id(), Some("ad-7"));
    let plain = ViewEventRecord::new(Id::new("bob".to_owned()), String::new(), String::new(), 0, None);
    assert_eq!(plain.ad_id(), None);
}

#[test]
fn payment_record_keeps_its_fields() {
    let payment =
        PaymentRecord::new(Id::new("alice".to_owned()), "show:neon-drift".to_owned(), 2.5_f64.to_bits(), 99);
    assert_eq!(payment.from(), &Id::new("alice".to_owned()));
    assert_eq!(payment.content_id(), "show:neon-drift");
    assert_eq!(f64::from_bits(payment.amount()), 2.5);
    assert_eq!(payment.agreed_count(), 99);
}

#[test]
fn optional_text_is_borrowed() {
    assert_eq!(optional_str(&Some("x".to_owned())), Some("x"));
    assert_eq!(optional_str(&None), None);
}

#[test]
fn election_roles_have_printed_names() {
    assert_eq!(ElectionStatus::Follower.label(), "FOLLOWER");
    assert_eq!(ElectionStatus::Candidate.label(), "CANDIDATE");
    assert_eq!(ElectionStatus::Leader.label(), "LEADER");
}

#[test]
fn reading_makes_you_smart() {
    assert_eq!(read_a_book(), "you are so smart!!");
}

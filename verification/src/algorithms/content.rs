//! Data types relating to view events and audits.

use vstd::prelude::*;

use crate::node::Id;

verus! {

/// A view count that a peer reported for a piece of content.
#[derive(Debug)]
pub struct ViewEventRecord {
    peer_id: Id,
    event_id: String,
    content_id: String,
    count: u64,
    ad_id: Option<String>,
}

/// The plain value of an optional string.
pub open spec fn optional_text(o: Option<String>) -> Option<Seq<char>> {
    match o {
        Some(s) => Some(s@),
        None => None,
    }
}

/// The plain values a `ViewEventRecord` holds.
pub struct ViewEventRecordView {
    pub peer_id: Seq<char>,
    pub event_id: Seq<char>,
    pub content_id: Seq<char>,
    pub count: u64,
    pub ad_id: Option<Seq<char>>,
}

impl View for ViewEventRecord {
    type V = ViewEventRecordView;

    closed spec fn view(&self) -> ViewEventRecordView {
        ViewEventRecordView {
            peer_id: self.peer_id@,
            event_id: self.event_id@,
            content_id: self.content_id@,
            count: self.count,
            ad_id: optional_text(self.ad_id),
        }
    }
}

/// Borrows the text of an optional string.
pub fn optional_str(o: &Option<String>) -> (r: Option<&str>)
    ensures
        match r {
            Some(s) => o.is_some() && s@ == o.unwrap()@,
            None => o.is_none(),
        },
{
    match o {
        Some(s) => Some(s.as_str()),
        None => None,
    }
}

fn clone_optional(o: &Option<String>) -> (r: Option<String>)
    ensures
        optional_text(r) == optional_text(*o),
{
    match o {
        Some(s) => Some(s.clone()),
        None => None,
    }
}

impl ViewEventRecord {
    /// A record of `count` views of `content_id`, reported by `peer_id`.
    pub fn new(
        peer_id: Id,
        event_id: String,
        content_id: String,
        count: u64,
        ad_id: Option<String>,
    ) -> (r: ViewEventRecord)
        ensures
            r@ == (ViewEventRecordView {
                peer_id: peer_id@,
                event_id: event_id@,
                content_id: content_id@,
                count,
                ad_id: optional_text(ad_id),
            }),
    {
        ViewEventRecord { peer_id, event_id, content_id, count, ad_id }
    }

    /// The reporting peer.
    pub fn peer_id(&self) -> (r: &Id)
        ensures
            r@ == self@.peer_id,
    {
        &self.peer_id
    }

    /// The event's identifier.
    pub fn event_id(&self) -> (r: &str)
        ensures
            r@ == self@.event_id,
    {
        self.event_id.as_str()
    }

    /// The viewed content.
    pub fn content_id(&self) -> (r: &str)
        ensures
            r@ == self@.content_id,
    {
        self.content_id.as_str()
    }

    /// The reported view count.
    pub fn count(&self) -> (r: u64)
        ensures
            r == self@.count,
    {
        self.count
    }

    /// The advertisement shown, if any.
    pub fn ad_id(&self) -> (r: Option<&str>)
        ensures
            match r {
                Some(s) => self@.ad_id == Some(s@),
                None => self@.ad_id is None,
            },
    {
        optional_str(&self.ad_id)
    }
}

impl Clone for ViewEventRecord {
    fn clone(&self) -> (r: Self)
        ensures
            r@ == self@,
    {
        ViewEventRecord {
            peer_id: self.peer_id.clone(),
            event_id: self.event_id.clone(),
            content_id: self.content_id.clone(),
            count: self.count,
            ad_id: clone_optional(&self.ad_id),
        }
    }
}

/// A payment owed for an audited view count. The amount is kept as the bit
/// pattern of an `f64` (`f64::to_bits`), which stands for it exactly.
#[derive(Debug)]
pub struct PaymentRecord {
    from: Id,
    content_id: String,
    amount: u64,
    agreed_count: u64,
}

/// The plain values a `PaymentRecord` holds.
pub struct PaymentRecordView {
    pub from: Seq<char>,
    pub content_id: Seq<char>,
    pub amount: u64,
    pub agreed_count: u64,
}

impl View for PaymentRecord {
    type V = PaymentRecordView;

    closed spec fn view(&self) -> PaymentRecordView {
        PaymentRecordView {
            from: self.from@,
            content_id: self.content_id@,
            amount: self.amount,
            agreed_count: self.agreed_count,
        }
    }
}

impl PaymentRecord {
    /// A payment from `from` for `agreed_count` views of `content_id`; `amount`
    /// is the bit pattern of the paid `f64` amount.
    pub fn new(from: Id, content_id: String, amount: u64, agreed_count: u64) -> (r: PaymentRecord)
        ensures
            r@ == (PaymentRecordView {
                from: from@,
                content_id: content_id@,
                amount,
                agreed_count,
            }),
    {
        PaymentRecord { from, content_id, amount, agreed_count }
    }

    /// The paying node.
    pub fn from(&self) -> (r: &Id)
        ensures
            r@ == self@.from,
    {
        &self.from
    }

    /// The paid-for content.
    pub fn content_id(&self) -> (r: &str)
        ensures
            r@ == self@.content_id,
    {
        self.content_id.as_str()
    }

    /// The bit pattern of the paid `f64` amount.
    pub fn amount(&self) -> (r: u64)
        ensures
            r == self@.amount,
    {
        self.amount
    }

    /// The view count paid for.
    pub fn agreed_count(&self) -> (r: u64)
        ensures
            r == self@.agreed_count,
    {
        self.agreed_count
    }
}

impl Clone for PaymentRecord {
    fn clone(&self) -> (r: Self)
        ensures
            r@ == self@,
    {
        PaymentRecord {
            from: self.from.clone(),
            content_id: self.content_id.clone(),
            amount: self.amount,
            agreed_count: self.agreed_count,
        }
    }
}

} // verus!

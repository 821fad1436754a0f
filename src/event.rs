use crate::data::UserId;
use vstd::prelude::*;

verus! {

/// What happened in a session.
#[derive(Clone, Copy, Debug, PartialEq, Eq)]
pub enum EventType {
    /// `winners` is `None` on a draw.
    GameEnded { winners: Option<(UserId, UserId)> },
    GameStarted,
    Joined,
    ParticipantsChanged,
    Periodic,
    PieceDeployed,
    PieceMoved,
    PiecePromoted,
}

/// An event broadcast to a session's subscribers; `caused_by` is the owner's
/// id when the session itself caused it.
#[derive(Clone, Copy, Debug, PartialEq, Eq)]
pub struct Event {
    pub caused_by: UserId,
    pub ev: EventType,
}

impl Event {
    pub fn new(caused_by: UserId, ev: EventType) -> (r: Event)
        ensures
            r.caused_by == caused_by,
            r.ev == ev,
    {
        Event { caused_by, ev }
    }
}

/// The bytes of `data: `.
pub open spec fn sse_prefix() -> Seq<u8> {
    seq![100u8, 97u8, 116u8, 97u8, 58u8, 32u8]
}

/// A server-sent-events frame: `data: <payload>` followed by a blank line.
pub open spec fn sse_frame(payload: Seq<u8>) -> Seq<u8> {
    sse_prefix() + payload + seq![10u8, 10u8]
}

/// Frames an encoded event as one server-sent-events message.
pub fn to_message(payload: &[u8]) -> (r: Vec<u8>)
    ensures
        r@ == sse_frame(payload@),
{
    let mut msg: Vec<u8> = Vec::new();
    msg.push(100u8);
    msg.push(97u8);
    msg.push(116u8);
    msg.push(97u8);
    msg.push(58u8);
    msg.push(32u8);
    assert(msg@ =~= sse_prefix());
    let mut i: usize = 0;
    while i < payload.len()
        invariant
            i <= payload@.len(),
            msg@ == sse_prefix() + payload@.take(i as int),
        decreases payload@.len() - i,
    {
        msg.push(payload[i]);
        assert(payload@.take(i as int + 1) =~= payload@.take(i as int).push(payload@[i as int]));
        assert(msg@ =~= sse_prefix() + payload@.take(i as int + 1));
        i += 1;
    }
    assert(payload@.take(i as int) =~= payload@);
    msg.push(10u8);
    msg.push(10u8);
    assert(msg@ =~= sse_frame(payload@));
    msg
}

} // verus!

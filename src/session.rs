use vstd::prelude::*;

use crate::header::{ErrorCode, ErrorHeader, Header};
use crate::wire::Event;

verus! {

/// How a server session starts, from the request that opened it.
#[derive(Debug)]
pub enum Session {
    /// A read request: send the named file.
    Send(String),
    /// A write request: receive into the named file.
    Receive(String),
    /// Anything else opens no session.
    Ignore,
}

/// Decides what a request asks for.
pub fn classify_request(h: Header) -> (r: Session)
    ensures
        h matches Header::Read(q) ==> (r matches Session::Send(f) && f@ == q.filename@),
        h matches Header::Write(q) ==> (r matches Session::Receive(f) && f@ == q.filename@),
        !(h is Read || h is Write) ==> r is Ignore,
{
    match h {
        Header::Read(q) => Session::Send(q.filename),
        Header::Write(q) => Session::Receive(q.filename),
        _ => Session::Ignore,
    }
}

/// The answer to a read request for a file that does not exist.
pub fn file_not_found() -> (r: Header)
    ensures
        r matches Header::Error(e) && e.error_code == ErrorCode::FileNotFound && e.error_message@
            == "<No description supplied>"@,
{
    broadcast use vstd::string::to_string_from_display_ensures_for_str;

    Header::Error(
        ErrorHeader {
            error_code: ErrorCode::FileNotFound,
            error_message: "<No description supplied>".to_string(),
        },
    )
}

/// The outcome of waiting for the acknowledgement of a write request.
#[derive(Clone, Copy, Debug, PartialEq, Eq, Structural)]
pub enum Handshake {
    /// ACK(0) came: start sending.
    Accepted,
    /// Nothing usable yet: wait again.
    Retry,
    /// The peer refused, or too many attempts failed.
    Refused,
}

/// Judges the `attempt`-th wait (counting from zero) for the ACK(0) that answers a
/// write request: an ACK of block zero is accepted; an ERROR refuses; anything else
/// is retried until `MAX_ATTEMPTS` waits have passed.
pub fn write_ack_verdict(ev: &Event, attempt: usize) -> (r: Handshake)
    ensures
        (ev matches Event::Packet(Header::Ack(a)) && a.block_number == 0) ==> r is Accepted,
        ev matches Event::Packet(Header::Error(_)) ==> r is Refused,
        !((ev matches Event::Packet(Header::Ack(a)) && a.block_number == 0)
            || ev matches Event::Packet(Header::Error(_))) ==> if attempt + 1
            < crate::send::MAX_ATTEMPTS {
            r is Retry
        } else {
            r is Refused
        },
{
    match ev {
        Event::Packet(Header::Ack(a)) => {
            if a.block_number == 0 {
                return Handshake::Accepted;
            }
        },
        Event::Packet(Header::Error(_)) => {
            return Handshake::Refused;
        },
        _ => {},
    }
    if attempt < crate::send::MAX_ATTEMPTS - 1 {
        Handshake::Retry
    } else {
        Handshake::Refused
    }
}

} // verus!

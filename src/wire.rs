use vstd::prelude::*;

use crate::error::{ErrorView, TFTPError};
use crate::header::{decode_packet, Header, PacketView, BLOCK_SPACE};

verus! {

/// The kinds of socket failure that the engines tell apart.
#[derive(Clone, Copy, Debug, PartialEq, Eq, Structural)]
pub enum IoKind {
    ConnectionRefused,
    ConnectionReset,
    ConnectionAborted,
    NotConnected,
    AddrInUse,
    AddrNotAvailable,
    BrokenPipe,
    AlreadyExists,
    InvalidInput,
    InvalidData,
    Interrupted,
    UnexpectedEof,
    WouldBlock,
    TimedOut,
    /// Any other failure; it is not fatal.
    Other,
}

/// The failures that end a transfer: all but timeouts and `Other`.
pub open spec fn fatal_kind(k: IoKind) -> bool {
    !(k is WouldBlock || k is TimedOut || k is Other)
}

impl IoKind {
    /// Whether a failure of this kind ends the transfer.
    pub fn is_fatal(self) -> (r: bool)
        ensures
            r == fatal_kind(self),
    {
        match self {
            IoKind::WouldBlock | IoKind::TimedOut | IoKind::Other => false,
            _ => true,
        }
    }
}

/// Whether a transfer has completed.
#[derive(Clone, Copy, Debug, PartialEq, Eq, Structural)]
pub enum Progress {
    Ready,
    NotReady,
}

/// What one attempt to receive brought.
#[derive(Debug)]
pub enum Event {
    /// A packet arrived from the peer.
    Packet(Header),
    /// Nothing usable arrived before the read timeout (a synthetic drop counts as one).
    Timeout,
    /// A datagram arrived that cannot be used: malformed, or from another host.
    Unusable,
    /// The socket failed.
    Io(IoKind),
}

/// The synthetic-drop rule: the low 7 bits of the draw fall under the threshold.
pub open spec fn dropped(draw: u64, drop_threshold: u64) -> bool {
    draw % 128 < drop_threshold
}

/// The largest datagram that a receive buffer must hold.
pub const BUFF_ALLOCATION_SIZE: usize = 1024;

/// Relies on `rand::random`: it returns some value; nothing is assumed about which.
pub assume_specification<T>[ rand::random::<T> ]() -> T
    where
        rand::distributions::Standard: rand::distributions::Distribution<T>,
;

impl Header {
    /// Takes a received datagram: one from another host than the peer is refused with
    /// `WrongHost`; one that the drop rule picks with `draw` is turned into `Timeout`;
    /// the rest is decoded.
    pub fn accept(buf: &[u8], from_peer: bool, draw: u64, drop_threshold: u64) -> (r: Result<
        Header,
        TFTPError,
    >)
        ensures
            !from_peer ==> r matches Err(TFTPError::WrongHost),
            from_peer && dropped(draw, drop_threshold) ==> r matches Err(TFTPError::Timeout),
            from_peer && !dropped(draw, drop_threshold) ==> match r {
                Ok(h) => decode_packet(buf@) == Ok::<_, ErrorView>(h@),
                Err(e) => decode_packet(buf@) == Err::<PacketView, _>(e@),
            },
            r matches Ok(Header::Data(d)) ==> d.wf() && d.block_number < BLOCK_SPACE,
    {
        if !from_peer {
            return Err(TFTPError::WrongHost);
        }
        if draw % 128 < drop_threshold {
            return Err(TFTPError::Timeout);
        }
        Header::from_raw(buf)
    }

    /// Like `accept`, with the draw of the drop rule taken at random.
    pub fn recv(buf: &[u8], from_peer: bool, drop_threshold: u64) -> (r: Result<Header, TFTPError>)
        ensures
            !from_peer ==> r matches Err(TFTPError::WrongHost),
            from_peer && drop_threshold >= 128 ==> r matches Err(TFTPError::Timeout),
            from_peer ==> (r matches Err(TFTPError::Timeout)) || match r {
                Ok(h) => decode_packet(buf@) == Ok::<_, ErrorView>(h@),
                Err(e) => decode_packet(buf@) == Err::<PacketView, _>(e@),
            },
            drop_threshold == 0 && from_peer ==> match r {
                Ok(h) => decode_packet(buf@) == Ok::<_, ErrorView>(h@),
                Err(e) => decode_packet(buf@) == Err::<PacketView, _>(e@),
            },
            r matches Ok(Header::Data(d)) ==> d.wf() && d.block_number < BLOCK_SPACE,
    {
        let draw: u64 = rand::random::<u64>();
        Header::accept(buf, from_peer, draw, drop_threshold)
    }
}

impl Event {
    /// The event that a receive attempt amounts to: a packet, a timeout (a synthetic
    /// drop included), or an unusable datagram.
    pub fn from_received(r: Result<Header, TFTPError>) -> (e: Event)
        ensures
            r matches Ok(h) ==> (e matches Event::Packet(p) && p@ == h@),
            r matches Err(TFTPError::Timeout) ==> e is Timeout,
            (r is Err && !(r matches Err(TFTPError::Timeout))) ==> e is Unusable,
    {
        match r {
            Ok(h) => Event::Packet(h),
            Err(TFTPError::Timeout) => Event::Timeout,
            Err(_) => Event::Unusable,
        }
    }
}

} // verus!

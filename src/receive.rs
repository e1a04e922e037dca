use vstd::prelude::*;

use crate::bits::{block_set_members, BlockSet};
use crate::error::TFTPError;
use crate::header::{DataHeader, ErrorCode, ErrorHeader, Header, BLOCK_SPACE, MAX_DATA_LEN};
use crate::send::{block_count, block_payload, ewma, elapsed, MAX_ATTEMPTS};
use crate::wire::{fatal_kind, Event};

verus! {

/// A transfer with no packet from the peer for this long (in nanoseconds) is dead.
pub const TOTAL_TIMEOUT: u64 = 10000000000;

/// The inter-arrival estimate before any measurement: one second, in nanoseconds.
pub const INITIAL_PACKET_TIME: u64 = 1000000000;

/// How many copies of the final acknowledgement are sent.
pub const FINAL_ACK_COPIES: usize = 4;

/// The destination after writing `payload` at byte `start`: it grows (with zeros) to
/// hold the payload, and is never shortened.
pub open spec fn write_at(file: Seq<u8>, start: int, payload: Seq<u8>) -> Seq<u8> {
    let end = start + payload.len();
    let len = if end > file.len() {
        end
    } else {
        file.len() as int
    };
    Seq::new(
        len as nat,
        |i: int|
            if start <= i < end {
                payload[i - start]
            } else if i < file.len() {
                file[i]
            } else {
                0u8
            },
    )
}

/// The destination after DATA block `bn` carrying `payload`.
pub open spec fn apply_block(file: Seq<u8>, bn: int, payload: Seq<u8>) -> Seq<u8> {
    write_at(file, bn * MAX_DATA_LEN, payload)
}

/// Every block of `[0, k]` has been received.
pub open spec fn received_through(received: Set<int>, k: int) -> bool {
    forall|i: int| 0 <= i <= k ==> #[trigger] received.contains(i)
}

/// The state of a receiving engine.
pub struct ReceiveView {
    /// The highest block received so far.
    pub highest_block: Option<int>,
    /// Whether a short (final) block has been received.
    pub got_final: bool,
    pub received: Set<int>,
    /// The highest block `k` such that every block of `[0, k]` has been received.
    pub consec_recv: Option<int>,
    /// Consecutive timeouts since the last packet.
    pub error_count: int,
    /// The average time between packets, in nanoseconds.
    pub packet_time: int,
    /// When the last packet arrived.
    pub last_time: u64,
}

/// What holds of a receiving engine in every state: the received blocks lie in
/// `[0, highest_block]`, and `consec_recv` is exactly the end of the run of received
/// blocks from zero (the cumulative acknowledgement).
pub open spec fn receive_inv(v: ReceiveView) -> bool {
    &&& match v.highest_block {
        None => v.received == Set::<int>::empty(),
        Some(h) => 0 <= h < BLOCK_SPACE && v.received.contains(h) && forall|i: int|
            #[trigger] v.received.contains(i) ==> 0 <= i <= h,
    }
    &&& match v.consec_recv {
        None => !v.received.contains(0),
        Some(k) => 0 <= k && received_through(v.received, k) && !v.received.contains(k + 1),
    }
    &&& 0 <= v.error_count <= MAX_ATTEMPTS + 1
    &&& 0 <= v.packet_time <= u64::MAX
}

/// Whether the transfer is complete: the final block has come, and every block up
/// to the highest one.
pub open spec fn receive_complete(v: ReceiveView) -> bool {
    v.got_final && v.highest_block is Some && received_through(
        v.received,
        v.highest_block->Some_0,
    )
}

/// The highest block after block `bn` arrives.
pub open spec fn highest_after(h: Option<int>, bn: int) -> Option<int> {
    match h {
        Some(x) => if x > bn {
            Some(x)
        } else {
            Some(bn)
        },
        None => Some(bn),
    }
}

/// The timing after a packet arrives at `now`: the inter-arrival average takes the
/// gap since the last packet, and the timeout count starts over.
pub open spec fn after_packet(v: ReceiveView, now: u64) -> ReceiveView {
    ReceiveView {
        packet_time: ewma(v.packet_time, elapsed(now, v.last_time)),
        last_time: now,
        error_count: 0,
        ..v
    }
}

/// What the caller of `ReceiveFile::poll` does next.
#[derive(Debug)]
pub enum ReceiveAction {
    /// Acknowledge every block up to this one, then receive again.
    SendAck(usize),
    /// Send `FINAL_ACK_COPIES` acknowledgements of this block: the transfer is complete.
    Finish(usize),
    /// Receive again.
    Wait,
    /// The peer gave up: stop with this error, sending nothing.
    Abort(TFTPError),
    /// Send the `giving_up` packet (up to `MAX_ATTEMPTS` tries), then stop with this error.
    GiveUp(TFTPError),
    /// Send the `giving_up` packet, then stop with the socket error that was just met.
    GiveUpIo,
}

/// The receiving side of a transfer: which blocks have arrived, the cumulative
/// acknowledgement, and the timing estimates. The destination's bytes are handed in
/// by the caller.
pub struct ReceiveFile {
    highest_block: Option<usize>,
    received_last_block: bool,
    received: BlockSet,
    consec_recv: Option<usize>,
    error_count: usize,
    packet_time: u64,
    last_time: u64,
}

impl View for ReceiveFile {
    type V = ReceiveView;

    closed spec fn view(&self) -> ReceiveView {
        ReceiveView {
            highest_block: match self.highest_block {
                Some(h) => Some(h as int),
                None => None,
            },
            got_final: self.received_last_block,
            received: block_set_members(self.received),
            consec_recv: match self.consec_recv {
                Some(k) => Some(k as int),
                None => None,
            },
            error_count: self.error_count as int,
            packet_time: self.packet_time as int,
            last_time: self.last_time,
        }
    }
}

fn write_bytes_at(file: &mut Vec<u8>, start: usize, payload: &[u8])
    requires
        start + payload@.len() <= usize::MAX,
    ensures
        final(file)@ == write_at(old(file)@, start as int, payload@),
{
    let end: usize = start + payload.len();
    let ghost orig = file@;
    while file.len() < end
        invariant
            orig.len() <= file@.len() <= (if end > orig.len() { end as int } else { orig.len() as int }),
            forall|i: int| 0 <= i < file@.len() ==> #[trigger] file@[i] == (if i < orig.len() {
                orig[i]
            } else {
                0u8
            }),
            end == start + payload@.len(),
        decreases end - file@.len(),
    {
        file.push(0u8);
    }
    let mut j: usize = 0;
    while j < payload.len()
        invariant
            j <= payload@.len(),
            end == start + payload@.len(),
            file@.len() == (if end > orig.len() { end as int } else { orig.len() as int }),
            forall|i: int| 0 <= i < file@.len() ==> #[trigger] file@[i] == (if start <= i < start
                + j {
                payload@[i - start]
            } else if i < orig.len() {
                orig[i]
            } else {
                0u8
            }),
        decreases payload@.len() - j,
    {
        file[start + j] = payload[j];
        j = j + 1;
    }
    assert(file@ =~= write_at(orig, start as int, payload@));
}

impl ReceiveFile {
    /// A receiving engine that has seen nothing yet, started at time `now`.
    pub fn new(now: u64) -> (r: ReceiveFile)
        ensures
            receive_inv(r@),
            r@ == (ReceiveView {
                highest_block: None,
                got_final: false,
                received: Set::<int>::empty(),
                consec_recv: None,
                error_count: 0,
                packet_time: INITIAL_PACKET_TIME as int,
                last_time: now,
            }),
    {
        ReceiveFile {
            highest_block: None,
            received_last_block: false,
            received: BlockSet::new(),
            consec_recv: None,
            error_count: 0,
            packet_time: INITIAL_PACKET_TIME,
            last_time: now,
        }
    }

    /// The average time between packets, in nanoseconds; the read timeout is half as
    /// long again.
    pub fn packet_time(&self) -> (r: u64)
        ensures
            r == self@.packet_time,
    {
        self.packet_time
    }

    /// The cumulative acknowledgement, if block zero has come.
    pub fn consec_recv(&self) -> (r: Option<usize>)
        ensures
            r matches Some(k) ==> self@.consec_recv == Some(k as int),
            r is None ==> self@.consec_recv is None,
    {
        self.consec_recv
    }

    /// Whether the transfer is complete.
    pub fn is_complete(&self) -> (r: bool)
        requires
            receive_inv(self@),
        ensures
            r == receive_complete(self@),
    {
        match (self.highest_block, self.consec_recv) {
            (Some(h), Some(k)) => {
                proof {
                    assert(self@.received.contains(k as int));
                    if k < h {
                        assert(!self@.received.contains(k + 1));
                        assert(!received_through(self@.received, h as int));
                    }
                }
                self.received_last_block && k == h
            },
            (Some(h), None) => {
                proof {
                    if received_through(self@.received, h as int) {
                        assert(self@.received.contains(0));
                    }
                }
                false
            },
            _ => false,
        }
    }

    /// Writes DATA block `data` into `file` and records it: the file grows to hold the
    /// block, a short block marks the end of the file, and the cumulative
    /// acknowledgement walks forward over the blocks now present.
    pub fn handle_data(&mut self, data: &DataHeader, file: &mut Vec<u8>) -> (r: Result<(), TFTPError>)
        requires
            receive_inv(old(self)@),
            data.wf(),
            data.block_number < BLOCK_SPACE,
        ensures
            receive_inv(final(self)@),
            r is Err ==> ((r matches Err(TFTPError::FileTooLarge)) && final(self)@ == old(self)@ && final(file)@ == old(file)@),
            r is Ok <==> (data.block_number as int) * MAX_DATA_LEN + data.data_len <= usize::MAX,
            r is Ok ==> {
                &&& final(file)@ == apply_block(old(file)@, data.block_number as int, data.payload())
                &&& final(self)@.received == old(self)@.received.insert(data.block_number as int)
                &&& final(self)@.got_final == (old(self)@.got_final || data.data_len < MAX_DATA_LEN)
                &&& final(self)@.highest_block == highest_after(old(self)@.highest_block, data.block_number as int)
                &&& old(self)@.consec_recv matches Some(k) ==> (final(self)@.consec_recv matches Some(k2) && k <= k2)
                &&& final(self)@.error_count == old(self)@.error_count
                &&& final(self)@.packet_time == old(self)@.packet_time
                &&& final(self)@.last_time == old(self)@.last_time
            },
    {
        let bn = data.block_number;
        let start64: u64 = (bn as u64) * 512;
        let end64: u64 = start64 + data.data_len as u64;
        if end64 > usize::MAX as u64 {
            return Err(TFTPError::FileTooLarge);
        }
        let start: usize = bn * MAX_DATA_LEN;
        let payload = data_payload(data);
        write_bytes_at(file, start, payload.as_slice());
        let ghost v = self@;
        self.received.insert(bn);
        if data.data_len < MAX_DATA_LEN {
            self.received_last_block = true;
        }
        self.highest_block = match self.highest_block {
            Some(h) => if h > bn { Some(h) } else { Some(bn) },
            None => Some(bn),
        };
        let ghost received = self@.received;
        let mut k: usize = match self.consec_recv {
            Some(k) => k,
            None => {
                if self.received.contains(0) {
                    0
                } else {
                    assert(self@ =~= (ReceiveView { consec_recv: None, ..self@ }));
                    return Ok(());
                }
            },
        };
        let h: usize = match self.highest_block { Some(h) => h, None => 0 };
        assert(received.contains(k as int));
        while self.received.contains(k + 1)
            invariant
                self@.received == received,
                received_through(received, k as int),
                self@.highest_block == Some(h as int),
                forall|i: int| #[trigger] received.contains(i) ==> 0 <= i <= h,
                h < BLOCK_SPACE,
                k <= h,
                v.consec_recv matches Some(k0) ==> k0 <= k,
            decreases h - k,
        {
            k = k + 1;
        }
        self.consec_recv = Some(k);
        Ok(())
    }
}

/// The ERROR packet sent when the receiving side gives up.
pub fn giving_up() -> (r: Header)
    ensures
        r matches Header::Error(e) && e.error_code == ErrorCode::Undefined && e.error_message@
            == "Giving up"@,
{
    broadcast use vstd::string::to_string_from_display_ensures_for_str;

    Header::Error(ErrorHeader { error_code: ErrorCode::Undefined, error_message: "Giving up".to_string() })
}

fn ewma_u64(avg: u64, sample: u64) -> (r: u64)
    ensures
        r == ewma(avg as int, sample as int),
{
    let part: u128 = (avg as u128) * 15 / 16;
    assert(part <= avg) by (nonlinear_arith)
        requires
            part == (avg as int) * 15 / 16,
    ;
    sample / 16 + part as u64
}

impl ReceiveFile {
    fn note_packet(&mut self, now: u64)
        requires
            receive_inv(old(self)@),
        ensures
            receive_inv(final(self)@),
            final(self)@ == after_packet(old(self)@, now),
    {
        let gap: u64 = if now >= self.last_time {
            now - self.last_time
        } else {
            0
        };
        self.packet_time = ewma_u64(self.packet_time, gap);
        self.last_time = now;
        self.error_count = 0;
    }

    /// One step of the engine on what a receive attempt brought, at time `now`, with
    /// `file` the destination's bytes.
    /// - A complete transfer finishes with the final acknowledgement, whatever arrived.
    /// - After `TOTAL_TIMEOUT` without a packet the engine gives up.
    /// - A DATA block is written (`handle_data`) and acknowledged cumulatively, or
    ///   finishes the transfer when it completes it.
    /// - An ERROR from the peer aborts with its message.
    /// - A timeout re-acknowledges; one more than `MAX_ATTEMPTS` in a row gives up.
    /// - Unusable datagrams and recoverable socket failures are ignored; fatal ones
    ///   give up.
    pub fn poll(&mut self, ev: Event, now: u64, file: &mut Vec<u8>) -> (r: ReceiveAction)
        requires
            receive_inv(old(self)@),
            ev matches Event::Packet(Header::Data(d)) ==> d.wf() && d.block_number < BLOCK_SPACE,
        ensures
            receive_inv(final(self)@),
            receive_complete(old(self)@) ==> (r matches ReceiveAction::Finish(h)
                && old(self)@.highest_block == Some(h as int) && final(self)@ == old(self)@
                && final(file)@ == old(file)@),
            !receive_complete(old(self)@) && elapsed(now, old(self)@.last_time) > TOTAL_TIMEOUT ==> (
            r matches ReceiveAction::GiveUp(TFTPError::Timeout) && final(self)@ == old(self)@
                && final(file)@ == old(file)@),
            !receive_complete(old(self)@) && elapsed(now, old(self)@.last_time) <= TOTAL_TIMEOUT
                ==> match ev {
                Event::Packet(Header::Data(d)) => if (d.block_number as int) * MAX_DATA_LEN + d.data_len
                    > usize::MAX {
                    (r matches ReceiveAction::GiveUp(TFTPError::FileTooLarge)) && final(file)@ == old(file)@
                } else {
                    let v = after_packet(old(self)@, now);
                    &&& final(file)@ == apply_block(old(file)@, d.block_number as int, d.payload())
                    &&& final(self)@.received == v.received.insert(d.block_number as int)
                    &&& final(self)@.got_final == (v.got_final || d.data_len < MAX_DATA_LEN)
                    &&& final(self)@.highest_block == highest_after(v.highest_block, d.block_number as int)
                    &&& final(self)@.packet_time == v.packet_time
                    &&& final(self)@.last_time == now
                    &&& final(self)@.error_count == 0
                    &&& old(self)@.consec_recv matches Some(k) ==> (final(self)@.consec_recv matches Some(k2) && k <= k2)
                    &&& if receive_complete(final(self)@) {
                        r matches ReceiveAction::Finish(h) && final(self)@.highest_block == Some(h as int)
                    } else if final(self)@.consec_recv is Some {
                        r matches ReceiveAction::SendAck(k) && final(self)@.consec_recv == Some(k as int)
                    } else {
                        r is Wait
                    }
                },
                Event::Packet(Header::Error(e)) => final(self)@ == old(self)@ && final(file)@ == old(file)@
                    && (r matches ReceiveAction::Abort(TFTPError::PeerError(m)) && m@ == e.error_message@),
                Event::Packet(_) => final(self)@ == after_packet(old(self)@, now) && final(file)@ == old(file)@
                    && r is Wait,
                Event::Timeout => final(file)@ == old(file)@ && if old(self)@.error_count < MAX_ATTEMPTS {
                    &&& final(self)@ == (ReceiveView { error_count: old(self)@.error_count + 1, ..old(self)@ })
                    &&& if old(self)@.consec_recv is Some {
                        r matches ReceiveAction::SendAck(k) && old(self)@.consec_recv == Some(k as int)
                    } else {
                        r is Wait
                    }
                } else {
                    final(self)@ == (ReceiveView { error_count: MAX_ATTEMPTS + 1, ..old(self)@ })
                        && (r matches ReceiveAction::GiveUp(TFTPError::Timeout))
                },
                Event::Unusable => final(self)@ == old(self)@ && final(file)@ == old(file)@ && r is Wait,
                Event::Io(k) => final(self)@ == old(self)@ && final(file)@ == old(file)@ && if fatal_kind(k) {
                    r is GiveUpIo
                } else {
                    r is Wait
                },
            },
    {
        if self.is_complete() {
            let h = match self.highest_block { Some(h) => h, None => 0 };
            return ReceiveAction::Finish(h);
        }
        let gap: u64 = if now >= self.last_time {
            now - self.last_time
        } else {
            0
        };
        if gap > TOTAL_TIMEOUT {
            return ReceiveAction::GiveUp(TFTPError::Timeout);
        }
        match ev {
            Event::Packet(Header::Data(d)) => {
                let ghost before = self@;
                self.note_packet(now);
                match self.handle_data(&d, file) {
                    Err(e) => {
                        return ReceiveAction::GiveUp(e);
                    },
                    Ok(()) => {},
                }
                if self.is_complete() {
                    let h = match self.highest_block { Some(h) => h, None => 0 };
                    ReceiveAction::Finish(h)
                } else {
                    match self.consec_recv {
                        Some(k) => ReceiveAction::SendAck(k),
                        None => ReceiveAction::Wait,
                    }
                }
            },
            Event::Packet(Header::Error(e)) => ReceiveAction::Abort(TFTPError::PeerError(e.error_message)),
            Event::Packet(_) => {
                self.note_packet(now);
                ReceiveAction::Wait
            },
            Event::Timeout => {
                if self.error_count < MAX_ATTEMPTS {
                    self.error_count = self.error_count + 1;
                    match self.consec_recv {
                        Some(k) => ReceiveAction::SendAck(k),
                        None => ReceiveAction::Wait,
                    }
                } else {
                    self.error_count = MAX_ATTEMPTS + 1;
                    ReceiveAction::GiveUp(TFTPError::Timeout)
                }
            },
            Event::Unusable => ReceiveAction::Wait,
            Event::Io(k) => {
                if k.is_fatal() {
                    ReceiveAction::GiveUpIo
                } else {
                    ReceiveAction::Wait
                }
            },
        }
    }
}

fn data_payload(data: &DataHeader) -> (r: Vec<u8>)
    requires
        data.wf(),
    ensures
        r@ == data.payload(),
{
    let mut v: Vec<u8> = Vec::with_capacity(data.data_len);
    let mut i: usize = 0;
    while i < data.data_len
        invariant
            data.wf(),
            i <= data.data_len,
            v@ == data.data@.subrange(0, i as int),
        decreases data.data_len - i,
    {
        v.push(data.data[i]);
        i = i + 1;
        assert(v@ =~= data.data@.subrange(0, i as int));
    }
    v
}

/// Delivering a DATA block a second time leaves the destination as the first
/// delivery left it.
pub proof fn lemma_block_redelivery(file: Seq<u8>, bn: int, payload: Seq<u8>)
    requires
        0 <= bn,
    ensures
        apply_block(apply_block(file, bn, payload), bn, payload) == apply_block(file, bn, payload),
{
    assert(apply_block(apply_block(file, bn, payload), bn, payload) =~= apply_block(
        file,
        bn,
        payload,
    ));
}

/// The destination after the blocks of `src` are delivered in `order` (repeats and
/// any arrival order allowed), starting from `file`.
pub open spec fn deliver(file: Seq<u8>, src: Seq<u8>, order: Seq<int>) -> Seq<u8>
    decreases order.len(),
{
    if order.len() == 0 {
        file
    } else {
        deliver(apply_block(file, order[0], block_payload(src, order[0])), src, order.drop_first())
    }
}

/// The byte just past block `b` of `src`.
pub open spec fn block_end(src: Seq<u8>, b: int) -> int {
    if b * MAX_DATA_LEN + MAX_DATA_LEN <= src.len() {
        b * MAX_DATA_LEN + MAX_DATA_LEN
    } else {
        src.len() as int
    }
}

/// `file` holds the blocks `delivered` of `src` where `src` has them.
pub open spec fn covers(file: Seq<u8>, src: Seq<u8>, delivered: Set<int>) -> bool {
    &&& file.len() <= src.len()
    &&& forall|b: int| #[trigger]
        delivered.contains(b) ==> 0 <= b < block_count(src.len() as int) && block_end(src, b)
            <= file.len()
    &&& forall|i: int|
        0 <= i < file.len() && #[trigger] delivered.contains(i / MAX_DATA_LEN as int) ==> file[i]
            == src[i]
}

proof fn lemma_in_block(i: int, c: int)
    requires
        0 <= i,
        c == i / 512,
    ensures
        c * 512 <= i < c * 512 + 512,
{
}

proof fn lemma_deliver_one(file: Seq<u8>, src: Seq<u8>, delivered: Set<int>, b: int)
    requires
        covers(file, src, delivered),
        0 <= b < block_count(src.len() as int),
    ensures
        covers(apply_block(file, b, block_payload(src, b)), src, delivered.insert(b)),
{
    let p = block_payload(src, b);
    let start = b * 512;
    assert(start <= src.len()) by (nonlinear_arith)
        requires
            0 <= b <= src.len() / 512,
            start == b * 512,
    ;
    assert(p.len() == block_end(src, b) - start);
    let f2 = apply_block(file, b, p);
    let d2 = delivered.insert(b);
    assert forall|i: int| 0 <= i < f2.len() && #[trigger] d2.contains(i / MAX_DATA_LEN as int) implies f2[i]
        == src[i] by {
        let c = i / 512;
        lemma_in_block(i, c);
        if start <= i < start + p.len() {
            assert(f2[i] == p[i - start]);
        } else if c == b {
            assert(false);
        } else {
            assert(delivered.contains(c));
            if i >= file.len() {
                assert(block_end(src, c) <= file.len());
                assert(false);
            }
        }
    }
}

proof fn lemma_deliver_all(file: Seq<u8>, src: Seq<u8>, order: Seq<int>, delivered: Set<int>)
    requires
        covers(file, src, delivered),
        forall|k: int| 0 <= k < order.len() ==> 0 <= #[trigger] order[k] < block_count(src.len() as int),
    ensures
        covers(deliver(file, src, order), src, delivered.union(order.to_set())),
    decreases order.len(),
{
    if order.len() > 0 {
        let b = order[0];
        lemma_deliver_one(file, src, delivered, b);
        let rest = order.drop_first();
        assert forall|k: int| 0 <= k < rest.len() implies 0 <= #[trigger] rest[k] < block_count(src.len() as int) by {
            assert(rest[k] == order[k + 1]);
        }
        lemma_deliver_all(apply_block(file, b, block_payload(src, b)), src, rest, delivered.insert(b));
        assert(delivered.insert(b).union(rest.to_set()) =~= delivered.union(order.to_set())) by {
            assert forall|x: int| #[trigger] order.to_set().contains(x) implies x == b || rest.to_set().contains(x) by {
                let k = choose|k: int| 0 <= k < order.len() && order[k] == x;
                if k > 0 {
                    assert(rest[k - 1] == x);
                }
            }
            assert forall|x: int| #[trigger] rest.to_set().contains(x) implies order.to_set().contains(x) by {
                let k = choose|k: int| 0 <= k < rest.len() && rest[k] == x;
                assert(order[k + 1] == x);
            }
            assert(order.to_set().contains(b)) by {
                assert(order[0] == b);
            }
        }
    }
}

/// Once every block of a file has been delivered, in any order and with any repeats,
/// the destination (empty at the start) holds exactly the file's bytes.
pub proof fn lemma_transfer_reproduces_source(src: Seq<u8>, order: Seq<int>)
    requires
        forall|k: int| 0 <= k < order.len() ==> 0 <= #[trigger] order[k] < block_count(src.len() as int),
        forall|b: int| 0 <= b < block_count(src.len() as int) ==> #[trigger] order.contains(b),
    ensures
        deliver(Seq::empty(), src, order) == src,
{
    let empty = Seq::<u8>::empty();
    assert(covers(empty, src, Set::empty()));
    lemma_deliver_all(empty, src, order, Set::empty());
    let f = deliver(empty, src, order);
    let d = Set::<int>::empty().union(order.to_set());
    let last: int = src.len() as int / 512;
    assert(order.contains(last));
    assert(d.contains(last));
    assert(block_end(src, last) == src.len()) by (nonlinear_arith)
        requires
            last == src.len() / 512,
    ;
    assert forall|i: int| 0 <= i < f.len() implies f[i] == src[i] by {
        let c = i / 512;
        lemma_in_block(i, c);
        assert(c <= last) by (nonlinear_arith)
            requires
                c == i / 512,
                0 <= i < src.len(),
                last == src.len() / 512,
        ;
        assert(order.contains(c));
        assert(d.contains(c));
    }
    assert(f =~= src);
}

/// Of the blocks of a file, only the last is short: a receiver marks the end of the
/// file exactly when block `block_count - 1` arrives.
pub proof fn lemma_only_last_block_is_short(src: Seq<u8>, b: int)
    requires
        0 <= b < block_count(src.len() as int),
    ensures
        (block_payload(src, b).len() < MAX_DATA_LEN) == (b == block_count(src.len() as int) - 1),
{
    let n = src.len() as int;
    assert(b * 512 <= n) by (nonlinear_arith)
        requires
            0 <= b <= n / 512,
    ;
    if b < n / 512 {
        assert(b * 512 + 512 <= n) by (nonlinear_arith)
            requires
                0 <= b < n / 512,
        ;
    } else {
        assert(n < b * 512 + 512) by (nonlinear_arith)
            requires
                b == n / 512,
                0 <= n,
        ;
    }
}

/// When a transfer completes, the cumulative acknowledgement has reached the highest
/// block: every block up to it has been acknowledged.
pub proof fn lemma_complete_acks_highest(v: ReceiveView)
    requires
        receive_inv(v),
        receive_complete(v),
    ensures
        v.consec_recv == v.highest_block,
{
    let h = v.highest_block->Some_0;
    assert(v.received.contains(0));
    let k = v.consec_recv->Some_0;
    assert(v.received.contains(k));
    if k < h {
        assert(v.received.contains(k + 1));
    }
}

} // verus!

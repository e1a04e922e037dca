use std::collections::HashMap;
use vstd::prelude::*;

use crate::bits::{bitvec_from_elem, block_set_members, BlockSet};
use crate::error::TFTPError;
use crate::header::{AckHeader, DataHeader, Header, MAX_DATA_LEN};
use crate::wire::{fatal_kind, Event, Progress};

verus! {

broadcast use vstd::std_specs::hash::group_hash_axioms;

/// The largest window, in blocks.
pub const MAX_WINDOW_SIZE: usize = 256;

/// How many consecutive timeouts (or failed sends) are tolerated.
pub const MAX_ATTEMPTS: usize = 8;

/// Files of this many bytes or more do not fit in the 24-bit block space.
pub const MAX_FILE_LEN: u64 = 8589934592;

/// The round-trip estimate before any measurement: one second, in nanoseconds.
pub const INITIAL_RTT: u64 = 1000000000;

/// The number of DATA packets of a file: one per started block, and an empty one
/// after a length that is a multiple of the block size (so the last is always short).
pub open spec fn block_count(file_len: int) -> int {
    file_len / MAX_DATA_LEN as int + 1
}

/// The payload of block `n` of a file.
pub open spec fn block_payload(file: Seq<u8>, n: int) -> Seq<u8> {
    let start = n * MAX_DATA_LEN;
    let end = if start + MAX_DATA_LEN <= file.len() {
        start + MAX_DATA_LEN
    } else {
        file.len() as int
    };
    file.subrange(start, end)
}

/// One step of the round-trip average: `rtt/16 + avg·15/16`.
pub open spec fn ewma(avg: int, rtt: int) -> int {
    rtt / 16 + (avg * 15) / 16
}

/// The time from `then` to `now`, or zero if the clock went backwards.
pub open spec fn elapsed(now: u64, then: u64) -> int {
    if now >= then {
        now - then
    } else {
        0
    }
}

/// The round-trip average after feeding, in order, the measurements of the blocks
/// in `[lo, hi)` that have a send time.
pub open spec fn rtt_fold(avg: int, times: Map<usize, u64>, lo: int, hi: int, now: u64) -> int
    decreases hi - lo,
{
    if hi <= lo {
        avg
    } else {
        let a = rtt_fold(avg, times, lo, hi - 1, now);
        if times.contains_key((hi - 1) as usize) {
            ewma(a, elapsed(now, times[(hi - 1) as usize]))
        } else {
            a
        }
    }
}

pub open spec fn min_int(a: int, b: int) -> int {
    if a <= b {
        a
    } else {
        b
    }
}

/// The blocks of `[lo, hi)` that are in `pending`, in increasing order.
pub open spec fn pending_between(pending: Set<int>, lo: int, hi: int) -> Seq<usize>
    decreases hi - lo,
{
    if hi <= lo {
        Seq::empty()
    } else if pending.contains(hi - 1) {
        pending_between(pending, lo, hi - 1).push((hi - 1) as usize)
    } else {
        pending_between(pending, lo, hi - 1)
    }
}

/// The state of a sending engine.
pub struct SendView {
    pub file_len: int,
    pub num_blocks: int,
    /// Blocks that still await an acknowledgement.
    pub pending: Set<int>,
    pub window_size: int,
    /// The window of blocks in flight is `[window_lo, window_hi)`.
    pub window_lo: int,
    pub window_hi: int,
    pub stop_and_wait: bool,
    /// Consecutive timeouts since the last packet from the peer.
    pub timeouts: int,
    /// The round-trip average, in nanoseconds.
    pub average_rtt: int,
    /// When each unacknowledged block was last sent.
    pub send_times: Map<usize, u64>,
}

/// What holds of a sending engine in every state: the window stays within
/// `[1, MAX_WINDOW_SIZE]` blocks and never spans more than the window size, and only
/// blocks at or above the window's start await an acknowledgement.
pub open spec fn send_inv(v: SendView) -> bool {
    &&& 0 <= v.file_len < MAX_FILE_LEN
    &&& v.num_blocks == block_count(v.file_len)
    &&& 1 <= v.window_size <= MAX_WINDOW_SIZE
    &&& v.stop_and_wait ==> v.window_size == 1
    &&& 0 <= v.window_lo <= v.window_hi <= v.num_blocks
    &&& v.window_hi == min_int(v.window_lo + v.window_size, v.num_blocks)
    &&& forall|i: int| #[trigger] v.pending.contains(i) ==> v.window_lo <= i < v.num_blocks
    &&& 0 <= v.timeouts <= MAX_ATTEMPTS + 1
    &&& 0 <= v.average_rtt <= u64::MAX
}

/// The window size after an acknowledgement of `b` that is not stale: doubled (up to
/// the maximum) when the whole window was acknowledged, halved (down to one) otherwise,
/// and left alone in stop-and-wait mode.
pub open spec fn adapted_window(v: SendView, b: int) -> int {
    if v.stop_and_wait {
        v.window_size
    } else if b + 1 == v.window_hi {
        min_int(v.window_size * 2, MAX_WINDOW_SIZE as int)
    } else {
        let h = v.window_size / 2;
        if h < 1 {
            1
        } else {
            h
        }
    }
}

/// The state after an acknowledgement of block `b` at time `now`.
/// - A block the file does not have is ignored.
/// - A stale one (`b < window_lo`) rewinds the window to `b + 1` and marks the
///   blocks in between as pending again.
/// - Otherwise every block of `[window_lo, b]` is acknowledged, its round trip is fed
///   to the average, the window size adapts, and the window slides to `b + 1`.
pub open spec fn after_ack(v: SendView, b: int, now: u64) -> SendView {
    if b >= v.num_blocks {
        v
    } else if b < v.window_lo {
        SendView {
            pending: v.pending.union(Set::new(|i: int| b < i < v.window_lo)),
            window_lo: b + 1,
            window_hi: min_int(b + 1 + v.window_size, v.num_blocks),
            ..v
        }
    } else {
        let ws = adapted_window(v, b);
        SendView {
            pending: v.pending.difference(Set::new(|i: int| v.window_lo <= i <= b)),
            window_size: ws,
            window_lo: b + 1,
            window_hi: min_int(b + 1 + ws, v.num_blocks),
            average_rtt: rtt_fold(v.average_rtt, v.send_times, v.window_lo, b + 1, now),
            send_times: v.send_times.remove_keys(
                Set::new(|k: usize| v.window_lo <= k as int <= b),
            ),
            ..v
        }
    }
}

/// What the caller of `SendFile::poll` does next.
#[derive(Debug)]
pub enum SendAction {
    /// Every block has been acknowledged: the transfer is complete.
    Ready,
    /// Send the blocks that `window_blocks` lists, then receive again.
    SendWindow,
    /// Receive again.
    Wait,
    /// Stop with this error.
    Fail(TFTPError),
    /// Stop with the socket error that was just met.
    FailIo,
}

/// The sending side of a transfer: the window of blocks in flight, which blocks await
/// an acknowledgement, and the round-trip estimate. The file's bytes and the socket
/// stay with the caller.
pub struct SendFile {
    file_len: u64,
    num_blocks: usize,
    blocks_pending_acks: BlockSet,
    window_size: usize,
    window_range: (usize, usize),
    stop_and_wait: bool,
    send_times: HashMap<usize, u64>,
    average_rtt: u64,
    timeouts: usize,
}

impl View for SendFile {
    type V = SendView;

    closed spec fn view(&self) -> SendView {
        SendView {
            file_len: self.file_len as int,
            num_blocks: self.num_blocks as int,
            pending: block_set_members(self.blocks_pending_acks),
            window_size: self.window_size as int,
            window_lo: self.window_range.0 as int,
            window_hi: self.window_range.1 as int,
            stop_and_wait: self.stop_and_wait,
            timeouts: self.timeouts as int,
            average_rtt: self.average_rtt as int,
            send_times: self.send_times@,
        }
    }
}

fn ewma_step(avg: u64, rtt: u64) -> (r: u64)
    ensures
        r == ewma(avg as int, rtt as int),
{
    let part: u128 = (avg as u128) * 15 / 16;
    assert(part <= avg) by (nonlinear_arith)
        requires
            part == (avg as int) * 15 / 16,
    ;
    rtt / 16 + part as u64
}

impl SendFile {
    /// A sending engine for a file of `file_len` bytes. The window starts at
    /// `window_size` blocks, clamped to `[1, MAX_WINDOW_SIZE]`; a requested size of one
    /// or less selects stop-and-wait. Files of `MAX_FILE_LEN` bytes or more are refused.
    pub fn new(file_len: u64, window_size: usize) -> (r: Result<SendFile, TFTPError>)
        ensures
            file_len >= MAX_FILE_LEN ==> r matches Err(TFTPError::FileTooLarge),
            file_len < MAX_FILE_LEN ==> (r matches Ok(s) && send_inv(s@) && s@.file_len
                == file_len && s@.window_size == (if window_size < 1 {
                1
            } else if window_size > MAX_WINDOW_SIZE {
                MAX_WINDOW_SIZE as int
            } else {
                window_size as int
            }) && s@.stop_and_wait == (window_size <= 1) && s@.window_lo == 0 && s@.pending
                == Set::new(|i: int| 0 <= i < s@.num_blocks) && s@.timeouts == 0
                && s@.average_rtt == INITIAL_RTT && s@.send_times == Map::<usize, u64>::empty()),
    {
        if file_len >= MAX_FILE_LEN {
            return Err(TFTPError::FileTooLarge);
        }
        let num_blocks: usize = (file_len / 512) as usize + 1;
        let ws: usize = if window_size < 1 {
            1
        } else if window_size > MAX_WINDOW_SIZE {
            MAX_WINDOW_SIZE
        } else {
            window_size
        };
        let hi: usize = if ws < num_blocks {
            ws
        } else {
            num_blocks
        };
        let bits = bitvec_from_elem(num_blocks, true);
        let pending = BlockSet::from_bit_vec(bits);
        let s = SendFile {
            file_len,
            num_blocks,
            blocks_pending_acks: pending,
            window_size: ws,
            window_range: (0, hi),
            stop_and_wait: window_size <= 1,
            send_times: HashMap::new(),
            average_rtt: INITIAL_RTT,
            timeouts: 0,
        };
        assert(s@.pending =~= Set::new(|i: int| 0 <= i < s@.num_blocks));
        Ok(s)
    }

    pub fn num_blocks(&self) -> (r: usize)
        ensures
            r == self@.num_blocks,
    {
        self.num_blocks
    }

    pub fn file_len(&self) -> (r: u64)
        ensures
            r == self@.file_len,
    {
        self.file_len
    }

    pub fn window_size(&self) -> (r: usize)
        ensures
            r == self@.window_size,
    {
        self.window_size
    }

    /// The window of blocks in flight, `[lo, hi)`.
    pub fn window_range(&self) -> (r: (usize, usize))
        ensures
            r.0 == self@.window_lo,
            r.1 == self@.window_hi,
    {
        self.window_range
    }

    /// The round-trip average, in nanoseconds.
    pub fn average_rtt(&self) -> (r: u64)
        ensures
            r == self@.average_rtt,
    {
        self.average_rtt
    }

    /// Whether every block has been acknowledged.
    pub fn is_done(&self) -> (r: bool)
        requires
            send_inv(self@),
        ensures
            r == (self@.window_lo == self@.num_blocks),
            r ==> self@.pending == Set::<int>::empty(),
    {
        proof {
            if self@.window_lo == self@.num_blocks {
                assert(self@.pending =~= Set::<int>::empty());
            }
        }
        self.window_range.0 == self.num_blocks
    }

    /// DATA packet `block_number` of `file`, whose length the engine was made with;
    /// `None` past the last block.
    pub fn get_block_n(&self, file: &[u8], block_number: usize) -> (r: Option<DataHeader>)
        requires
            send_inv(self@),
            file@.len() == self@.file_len,
        ensures
            block_number >= self@.num_blocks ==> r is None,
            block_number < self@.num_blocks ==> (r matches Some(d) && d.wf() && d.block_number
                == block_number && d.payload() == block_payload(file@, block_number as int)),
    {
        if block_number >= self.num_blocks {
            return None;
        }
        let flen = file.len();
        assert(block_number * 512 <= flen) by (nonlinear_arith)
            requires
                block_number <= flen / 512,
        ;
        let start: usize = block_number * MAX_DATA_LEN;
        let end: usize = if file.len() - start >= MAX_DATA_LEN {
            start + MAX_DATA_LEN
        } else {
            file.len()
        };
        let mut payload: Vec<u8> = Vec::with_capacity(end - start);
        let mut i: usize = start;
        while i < end
            invariant
                start <= i <= end <= file@.len(),
                payload@ == file@.subrange(start as int, i as int),
            decreases end - i,
        {
            payload.push(file[i]);
            i = i + 1;
            assert(payload@ =~= file@.subrange(start as int, i as int));
        }
        Some(DataHeader::new(payload.as_slice(), block_number))
    }

    /// The blocks of the window that still await an acknowledgement, in order: what
    /// is (re)sent after each step.
    pub fn window_blocks(&self) -> (r: Vec<usize>)
        requires
            send_inv(self@),
        ensures
            r@ == pending_between(self@.pending, self@.window_lo, self@.window_hi),
    {
        let mut r: Vec<usize> = Vec::new();
        let mut i: usize = self.window_range.0;
        while i < self.window_range.1
            invariant
                send_inv(self@),
                self@.window_lo <= i <= self@.window_hi,
                r@ == pending_between(self@.pending, self@.window_lo, i as int),
            decreases self@.window_hi - i,
        {
            if self.blocks_pending_acks.contains(i) {
                r.push(i);
            }
            i = i + 1;
        }
        r
    }

    /// Notes that `block_number` was sent at time `now`.
    pub fn record_send(&mut self, block_number: usize, now: u64)
        requires
            send_inv(old(self)@),
        ensures
            send_inv(final(self)@),
            final(self)@ == (SendView {
                send_times: old(self)@.send_times.insert(block_number, now),
                ..old(self)@
            }),
    {
        self.send_times.insert(block_number, now);
    }

    /// Takes an acknowledgement of `ack.block_number` that arrived at time `now` (see
    /// `after_ack`); `Ready` once every block has been acknowledged.
    pub fn handle_ack(&mut self, ack: AckHeader, now: u64) -> (r: Progress)
        requires
            send_inv(old(self)@),
        ensures
            send_inv(final(self)@),
            final(self)@ == after_ack(old(self)@, ack.block_number as int, now),
            r == (if final(self)@.window_lo == final(self)@.num_blocks {
                Progress::Ready
            } else {
                Progress::NotReady
            }),
    {
        let b = ack.block_number;
        let ghost v = self@;
        if b >= self.num_blocks {
            return if self.window_range.0 == self.num_blocks {
                Progress::Ready
            } else {
                Progress::NotReady
            };
        }
        let lo = self.window_range.0;
        if b < lo {
            let mut i: usize = b + 1;
            assert(v.pending.union(Set::new(|j: int| b < j < i)) =~= v.pending);
            while i < lo
                invariant
                    b < i <= lo,
                    lo == v.window_lo,
                    self@ == (SendView {
                        pending: v.pending.union(Set::new(|j: int| b < j < i)),
                        ..v
                    }),
                    send_inv(v),
                    b < v.num_blocks,
                decreases lo - i,
            {
                self.blocks_pending_acks.insert(i);
                i = i + 1;
                assert(self@.pending =~= v.pending.union(Set::new(|j: int| b < j < i)));
            }
            let new_lo = b + 1;
            let hi = if new_lo + self.window_size < self.num_blocks {
                new_lo + self.window_size
            } else {
                self.num_blocks
            };
            self.window_range = (new_lo, hi);
        } else {
            if !self.stop_and_wait {
                if b + 1 == self.window_range.1 {
                    let doubled = self.window_size * 2;
                    self.window_size = if doubled > MAX_WINDOW_SIZE {
                        MAX_WINDOW_SIZE
                    } else {
                        doubled
                    };
                } else {
                    let halved = self.window_size / 2;
                    self.window_size = if halved < 1 {
                        1
                    } else {
                        halved
                    };
                }
            }
            assert(self.window_size == adapted_window(v, b as int));
            let mut i: usize = lo;
            assert(v.pending.difference(Set::new(|j: int| lo <= j < i)) =~= v.pending);
            assert(v.send_times.remove_keys(Set::new(|k: usize| lo <= k < i)) =~= v.send_times);
            while i <= b
                invariant
                    lo <= i <= b + 1,
                    lo == v.window_lo,
                    b < v.num_blocks,
                    send_inv(v),
                    self@ == (SendView {
                        pending: v.pending.difference(Set::new(|j: int| lo <= j < i)),
                        window_size: adapted_window(v, b as int),
                        average_rtt: rtt_fold(v.average_rtt, v.send_times, lo as int, i as int, now),
                        send_times: v.send_times.remove_keys(Set::new(|k: usize| lo <= k < i)),
                        ..v
                    }),
                    0 <= rtt_fold(v.average_rtt, v.send_times, lo as int, i as int, now) <= u64::MAX,
                decreases b + 1 - i,
            {
                let ghost times = self.send_times@;
                self.blocks_pending_acks.remove(i);
                let sent = self.send_times.remove(&i);
                match sent {
                    Some(t) => {
                        let rtt: u64 = if now >= t {
                            now - t
                        } else {
                            0
                        };
                        self.average_rtt = ewma_step(self.average_rtt, rtt);
                        assert(v.send_times.contains_key(i) && v.send_times[i] == t);
                    },
                    None => {
                        assert(!v.send_times.contains_key(i));
                    },
                }
                proof {
                    assert(ewma(self.average_rtt as int, 0) <= u64::MAX) by (nonlinear_arith)
                        requires
                            0 <= self.average_rtt <= u64::MAX,
                    ;
                }
                i = i + 1;
                assert(self@.pending =~= v.pending.difference(Set::new(|j: int| lo <= j < i)));
                assert(self@.send_times =~= v.send_times.remove_keys(
                    Set::new(|k: usize| lo <= k < i),
                ));
            }
            let new_lo = b + 1;
            let hi = if new_lo + self.window_size < self.num_blocks {
                new_lo + self.window_size
            } else {
                self.num_blocks
            };
            self.window_range = (new_lo, hi);
            assert(self@.pending =~= v.pending.difference(Set::new(|j: int| v.window_lo <= j <= b)));
            assert(self@.send_times =~= v.send_times.remove_keys(
                Set::new(|k: usize| v.window_lo <= k as int <= b),
            ));
        }
        assert(self@ =~= after_ack(v, b as int, now));
        if self.window_range.0 == self.num_blocks {
            Progress::Ready
        } else {
            Progress::NotReady
        }
    }

    /// One step of the engine on what a receive attempt brought, at time `now`.
    /// - Once every block is acknowledged the step is `Ready`, whatever arrived.
    /// - An ACK is taken by `handle_ack`; the window is then resent unless it is done.
    /// - An ERROR from the peer fails with its message.
    /// - A timeout counts; up to `MAX_ATTEMPTS` in a row resend the window, one more fails.
    /// - Any other packet resets the timeout count; unusable datagrams and
    ///   recoverable socket failures are ignored; fatal ones end the transfer.
    pub fn poll(&mut self, ev: Event, now: u64) -> (r: SendAction)
        requires
            send_inv(old(self)@),
        ensures
            send_inv(final(self)@),
            old(self)@.window_lo == old(self)@.num_blocks ==> (r is Ready && final(self)@
                == old(self)@),
            old(self)@.window_lo < old(self)@.num_blocks ==> match ev {
                Event::Packet(Header::Ack(a)) => {
                    let v = after_ack(old(self)@, a.block_number as int, now);
                    &&& final(self)@ == (SendView { timeouts: 0, ..v })
                    &&& if v.window_lo == v.num_blocks {
                        r is Ready
                    } else {
                        r is SendWindow
                    }
                },
                Event::Packet(Header::Error(e)) => final(self)@ == old(self)@ && (r matches SendAction::Fail(
                    TFTPError::PeerError(m),
                ) && m@ == e.error_message@),
                Event::Packet(_) => final(self)@ == (SendView { timeouts: 0, ..old(self)@ })
                    && r is Wait,
                Event::Timeout => if old(self)@.timeouts < MAX_ATTEMPTS {
                    final(self)@ == (SendView { timeouts: old(self)@.timeouts + 1, ..old(self)@ })
                        && r is SendWindow
                } else {
                    final(self)@ == (SendView { timeouts: MAX_ATTEMPTS + 1, ..old(self)@ }) && (
                    r matches SendAction::Fail(TFTPError::Timeout))
                },
                Event::Unusable => final(self)@ == old(self)@ && r is Wait,
                Event::Io(k) => final(self)@ == old(self)@ && if fatal_kind(k) {
                    r is FailIo
                } else {
                    r is Wait
                },
            },
    {
        if self.window_range.0 == self.num_blocks {
            return SendAction::Ready;
        }
        match ev {
            Event::Packet(Header::Ack(a)) => {
                self.timeouts = 0;
                match self.handle_ack(a, now) {
                    Progress::Ready => SendAction::Ready,
                    Progress::NotReady => SendAction::SendWindow,
                }
            },
            Event::Packet(Header::Error(e)) => SendAction::Fail(TFTPError::PeerError(e.error_message)),
            Event::Packet(_) => {
                self.timeouts = 0;
                SendAction::Wait
            },
            Event::Timeout => {
                if self.timeouts < MAX_ATTEMPTS {
                    self.timeouts = self.timeouts + 1;
                    SendAction::SendWindow
                } else {
                    self.timeouts = MAX_ATTEMPTS + 1;
                    SendAction::Fail(TFTPError::Timeout)
                }
            },
            Event::Unusable => SendAction::Wait,
            Event::Io(k) => {
                if k.is_fatal() {
                    SendAction::FailIo
                } else {
                    SendAction::Wait
                }
            },
        }
    }
}

/// The window never holds fewer than one or more than `MAX_WINDOW_SIZE` blocks, and
/// never more blocks in flight than the window size.
pub proof fn lemma_window_bounds(v: SendView)
    requires
        send_inv(v),
    ensures
        1 <= v.window_size <= MAX_WINDOW_SIZE,
        v.window_hi - v.window_lo <= v.window_size,
{
}

/// Every step of the engine keeps its invariant, so the window bounds hold in every
/// state that `SendFile::new` and the later steps reach.
pub proof fn lemma_ack_keeps_invariant(v: SendView, b: int, now: u64)
    requires
        send_inv(v),
        0 <= b,
    ensures
        send_inv(after_ack(v, b, now)),
{
    lemma_rtt_fold_bounded(v.average_rtt, v.send_times, v.window_lo, b + 1, now);
    let w = after_ack(v, b, now);
    if 0 <= b < v.num_blocks {
        assert forall|i: int| #[trigger] w.pending.contains(i) implies w.window_lo <= i
            < w.num_blocks by {
            if b < v.window_lo {
                if !v.pending.contains(i) {
                    assert(Set::new(|j: int| b < j < v.window_lo).contains(i));
                }
            } else {
                assert(v.pending.contains(i));
                assert(!Set::new(|j: int| v.window_lo <= j <= b).contains(i));
            }
        }
    }
}

proof fn lemma_rtt_fold_bounded(avg: int, times: Map<usize, u64>, lo: int, hi: int, now: u64)
    requires
        0 <= avg <= u64::MAX,
    ensures
        0 <= rtt_fold(avg, times, lo, hi, now) <= u64::MAX,
    decreases hi - lo,
{
    if hi > lo {
        lemma_rtt_fold_bounded(avg, times, lo, hi - 1, now);
        let a = rtt_fold(avg, times, lo, hi - 1, now);
        if times.contains_key((hi - 1) as usize) {
            let e = elapsed(now, times[(hi - 1) as usize]);
            assert(0 <= ewma(a, e) <= u64::MAX) by (nonlinear_arith)
                requires
                    0 <= a <= u64::MAX,
                    0 <= e <= u64::MAX,
            ;
        }
    }
}

/// Delivering the same acknowledgement a second time changes nothing: the first
/// delivery moves the window's start to `b + 1`, and the second is then stale with
/// no block between it and the window.
pub proof fn lemma_ack_redelivery(v: SendView, b: int, now: u64, later: u64)
    requires
        send_inv(v),
        b >= v.window_lo - 1,
    ensures
        after_ack(after_ack(v, b, now), b, later) == after_ack(v, b, now),
{
    let w = after_ack(v, b, now);
    if b < v.num_blocks {
        assert(w.pending.union(Set::new(|i: int| b < i < w.window_lo)) =~= w.pending);
    }
}

} // verus!

use std::collections::VecDeque;

use tftp::error::TFTPError;
use tftp::header::{AckHeader, Header, RWHeader, RWMode, ReadHeader};
use tftp::receive::{ReceiveAction, ReceiveFile, FINAL_ACK_COPIES};
use tftp::send::{SendAction, SendFile};
use tftp::session::{classify_request, file_not_found, write_ack_verdict, Handshake, Session};
use tftp::wire::Event;

struct Outcome {
    file: Vec<u8>,
    data_sent: Vec<(usize, usize)>,
    acks_sent: Vec<usize>,
    sender_ready: bool,
}

fn source(len: usize) -> Vec<u8> {
    (0..len).map(|i| (i & 0xff) as u8).collect()
}

fn send_window(s: &mut SendFile, src: &[u8], wire: &mut VecDeque<Vec<u8>>, log: &mut Vec<(usize, usize)>, now: u64) {
    for b in s.window_blocks() {
        let d = s.get_block_n(src, b).unwrap();
        log.push((d.block_number, d.data_len));
        wire.push_back(Header::Data(d).into_raw_request());
        s.record_send(b, now);
    }
}

fn run(src: &[u8], window: usize, drop_threshold: u64) -> Outcome {
    run_seeded(src, window, drop_threshold, 0x2545f4914f6cdd1d).unwrap()
}

fn run_seeded(src: &[u8], window: usize, drop_threshold: u64, seed: u64) -> Result<Outcome, String> {
    let mut seed: u64 = seed;
    let mut draw = move || {
        seed = seed.wrapping_mul(6364136223846793005).wrapping_add(1442695040888963407);
        seed >> 33
    };
    let mut s = SendFile::new(src.len() as u64, window).unwrap();
    let mut r = ReceiveFile::new(0);
    let mut file = Vec::new();
    let mut to_receiver: VecDeque<Vec<u8>> = VecDeque::new();
    let mut to_sender: VecDeque<Vec<u8>> = VecDeque::new();
    let mut data_sent = Vec::new();
    let mut acks_sent = Vec::new();
    let mut now: u64 = 0;
    send_window(&mut s, src, &mut to_receiver, &mut data_sent, now);
    let mut sender_ready = false;
    let mut receiver_done = false;
    for _ in 0..100_000 {
        now += 1_000;
        if sender_ready && receiver_done {
            break;
        }
        let idle = to_receiver.is_empty() && to_sender.is_empty();
        if let Some(buf) = to_receiver.pop_front() {
            let ev = Event::from_received(Header::accept(&buf, true, draw(), drop_threshold));
            if receiver_done && matches!(ev, Event::Timeout) {
                continue;
            }
            match r.poll(ev, now, &mut file) {
                ReceiveAction::SendAck(k) => {
                    acks_sent.push(k);
                    to_sender.push_back(AckHeader::new(k).into_raw());
                }
                ReceiveAction::Finish(h) => {
                    receiver_done = true;
                    for _ in 0..FINAL_ACK_COPIES {
                        acks_sent.push(h);
                        to_sender.push_back(AckHeader::new(h).into_raw());
                    }
                }
                ReceiveAction::Wait => {}
                other => return Err(format!("receiver stopped: {:?}", other)),
            }
            continue;
        }
        let ev = match to_sender.pop_front() {
            Some(buf) => Event::from_received(Header::accept(&buf, true, draw(), drop_threshold)),
            None => Event::Timeout,
        };
        if idle && !receiver_done {
            if let ReceiveAction::SendAck(k) = r.poll(Event::Timeout, now, &mut file) {
                acks_sent.push(k);
                to_sender.push_back(AckHeader::new(k).into_raw());
            }
        }
        if sender_ready {
            continue;
        }
        match s.poll(ev, now) {
            SendAction::Ready => sender_ready = true,
            SendAction::SendWindow => send_window(&mut s, src, &mut to_receiver, &mut data_sent, now),
            SendAction::Wait => {}
            other => return Err(format!("sender stopped: {:?}", other)),
        }
    }
    Ok(Outcome { file, data_sent, acks_sent, sender_ready })
}

#[test]
fn lossless_octet_rrq() {
    let rrq = RWHeader::<ReadHeader>::new("blob".to_string(), RWMode::Octet).unwrap().into_raw();
    match classify_request(Header::from_raw(&rrq).unwrap()) {
        Session::Send(name) => assert_eq!(name, "blob"),
        other => panic!("{:?}", other),
    }
    let src = source(1024);
    let out = run(&src, 16, 0);
    assert!(out.sender_ready);
    assert_eq!(out.file, src);
    // Two full blocks, then the empty terminator that a multiple of 512 calls for;
    // every ACK resends the blocks of the window that are still pending.
    let mut distinct = out.data_sent.clone();
    distinct.sort();
    distinct.dedup();
    assert_eq!(distinct, vec![(0, 512), (1, 512), (2, 0)]);
    assert_eq!(&out.acks_sent[..3], &[0, 1, 2]);
    assert!(out.acks_sent.windows(2).all(|w| w[0] <= w[1]));
    assert_eq!(&out.acks_sent[out.acks_sent.len() - 4..], &[2, 2, 2, 2]);
}

#[test]
fn lossless_zero_byte_transfer() {
    let out = run(&[], 16, 0);
    assert!(out.sender_ready);
    assert_eq!(out.data_sent, vec![(0, 0)]);
    assert!(out.file.is_empty());
    assert_eq!(out.acks_sent[0], 0);
}

fn lossy_runs(drop_threshold: u64) -> (usize, Vec<String>) {
    let src = source(10 * 1024);
    let mut done = 0;
    let mut failures = Vec::new();
    for seed in 0..20u64 {
        match run_seeded(&src, 16, drop_threshold, seed * 7919 + 1) {
            Ok(out) => {
                assert!(out.sender_ready);
                assert_eq!(out.file, src);
                assert!(out.data_sent.len() < 5_000);
                done += 1;
            }
            Err(e) => failures.push(e),
        }
    }
    (done, failures)
}

#[test]
fn drop_threshold_64_completes_or_times_out() {
    // Half of all datagrams dropped: a dropped datagram counts as a timeout, and more
    // than MAX_ATTEMPTS of them in a row end the transfer; a transfer that completes
    // always holds the source's bytes.
    let (done, failures) = lossy_runs(64);
    assert!(done >= 1);
    for f in failures {
        assert!(f.ends_with("(Timeout)"), "{}", f);
    }
}

#[test]
fn drop_threshold_16_completes() {
    let (done, failures) = lossy_runs(16);
    assert_eq!(done, 20, "{:?}", failures);
}

#[test]
fn window_one_transfer() {
    let src = source(513);
    let out = run(&src, 1, 0);
    assert!(out.sender_ready);
    assert_eq!(out.file, src);
    assert_eq!(out.data_sent, vec![(0, 512), (1, 1)]);
    assert_eq!(out.acks_sent, vec![0, 1, 1, 1, 1]);
}

#[test]
fn duplicate_final_ack() {
    let src = source(100);
    let mut s = SendFile::new(100, 16).unwrap();
    let mut acks = Vec::new();
    for _ in 0..4 {
        acks.push(Event::from_received(Header::from_raw(&AckHeader::new(0).into_raw())));
    }
    let mut it = acks.into_iter();
    assert!(matches!(s.poll(it.next().unwrap(), 1), SendAction::Ready));
    let state = (s.window_range(), s.window_size(), s.window_blocks());
    for ev in it {
        assert!(matches!(s.poll(ev, 2), SendAction::Ready));
        assert_eq!((s.window_range(), s.window_size(), s.window_blocks()), state);
    }
    assert!(s.get_block_n(&src, 1).is_none());
}

#[test]
fn malformed_rrq_then_valid_rrq() {
    let bad = b"\x00\x01blob".to_vec();
    let ev = Event::from_received(Header::accept(&bad, true, 0, 0));
    assert!(matches!(ev, Event::Unusable));
    let good = RWHeader::<ReadHeader>::new("blob".to_string(), RWMode::Octet).unwrap().into_raw();
    match Header::accept(&good, true, 0, 0) {
        Ok(h) => assert!(matches!(classify_request(h), Session::Send(_))),
        Err(e) => panic!("{:?}", e),
    }
}

#[test]
fn file_not_found_surfaces_as_peer_error() {
    let raw = file_not_found().into_raw_request();
    let ev = Event::from_received(Header::from_raw(&raw));
    let mut r = ReceiveFile::new(0);
    let mut file = Vec::new();
    match r.poll(ev, 1, &mut file) {
        ReceiveAction::Abort(TFTPError::PeerError(m)) => assert_eq!(m, "<No description supplied>"),
        other => panic!("{:?}", other),
    }
}

#[test]
fn wrong_host_and_synthetic_drop() {
    let raw = AckHeader::new(1).into_raw();
    assert!(matches!(Header::accept(&raw, false, 0, 0), Err(TFTPError::WrongHost)));
    assert!(matches!(Header::accept(&raw, true, 63, 64), Err(TFTPError::Timeout)));
    assert!(matches!(Header::accept(&raw, true, 64, 64), Ok(Header::Ack(_))));
    assert!(matches!(Header::accept(&raw, true, 128 + 5, 6), Err(TFTPError::Timeout)));
    assert!(matches!(Header::recv(&raw, true, 0), Ok(Header::Ack(_))));
    assert!(matches!(Header::recv(&raw, true, 128), Err(TFTPError::Timeout)));
}

#[test]
fn write_request_handshake() {
    let ack0 = Event::Packet(Header::Ack(AckHeader::new(0)));
    assert_eq!(write_ack_verdict(&ack0, 0), Handshake::Accepted);
    assert_eq!(write_ack_verdict(&Event::Timeout, 0), Handshake::Retry);
    assert_eq!(write_ack_verdict(&Event::Timeout, 7), Handshake::Refused);
    assert_eq!(write_ack_verdict(&Event::Packet(file_not_found()), 0), Handshake::Refused);
}

use tftp::error::TFTPError;
use tftp::header::{DataHeader, ErrorCode, Header};
use tftp::receive::{giving_up, ReceiveAction, ReceiveFile, INITIAL_PACKET_TIME, TOTAL_TIMEOUT};
use tftp::wire::{Event, IoKind};

fn data(b: usize, payload: &[u8]) -> Event {
    Event::Packet(Header::Data(DataHeader::new(payload, b)))
}

#[test]
fn blocks_are_written_at_their_offsets() {
    let mut r = ReceiveFile::new(0);
    let mut file = Vec::new();
    let full = vec![7u8; 512];
    assert!(matches!(r.poll(data(1, &full), 10, &mut file), ReceiveAction::Wait));
    assert_eq!(file.len(), 1024);
    assert!(file[..512].iter().all(|&b| b == 0));
    assert!(file[512..].iter().all(|&b| b == 7));
    assert_eq!(r.consec_recv(), None);
    match r.poll(data(0, &vec![1u8; 512]), 20, &mut file) {
        ReceiveAction::SendAck(k) => assert_eq!(k, 1),
        other => panic!("{:?}", other),
    }
    assert_eq!(r.consec_recv(), Some(1));
    assert!(file[..512].iter().all(|&b| b == 1));
}

#[test]
fn short_block_finishes_once_all_before_it_are_in() {
    let mut r = ReceiveFile::new(0);
    let mut file = Vec::new();
    assert!(matches!(r.poll(data(1, b"end"), 1, &mut file), ReceiveAction::Wait));
    assert!(!r.is_complete());
    match r.poll(data(0, &vec![2u8; 512]), 2, &mut file) {
        ReceiveAction::Finish(h) => assert_eq!(h, 1),
        other => panic!("{:?}", other),
    }
    assert_eq!(file.len(), 515);
    assert_eq!(&file[512..], b"end");
    assert!(r.is_complete());
}

#[test]
fn redelivered_block_leaves_the_file_alone() {
    let mut r = ReceiveFile::new(0);
    let mut file = Vec::new();
    let d = DataHeader::new(&vec![9u8; 512], 0);
    r.handle_data(&d, &mut file).unwrap();
    let once = file.clone();
    r.handle_data(&d, &mut file).unwrap();
    assert_eq!(file, once);
}

#[test]
fn cumulative_ack_never_goes_back() {
    let mut r = ReceiveFile::new(0);
    let mut file = Vec::new();
    let full = vec![0u8; 512];
    let mut last = 0usize;
    for b in [0usize, 2, 1, 1, 4, 3, 0] {
        if let ReceiveAction::SendAck(k) = r.poll(data(b, &full), 1, &mut file) {
            assert!(k >= last);
            last = k;
        }
    }
    assert_eq!(r.consec_recv(), Some(4));
}

#[test]
fn timeouts_reack_then_give_up() {
    let mut r = ReceiveFile::new(0);
    let mut file = Vec::new();
    r.poll(data(0, &vec![0u8; 512]), 1, &mut file);
    for _ in 0..8 {
        match r.poll(Event::Timeout, 2, &mut file) {
            ReceiveAction::SendAck(k) => assert_eq!(k, 0),
            other => panic!("{:?}", other),
        }
    }
    assert!(matches!(r.poll(Event::Timeout, 3, &mut file), ReceiveAction::GiveUp(TFTPError::Timeout)));
}

#[test]
fn silence_past_total_timeout_gives_up() {
    let mut r = ReceiveFile::new(5);
    let mut file = Vec::new();
    assert!(matches!(
        r.poll(Event::Unusable, 5 + TOTAL_TIMEOUT + 1, &mut file),
        ReceiveAction::GiveUp(TFTPError::Timeout)
    ));
    assert!(matches!(r.poll(Event::Unusable, 5 + TOTAL_TIMEOUT, &mut file), ReceiveAction::Wait));
}

#[test]
fn packet_time_average() {
    let mut r = ReceiveFile::new(0);
    let mut file = Vec::new();
    assert_eq!(r.packet_time(), INITIAL_PACKET_TIME);
    r.poll(data(0, &vec![0u8; 512]), 32_000, &mut file);
    assert_eq!(r.packet_time(), 32_000 / 16 + INITIAL_PACKET_TIME * 15 / 16);
}

#[test]
fn fatal_io_gives_up_and_other_is_ignored() {
    let mut r = ReceiveFile::new(0);
    let mut file = Vec::new();
    assert!(matches!(r.poll(Event::Io(IoKind::BrokenPipe), 1, &mut file), ReceiveAction::GiveUpIo));
    assert!(matches!(r.poll(Event::Io(IoKind::WouldBlock), 1, &mut file), ReceiveAction::Wait));
}

#[test]
fn giving_up_packet() {
    match giving_up() {
        Header::Error(e) => {
            assert_eq!(e.error_code, ErrorCode::Undefined);
            assert_eq!(e.error_message, "Giving up");
        }
        _ => panic!("expected ERROR"),
    }
}

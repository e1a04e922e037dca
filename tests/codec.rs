use tftp::error::TFTPError;
use tftp::header::{
    AckHeader, DataHeader, ErrorCode, ErrorHeader, Header, RWHeader, RWMode, ReadHeader,
    WriteHeader,
};

#[test]
fn ack_encodes_24_bit_block_number() {
    let raw = AckHeader::new(0x012345).into_raw();
    assert_eq!(raw, vec![0x01, 0x04, 0x23, 0x45]);
    match Header::from_raw(&raw) {
        Ok(Header::Ack(a)) => assert_eq!(a.block_number, 0x012345),
        _ => panic!("expected an ACK"),
    }
}

#[test]
fn ack_shorter_than_four_bytes_is_rejected() {
    assert!(matches!(AckHeader::from_raw(&[0, 4, 0]), Err(TFTPError::InvalidHeaderLen)));
}

#[test]
fn read_request_layout() {
    let h = RWHeader::<ReadHeader>::new("blob".to_string(), RWMode::Octet).unwrap();
    let raw = h.into_raw();
    let mut expected = vec![0u8, 1];
    expected.extend_from_slice(b"blob");
    expected.push(0);
    expected.extend_from_slice(b"octet");
    expected.push(0);
    assert_eq!(raw, expected);
}

#[test]
fn write_request_round_trip() {
    let h = RWHeader::<WriteHeader>::new("dir/ä.txt".to_string(), RWMode::NetASCII).unwrap();
    let raw = h.into_raw();
    assert_eq!(raw[1], 2);
    match Header::from_raw(&raw) {
        Ok(Header::Write(w)) => {
            assert_eq!(w.filename, "dir/ä.txt");
            assert_eq!(w.mode, RWMode::NetASCII);
        }
        _ => panic!("expected a write request"),
    }
}

#[test]
fn mail_mode_round_trip() {
    let raw = RWHeader::<ReadHeader>::new("user".to_string(), RWMode::Mail).unwrap().into_raw();
    match RWHeader::<ReadHeader>::from_raw(&raw) {
        Ok(h) => {
            assert_eq!(h.filename, "user");
            assert_eq!(h.mode, RWMode::Mail);
        }
        Err(e) => panic!("{:?}", e),
    }
}

#[test]
fn mode_is_case_insensitive() {
    assert_eq!(RWMode::from_str("OcTeT"), Some(RWMode::Octet));
    assert_eq!(RWMode::from_str("NETASCII"), Some(RWMode::NetASCII));
    assert_eq!(RWMode::from_str("Mail"), Some(RWMode::Mail));
    assert_eq!(RWMode::from_str("binary"), None);
    assert_eq!(RWMode::from_str("octets"), None);
    let raw = b"\x00\x01file\x00OCTET\x00".to_vec();
    match RWHeader::<ReadHeader>::from_raw(&raw) {
        Ok(h) => assert_eq!(h.mode, RWMode::Octet),
        Err(e) => panic!("{:?}", e),
    }
}

#[test]
fn request_new_rejects_bad_filenames() {
    assert!(matches!(
        RWHeader::<ReadHeader>::new(String::new(), RWMode::Octet),
        Err(TFTPError::EmptyFilename)
    ));
    match RWHeader::<ReadHeader>::new("a\0b".to_string(), RWMode::Octet) {
        Err(TFTPError::InvalidFilename(b)) => assert_eq!(b, b"a\0b".to_vec()),
        _ => panic!("expected InvalidFilename"),
    }
}

#[test]
fn request_decode_errors() {
    assert!(matches!(
        RWHeader::<ReadHeader>::from_raw(b"\x00\x01a\x00b"),
        Err(TFTPError::InvalidHeaderLen)
    ));
    assert!(matches!(
        RWHeader::<ReadHeader>::from_raw(b"\x00\x01\x00octet\x00"),
        Err(TFTPError::EmptyFilename)
    ));
    match RWHeader::<ReadHeader>::from_raw(b"\x00\x01abcdef") {
        Err(TFTPError::InvalidFilename(b)) => assert_eq!(b, b"\x00\x01abcdef".to_vec()),
        _ => panic!("expected InvalidFilename"),
    }
    match RWHeader::<ReadHeader>::from_raw(b"\x00\x01ab\x00octet") {
        Err(TFTPError::InvalidMode(b)) => assert_eq!(b, b"\x00\x01ab\x00octet".to_vec()),
        _ => panic!("expected InvalidMode"),
    }
    assert!(matches!(
        RWHeader::<ReadHeader>::from_raw(b"\x00\x01abc\x00\x00"),
        Err(TFTPError::EmptyMode)
    ));
    match RWHeader::<ReadHeader>::from_raw(b"\x00\x01ab\x00binary\x00") {
        Err(TFTPError::InvalidMode(_)) => {}
        _ => panic!("expected InvalidMode"),
    }
    match RWHeader::<ReadHeader>::from_raw(b"\x00\x01a\xffb\x00octet\x00") {
        Err(TFTPError::InvalidUnicodeString(b)) => assert_eq!(b, b"a\xffb".to_vec()),
        _ => panic!("expected InvalidUnicodeString"),
    }
    match RWHeader::<ReadHeader>::from_raw(b"\x00\x01ab\x00oc\xfe\x00") {
        Err(TFTPError::InvalidUnicodeString(b)) => assert_eq!(b, b"oc\xfe".to_vec()),
        _ => panic!("expected InvalidUnicodeString"),
    }
}

#[test]
fn data_round_trip_and_layout() {
    let payload: Vec<u8> = (0..512u32).map(|i| (i & 0xff) as u8).collect();
    let d = DataHeader::new(&payload, 0x0a0b0c);
    assert_eq!(d.data_len, 512);
    let raw = d.into_raw();
    assert_eq!(raw.len(), 516);
    assert_eq!(&raw[0..4], &[0x0a, 0x03, 0x0b, 0x0c]);
    match Header::from_raw(&raw) {
        Ok(Header::Data(back)) => {
            assert_eq!(back.block_number, 0x0a0b0c);
            assert_eq!(back.data_len, 512);
            assert_eq!(&back.data[..512], &payload[..]);
        }
        _ => panic!("expected DATA"),
    }
}

#[test]
fn empty_data_is_a_legal_terminator() {
    let raw = DataHeader::new_empty(7).into_raw();
    assert_eq!(raw, vec![0, 3, 0, 7]);
    match DataHeader::from_raw(&raw) {
        Ok(d) => {
            assert_eq!(d.block_number, 7);
            assert_eq!(d.data_len, 0);
        }
        Err(e) => panic!("{:?}", e),
    }
}

#[test]
fn data_length_limits() {
    assert!(matches!(DataHeader::from_raw(&[0, 3, 0]), Err(TFTPError::InvalidHeaderLen)));
    let long = vec![0u8; 517];
    assert!(matches!(DataHeader::from_raw(&long), Err(TFTPError::InvalidDataLen)));
}

#[test]
fn error_round_trip() {
    let e = ErrorHeader::new(ErrorCode::DiskFull, "no room".to_string()).unwrap();
    let raw = e.into_raw();
    let mut expected = vec![0u8, 5, 0, 3];
    expected.extend_from_slice(b"no room");
    expected.push(0);
    assert_eq!(raw, expected);
    match Header::from_raw(&raw) {
        Ok(Header::Error(back)) => {
            assert_eq!(back.error_code, ErrorCode::DiskFull);
            assert_eq!(back.error_message, "no room");
        }
        _ => panic!("expected ERROR"),
    }
}

#[test]
fn error_codes_from_eight_on_are_undefined() {
    assert_eq!(ErrorCode::from(8u16), ErrorCode::Undefined);
    assert_eq!(ErrorCode::from(0xffffu16), ErrorCode::Undefined);
    assert_eq!(ErrorCode::from(7u16), ErrorCode::NoSuchUser);
    assert_eq!(ErrorCode::NoSuchUser.number(), 7);
    match ErrorHeader::from_raw(&[0, 5, 0, 9, b'x', 0]) {
        Ok(h) => {
            assert_eq!(h.error_code, ErrorCode::Undefined);
            assert_eq!(h.error_message, "x");
        }
        Err(e) => panic!("{:?}", e),
    }
}

#[test]
fn error_header_rejects_nul_and_unterminated() {
    assert!(matches!(
        ErrorHeader::new(ErrorCode::Undefined, "a\0".to_string()),
        Err(TFTPError::InvalidString)
    ));
    assert!(matches!(ErrorHeader::from_raw(&[0, 5, 0, 1]), Err(TFTPError::InvalidHeaderLen)));
    assert!(matches!(ErrorHeader::from_raw(&[0, 5, 0, 1, b'a']), Err(TFTPError::InvalidString)));
    match ErrorHeader::from_raw(&[0, 5, 0, 1, 0xc3, 0]) {
        Err(TFTPError::InvalidUnicodeString(b)) => assert_eq!(b, vec![0xc3]),
        _ => panic!("expected InvalidUnicodeString"),
    }
}

#[test]
fn unknown_opcode_is_invalid() {
    match Header::from_raw(&[0, 9, 1, 2]) {
        Ok(Header::Invalid(b)) => assert_eq!(b, vec![0, 9, 1, 2]),
        _ => panic!("expected Invalid"),
    }
    assert!(matches!(Header::from_raw(&[0]), Err(TFTPError::InvalidHeaderLen)));
}

#[test]
fn every_kind_round_trips_through_header() {
    let packets = vec![
        Header::Ack(AckHeader::new(0xffffff)),
        Header::Read(RWHeader::new("r".to_string(), RWMode::Octet).unwrap()),
        Header::Write(RWHeader::new("w".to_string(), RWMode::Mail).unwrap()),
        Header::Data(DataHeader::new(b"abc", 300)),
        Header::Error(ErrorHeader::new(ErrorCode::AccessViolation, String::new()).unwrap()),
    ];
    for p in packets {
        let again = p.clone().into_raw_request();
        let back = Header::from_raw(&again).unwrap();
        assert_eq!(back.into_raw_request(), p.into_raw_request());
    }
}

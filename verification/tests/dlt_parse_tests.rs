use logcore::dlt::{
    dlt_message, Argument, DltError, LogLevel, Message, ParseOutcome, Payload, StandardHeader,
    StorageHeader,
};

fn raw1() -> Vec<u8> {
    vec![
        // storage header
        0x44, 0x4C, 0x54, 0x01, 0x56, 0xA2, 0x91, 0x5C, 0x9C, 0x91, 0x0B, 0x00, 0x45, 0x43, 0x55,
        0x31, // header
        0x3D, // header type 0b11 1101
        0x40, 0x00, 0xA2, 0x45, 0x43, 0x55, 0x31, // ecu id
        0x00, 0x00, 0x01, 0x7F, // session id
        0x00, 0x5B, 0xF7, 0x16, // timestamp
        // extended header
        0x51, // MSIN 0b101 0001 => verbose, MST log,
        0x06, // arg count
        0x56, 0x53, 0x6F, 0x6D, // app id VSom
        0x76, 0x73, 0x73, 0x64, // context id vssd
        // arguments
        0x00, 0x82, 0x00, 0x00, // type info 0b1000001000000000
        0x0F, 0x00, // length
        0x50, 0x72, 0x6F, 0x63, 0x65, 0x73, 0x73, 0x4D, 0x65, 0x73, 0x73, 0x61, 0x67, 0x65,
        0x00, // "ProcessMessage"
        0x00, 0x82, 0x00, 0x00, // type info 0b1000001000000000
        0x02, 0x00, // length
        0x3A, 0x00, // ":"
        0x23, 0x00, 0x00, 0x00, // type info 0b10000000001000010
        0x0D, 0x01, 0x00, 0x00, 0x00, 0x82, 0x00, 0x00, 0x03, 0x00, 0x3A, 0x20, 0x00, 0x00, 0x82,
        0x00, 0x00, 0x14, 0x00, 0x31, 0x36, 0x30, 0x2E, 0x34, 0x38, 0x2E, 0x31, 0x39, 0x39, 0x2E,
        0x31, 0x36, 0x2C, 0x33, 0x30, 0x35, 0x30, 0x31, 0x00,
    ]
}

fn raw2() -> Vec<u8> {
    vec![
        0x44, 0x4C, 0x54, 0x01, 0x56, 0xA2, 0x91, 0x5C, 0x9C, 0x91, 0x0B, 0x00, 0x45, 0x43, 0x55,
        0x31, 0x3D, 0x41, 0x00, 0xA9, 0x45, 0x43, 0x55, 0x31, 0x00, 0x00, 0x01, 0x7F, 0x00, 0x5B,
        0xF7, 0x16, 0x51, 0x09, 0x56, 0x53, 0x6F, 0x6D, 0x76, 0x73, 0x73, 0x64, 0x00, 0x82, 0x00,
        0x00, 0x3A, 0x00, 0x5B, 0x33, 0x38, 0x33, 0x3A, 0x20, 0x53, 0x65, 0x72, 0x76, 0x69, 0x63,
        0x65, 0x44, 0x69, 0x73, 0x63, 0x6F, 0x76, 0x65, 0x72, 0x79, 0x55, 0x64, 0x70, 0x45, 0x6E,
        0x64, 0x70, 0x6F, 0x69, 0x6E, 0x74, 0x28, 0x31, 0x36, 0x30, 0x2E, 0x34, 0x38, 0x2E, 0x31,
        0x39, 0x39, 0x2E, 0x31, 0x30, 0x32, 0x3A, 0x35, 0x30, 0x31, 0x35, 0x32, 0x29, 0x5D, 0x20,
        0x00, 0x00, 0x82, 0x00, 0x00, 0x0F, 0x00, 0x50, 0x72, 0x6F, 0x63, 0x65, 0x73, 0x73, 0x4D,
        0x65, 0x73, 0x73, 0x61, 0x67, 0x65, 0x00, 0x00, 0x82, 0x00, 0x00, 0x02, 0x00, 0x3A, 0x00,
        0x23, 0x00, 0x00, 0x00, 0x24, 0x01, 0x00, 0x00, 0x00, 0x82, 0x00, 0x00, 0x06, 0x00, 0x3A,
        0x20, 0x28, 0x30, 0x78, 0x00, 0x42, 0x00, 0x01, 0x00, 0x36, 0x15, 0x00, 0x82, 0x00, 0x00,
        0x04, 0x00, 0x2C, 0x30, 0x78, 0x00, 0x42, 0x00, 0x01, 0x00, 0x01, 0x00, 0x00, 0x82, 0x00,
        0x00, 0x02, 0x00, 0x29, 0x00,
    ]
}

#[test]
fn test_dlt_message_parsing() {
    let raw1: Vec<u8> = raw1();
    let raw2: Vec<u8> = raw2();
    let res1 = dlt_message(&raw1[..], Some(LogLevel::Debug));
    println!("res1 was: {:?}", res1);
    let res2 = dlt_message(&raw2[..], None);
    println!("res was: {:?}", res2);
}

#[test]
fn fixture_one_is_truncated_and_needs_more_bytes() {
    // The first fixture declares 162 bytes after the storage header but
    // carries only part of them.
    let raw = raw1();
    assert_eq!(dlt_message(&raw[..], Some(LogLevel::Debug)), ParseOutcome::Incomplete);
    assert_eq!(dlt_message(&raw[..], None), ParseOutcome::Incomplete);
}

#[test]
fn fixture_two_decodes_completely() {
    let raw = raw2();
    match dlt_message(&raw[..], None) {
        ParseOutcome::Done(Some(msg), consumed) => {
            assert_eq!(consumed, raw.len());
            assert_eq!(consumed, 16 + msg.standard.length as usize);
            let ext = msg.extended.expect("extended header expected");
            assert!(ext.verbose);
            assert_eq!(ext.arg_count, 9);
            match &msg.payload {
                Payload::Verbose(args) => {
                    assert_eq!(args.len(), 9);
                    assert_eq!(args[1], Argument::Str(b"ProcessMessage\0".to_vec()));
                    assert_eq!(args[3], Argument::Signed { width: 4, bits: 0x124 });
                    assert_eq!(args[5], Argument::Unsigned { width: 2, bits: 0x1536 });
                }
                other => panic!("expected a verbose payload, got {:?}", other),
            }
        }
        other => panic!("expected a decoded message, got {:?}", other),
    }
}

/// A small verbose-mode message carrying a single length-prefixed
/// string argument "ProcessMessage" (with terminator), little-endian
/// payload.
fn process_message_fixture(flags: u8, optionals: &[u8]) -> Vec<u8> {
    let payload: Vec<u8> = {
        let mut p = vec![0x00, 0x02, 0x00, 0x00]; // type info: string
        p.extend_from_slice(&[0x0F, 0x00]); // 16-bit length 15
        p.extend_from_slice(b"ProcessMessage\0");
        p
    };
    let std_size = 4 + optionals.len();
    let length = (std_size + 10 + payload.len()) as u16;
    let mut b: Vec<u8> = vec![
        0x44, 0x4C, 0x54, 0x01, // magic
        0x11, 0x22, 0x33, 0x44, // seconds
        0x00, 0x01, 0x02, 0x03, // microseconds
        0x45, 0x43, 0x55, 0x31, // unit "ECU1"
    ];
    b.push(flags);
    b.push(0x40); // counter
    b.extend_from_slice(&length.to_be_bytes());
    b.extend_from_slice(optionals);
    // extended header: verbose, log, info level, one argument
    b.push(0x41);
    b.push(0x01);
    b.extend_from_slice(b"APP1");
    b.extend_from_slice(b"CTX1");
    b.extend_from_slice(&payload);
    b
}

#[test]
fn decode_two_process_message_records() {
    // One minimal standard header, one with unit id / session id /
    // timestamp present.
    let b1 = process_message_fixture(0x01, &[]);
    let b2 = process_message_fixture(
        0x1D,
        &[0x45, 0x43, 0x55, 0x31, 0x00, 0x00, 0x01, 0x7F, 0x00, 0x5B, 0xF7, 0x16],
    );
    for b in [b1, b2] {
        match dlt_message(&b[..], None) {
            ParseOutcome::Done(Some(msg), consumed) => {
                // zero leftover bytes beyond the declared message length
                assert_eq!(consumed, b.len());
                assert_eq!(consumed, 16 + msg.standard.length as usize);
                let ext = msg.extended.expect("extended header expected");
                assert_eq!(ext.arg_count, 1);
                match &msg.payload {
                    Payload::Verbose(args) => {
                        assert_eq!(args.len(), ext.arg_count as usize);
                        assert_eq!(args[0], Argument::Str(b"ProcessMessage\0".to_vec()));
                    }
                    other => panic!("expected a verbose payload, got {:?}", other),
                }
            }
            other => panic!("expected a decoded message, got {:?}", other),
        }
    }
}

#[test]
fn decode_reports_exact_header_fields() {
    let b = process_message_fixture(
        0x1D,
        &[0x45, 0x43, 0x55, 0x31, 0x00, 0x00, 0x01, 0x7F, 0x00, 0x5B, 0xF7, 0x16],
    );
    match dlt_message(&b[..], None) {
        ParseOutcome::Done(Some(msg), _) => {
            assert_eq!(
                msg.storage,
                StorageHeader { seconds: 0x11223344, micros: 0x00010203, ecu_id: 0x45435531 }
            );
            assert_eq!(
                msg.standard,
                StandardHeader {
                    has_extended: true,
                    big_endian_payload: false,
                    counter: 0x40,
                    length: 4 + 12 + 10 + 21,
                    ecu_id: Some(0x45435531),
                    session_id: Some(0x0000017F),
                    timestamp: Some(0x005BF716),
                }
            );
            let ext = msg.extended.unwrap();
            assert!(ext.verbose);
            assert_eq!(ext.message_type, 0);
            assert_eq!(ext.subtype, 4);
        }
        other => panic!("expected a decoded message, got {:?}", other),
    }
}

#[test]
fn every_truncation_point_reports_incomplete() {
    let b = process_message_fixture(
        0x1D,
        &[0x45, 0x43, 0x55, 0x31, 0x00, 0x00, 0x01, 0x7F, 0x00, 0x5B, 0xF7, 0x16],
    );
    for k in 0..b.len() {
        let cut = &b[..k];
        assert_eq!(
            dlt_message(cut, None),
            ParseOutcome::Incomplete,
            "cut at {} must ask for more bytes",
            k
        );
    }
}

#[test]
fn bad_magic_is_a_decode_error() {
    let mut b = process_message_fixture(0x01, &[]);
    b[0] = 0xFF;
    assert_eq!(dlt_message(&b[..], None), ParseOutcome::Failed(DltError::InvalidMagic));
}

#[test]
fn declared_length_below_headers_is_a_decode_error() {
    let mut b = process_message_fixture(0x01, &[]);
    // flags announce an extended header: at least 14 bytes are needed
    b[18] = 0x00;
    b[19] = 0x05;
    assert_eq!(dlt_message(&b[..], None), ParseOutcome::Failed(DltError::InvalidHeaderLength));
}

#[test]
fn argument_overrun_is_a_decode_error() {
    let mut b = process_message_fixture(0x01, &[]);
    // shorten the declared string so the arguments no longer fill the
    // declared payload exactly
    b[16 + 4 + 10 + 4] = 0x0E;
    assert_eq!(dlt_message(&b[..], None), ParseOutcome::Failed(DltError::InvalidPayload));
}

#[test]
fn unsupported_type_info_is_a_decode_error() {
    let mut b = process_message_fixture(0x01, &[]);
    // turn on the VARI bit of the type-info word
    b[16 + 4 + 10 + 1] |= 0x08;
    assert_eq!(dlt_message(&b[..], None), ParseOutcome::Failed(DltError::InvalidPayload));
}

#[test]
fn severity_filter_skips_but_consumes_whole_span() {
    let b = process_message_fixture(0x01, &[]); // info-level log message
    match dlt_message(&b[..], Some(LogLevel::Error)) {
        ParseOutcome::Done(None, consumed) => assert_eq!(consumed, b.len()),
        other => panic!("expected a suppressed message, got {:?}", other),
    }
    // an equal-or-more-severe bound keeps the message
    match dlt_message(&b[..], Some(LogLevel::Info)) {
        ParseOutcome::Done(Some(_), consumed) => assert_eq!(consumed, b.len()),
        other => panic!("expected a decoded message, got {:?}", other),
    }
}

#[test]
fn non_verbose_payload_keeps_message_id_and_blob() {
    // no extended header: flags 0, length = 4 + 4 + 3
    let mut b: Vec<u8> = vec![
        0x44, 0x4C, 0x54, 0x01, 0x11, 0x22, 0x33, 0x44, 0x00, 0x01, 0x02, 0x03, 0x45, 0x43, 0x55,
        0x31,
    ];
    b.push(0x00);
    b.push(0x07);
    b.extend_from_slice(&11u16.to_be_bytes());
    b.extend_from_slice(&[0x78, 0x56, 0x34, 0x12]); // message id, little endian
    b.extend_from_slice(&[0xAA, 0xBB, 0xCC]);
    match dlt_message(&b[..], None) {
        ParseOutcome::Done(Some(Message { payload: Payload::NonVerbose(id, blob), .. }), n) => {
            assert_eq!(id, 0x12345678);
            assert_eq!(blob, vec![0xAA, 0xBB, 0xCC]);
            assert_eq!(n, b.len());
        }
        other => panic!("expected a non-verbose message, got {:?}", other),
    }
}

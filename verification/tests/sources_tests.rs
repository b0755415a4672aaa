use logcore::sources::{ByteSource, MemorySource, ReloadInfo, SourceFilter, TransportProtocol};

#[test]
fn reload_info_new_keeps_every_field() {
    let info = ReloadInfo::new(7, 19, 3, Some(42));
    assert_eq!(info.newly_loaded_bytes, 7);
    assert_eq!(info.available_bytes, 19);
    assert_eq!(info.skipped_bytes, 3);
    assert_eq!(info.last_known_ts, Some(42));
}

#[test]
fn reload_grows_and_only_consume_shrinks() {
    let data: Vec<u8> = (0u8..25).collect();
    let mut src = MemorySource::new(data.clone(), 10);
    assert!(src.is_empty());
    assert_eq!(src.len(), 0);

    let info = src.reload(None).unwrap().expect("first reload loads bytes");
    assert_eq!(info.newly_loaded_bytes, 10);
    assert_eq!(info.available_bytes, 10);
    assert_eq!(info.skipped_bytes, 0);
    assert_eq!(src.current_slice(), &data[..10]);

    src.consume(4);
    assert_eq!(src.len(), 6);
    assert_eq!(src.current_slice(), &data[4..10]);

    // across reloads the available bytes never decrease
    let mut last_len = src.len();
    let info = src.reload(None).unwrap().expect("second reload loads bytes");
    assert!(src.len() >= last_len);
    assert_eq!(info.newly_loaded_bytes, 10);
    assert_eq!(info.available_bytes, 16);

    last_len = src.len();
    let info = src.reload(None).unwrap().expect("third reload loads the tail");
    assert!(src.len() >= last_len);
    assert_eq!(info.newly_loaded_bytes, 5);
    assert_eq!(info.available_bytes, 21);
    assert_eq!(src.current_slice(), &data[4..]);

    // exhausted transport: the terminal outcome, nothing changes, and
    // reload answers None exactly then
    last_len = src.len();
    assert!(src.reload(None).unwrap().is_none());
    assert!(src.reload(None).unwrap().is_none());
    assert_eq!(src.len(), last_len);

    src.consume(21);
    assert!(src.is_empty());
}

#[test]
fn cancel_and_income_defaults_are_harmless() {
    let mut src = MemorySource::new(vec![1, 2, 3], 2);
    assert!(src.cancel().is_ok());
    assert!(src.cancel().is_ok());
    let reply = src.income(String::from("rate=115200")).unwrap();
    assert_eq!(reply, String::new());
    assert_eq!(src.len(), 0);
}

#[test]
fn source_filter_wants_matching_protocol_only() {
    let open = SourceFilter::new(None);
    assert!(open.wants(&TransportProtocol::TCP));
    assert!(open.wants(&TransportProtocol::UDP));
    assert!(open.wants(&TransportProtocol::Unknown));

    let udp_only = SourceFilter::new(Some(TransportProtocol::UDP));
    assert!(udp_only.wants(&TransportProtocol::UDP));
    assert!(!udp_only.wants(&TransportProtocol::TCP));
    assert!(!udp_only.wants(&TransportProtocol::Unknown));
}

#[test]
fn transport_protocol_from_parsed_frame() {
    // build a real UDP datagram and hold the classification to it
    let builder = etherparse::PacketBuilder::ethernet2([1, 2, 3, 4, 5, 6], [7, 8, 9, 10, 11, 12])
        .ipv4([192, 168, 1, 1], [192, 168, 1, 2], 20)
        .udp(21, 1234);
    let payload = [1u8, 2, 3];
    let mut frame = Vec::<u8>::with_capacity(builder.size(payload.len()));
    builder.write(&mut frame, &payload).unwrap();

    let sliced = etherparse::SlicedPacket::from_ethernet(&frame).unwrap();
    let transport = sliced.transport.expect("a transport layer was built");
    assert_eq!(TransportProtocol::from_slice(&transport), TransportProtocol::UDP);

    let udp_only = SourceFilter::new(Some(TransportProtocol::UDP));
    assert!(udp_only.wants_slice(&transport));
    let tcp_only = SourceFilter::new(Some(TransportProtocol::TCP));
    assert!(!tcp_only.wants_slice(&transport));
    let open = SourceFilter::new(None);
    assert!(open.wants_slice(&transport));
}

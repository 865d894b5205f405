use pty_core::protocol::{
    attach_identity_suffix, decode_accepted_socket_ownership_request, decode_attach_identity,
    decode_cell, decode_exit, decode_geometry, decode_lifecycle_compare_and_set_request,
    decode_peek, decode_size, encode_accepted_socket_ownership_request,
    encode_accepted_socket_ownership_response, encode_attach,
    encode_attach_with_cell, encode_attach_with_identity, encode_data, encode_detach, encode_exit,
    encode_geometry, encode_lifecycle_compare_and_set_request,
    encode_lifecycle_compare_and_set_response, encode_packet, encode_peek, encode_resize,
    encode_resize_with_cell, encode_screen, encode_status, encode_status_clients,
    encode_status_response, read_packet, AcceptedSocketOwnershipRequest,
    AcceptedSocketOwnershipResult, AttachIdentity,
    LifecycleCompareAndSetRequest, LifecycleCompareAndSetResult, MessageType, Packet,
    PacketReader, PacketTooLarge, ReadPacketError, TcpConnectionTuple, MAX_PACKET_LENGTH,
};

fn payload(bytes: &[u8], expected: MessageType) -> Vec<u8> {
    let packet = read_packet(bytes).unwrap().unwrap();
    assert_eq!(packet.type_, expected);
    assert_eq!(packet.encode(), bytes);
    packet.payload
}

#[test]
fn every_type_byte_round_trips() {
    for b in 0..=255u8 {
        assert_eq!(MessageType::from_u8(b).as_u8(), b);
    }
    assert_eq!(MessageType::from_u8(0), MessageType::Data);
    assert_eq!(MessageType::from_u8(1), MessageType::Attach);
}

#[test]
fn a_packet_is_a_type_a_length_and_a_payload() {
    assert_eq!(encode_data(b"hi"), [0, 0, 0, 0, 2, b'h', b'i']);
    assert_eq!(encode_packet(MessageType::Detach, b""), encode_detach());
    assert_eq!(payload(&encode_screen(b"x"), MessageType::Screen), b"x");
    assert_eq!(payload(&encode_status(), MessageType::Status), b"");
    assert_eq!(payload(&encode_status_response("{}"), MessageType::Status), b"{}");
    assert_eq!(payload(&encode_status_clients(), MessageType::Status), b"clients");
}

#[test]
fn sizes_round_trip() {
    let p = payload(&encode_attach(24, 80), MessageType::Attach);
    assert_eq!(p, [0, 24, 0, 80]);
    assert_eq!(decode_size(&p), (24, 80));
    assert_eq!(decode_cell(&p), None);
    let p = payload(&encode_attach_with_cell(50, 200, 9, 18), MessageType::Attach);
    assert_eq!(decode_size(&p), (50, 200));
    assert_eq!(decode_cell(&p), Some((9, 18)));
    let p = payload(&encode_resize(1, 65535), MessageType::Resize);
    assert_eq!(decode_size(&p), (1, 65535));
    let p = payload(&encode_resize_with_cell(2, 3, 4, 5), MessageType::Resize);
    assert_eq!(decode_cell(&p), Some((4, 5)));
    let p = payload(&encode_geometry(30, 120), MessageType::Geometry);
    assert_eq!(decode_geometry(&p), (30, 120));
    assert_eq!(decode_size(&[]), (24, 80));
}

#[test]
fn exit_codes_and_peeks_round_trip() {
    for code in [0, 1, -1, i32::MIN, i32::MAX] {
        assert_eq!(decode_exit(&payload(&encode_exit(code), MessageType::Exit)), code);
    }
    for plain in [false, true] {
        for full in [false, true] {
            let p = payload(&encode_peek(plain, full), MessageType::Peek);
            assert_eq!(decode_peek(&p), (plain, full));
        }
    }
}

#[test]
fn a_stream_is_read_in_any_pieces() {
    let mut stream = encode_data(b"one");
    stream.extend(encode_resize(24, 80));
    stream.extend(encode_exit(7));
    let mut whole = PacketReader::new();
    let expected = whole.feed(&stream).unwrap();
    assert_eq!(expected.len(), 3);
    let mut pieces = PacketReader::new();
    let mut got: Vec<Packet> = Vec::new();
    for b in &stream {
        got.extend(pieces.feed(&[*b]).unwrap());
    }
    assert_eq!(got, expected);
    let again: Vec<u8> = got.iter().flat_map(|p| p.encode()).collect();
    assert_eq!(again, stream);
}

#[test]
fn a_packet_that_is_too_large_is_refused() {
    let mut header = vec![0u8];
    header.extend((MAX_PACKET_LENGTH as u32 + 1).to_be_bytes());
    let error = PacketTooLarge { length: MAX_PACKET_LENGTH + 1 };
    assert_eq!(PacketReader::new().feed(&header), Err(error.clone()));
    assert_eq!(read_packet(&header), Err(ReadPacketError::TooLarge(error.clone())));
    assert!(error.message().contains("33554433"), "{}", error.message());
}

#[test]
fn an_input_that_ends_early_is_told() {
    let whole = encode_data(b"abc");
    assert_eq!(read_packet(&[]), Ok(None));
    assert_eq!(read_packet(&whole[..6]), Err(ReadPacketError::UnexpectedEof));
}

fn connection(port: u16) -> TcpConnectionTuple {
    TcpConnectionTuple {
        local_address: "127.0.0.1".into(),
        local_port: port,
        remote_address: "127.0.0.1".into(),
        remote_port: 4000,
    }
}

#[test]
fn control_requests_are_json_and_checked() {
    let change = LifecycleCompareAndSetRequest {
        expected_generation: "g1".into(),
        tag: "phase".into(),
        expected_value: "a".into(),
        value: "b".into(),
    };
    assert!(change.validate());
    let p = payload(
        &encode_lifecycle_compare_and_set_request(&change),
        MessageType::LifecycleCas,
    );
    let json: serde_json::Value = serde_json::from_slice(&p).unwrap();
    assert_eq!(json["expectedGeneration"], "g1");
    assert_eq!(json["value"], "b");
    assert_eq!(
        decode_lifecycle_compare_and_set_request(Some(change.clone())),
        Some(change.clone())
    );
    let blank = LifecycleCompareAndSetRequest { expected_generation: String::new(), ..change };
    assert!(!blank.validate());
    assert_eq!(decode_lifecycle_compare_and_set_request(Some(blank)), None);
    assert_eq!(decode_lifecycle_compare_and_set_request(None), None);
    let reply = LifecycleCompareAndSetResult::Busy;
    let p = payload(
        &encode_lifecycle_compare_and_set_response(&reply),
        MessageType::LifecycleCas,
    );
    let json: serde_json::Value = serde_json::from_slice(&p).unwrap();
    assert_eq!(json["_tag"], "Busy");
    let p = encode_lifecycle_compare_and_set_response(&LifecycleCompareAndSetResult::ValueMismatch {
        value: None,
    });
    assert_eq!(payload(&p, MessageType::LifecycleCas), br#"{"_tag":"ValueMismatch"}"#);
}

#[test]
fn an_ownership_request_names_a_connection() {
    let request = AcceptedSocketOwnershipRequest {
        expected_generation: "g1".into(),
        connection: connection(3000),
    };
    assert!(request.validate());
    assert_eq!(
        decode_accepted_socket_ownership_request(Some(request.clone())),
        Some(request.clone())
    );
    let p = payload(
        &encode_accepted_socket_ownership_request(&request),
        MessageType::AcceptedSocketOwnership,
    );
    let json: serde_json::Value = serde_json::from_slice(&p).unwrap();
    assert_eq!(json["connection"]["localPort"], 3000);
    let no_port = AcceptedSocketOwnershipRequest { connection: connection(0), ..request };
    assert!(!no_port.validate());
    assert_eq!(decode_accepted_socket_ownership_request(Some(no_port)), None);
}

#[test]
fn an_attach_may_say_who_attaches() {
    let p = payload(&encode_attach_with_identity(24, 80, 42, Some("/dev/ttys001")), MessageType::Attach);
    assert_eq!(decode_size(&p), (24, 80));
    let suffix = attach_identity_suffix(&p).unwrap();
    let json: serde_json::Value = serde_json::from_slice(&suffix).unwrap();
    assert_eq!(json["pid"], 42);
    assert_eq!(json["tty"], "/dev/ttys001");
    assert_eq!(attach_identity_suffix(&[0, 24, 0, 80]), None);
    assert_eq!(
        decode_attach_identity(Some(AttachIdentity { pid: 42, tty: Some("t".into()) })),
        (Some(42), Some("t".to_string()))
    );
    assert_eq!(decode_attach_identity(None), (None, None));
}

#[test]
fn an_ownership_answer_is_tagged() {
    let answer = |r: &AcceptedSocketOwnershipResult| {
        payload(
            &encode_accepted_socket_ownership_response(r),
            MessageType::AcceptedSocketOwnership,
        )
    };
    assert_eq!(
        answer(&AcceptedSocketOwnershipResult::Owned { pid: 42 }),
        br#"{"_tag":"Owned","pid":42}"#
    );
    assert_eq!(
        answer(&AcceptedSocketOwnershipResult::NotOwned),
        br#"{"_tag":"NotOwned"}"#
    );
    assert_eq!(
        answer(&AcceptedSocketOwnershipResult::Unavailable { reason: "no".into() }),
        br#"{"_tag":"Unavailable","reason":"no"}"#
    );
}

use mc_transfer_gateway::protocol::{
    encode_frame, encode_handshake, encode_login_disconnect, encode_login_success, encode_transfer,
    frame_length, is_supported_protocol, parse_frame, parse_handshake, parse_login_start,
    protocol_spec, write_string, write_varint, FrameHeader, HeaderStep, NextState, Packet,
    PacketReader, ProtocolError, Uuid, LATEST_SNAPSHOT_PROTOCOL,
};

fn varint(value: i32) -> Vec<u8> {
    let mut bytes = Vec::new();
    write_varint(&mut bytes, value);
    bytes
}

#[test]
fn numbers_are_written_in_groups_of_seven_bits() {
    assert_eq!(varint(0), [0x00]);
    assert_eq!(varint(127), [0x7f]);
    assert_eq!(varint(128), [0x80, 0x01]);
    assert_eq!(varint(255), [0xff, 0x01]);
    assert_eq!(varint(25565), [0xdd, 0xc7, 0x01]);
    assert_eq!(varint(2147483647), [0xff, 0xff, 0xff, 0xff, 0x07]);
    assert_eq!(varint(-1), [0xff, 0xff, 0xff, 0xff, 0x0f]);
    assert_eq!(varint(-2147483648), [0x80, 0x80, 0x80, 0x80, 0x08]);
}

#[test]
fn numbers_are_read_back() {
    for value in [0, 1, -1, 300, 25565, i32::MAX, i32::MIN, 1_073_742_156] {
        let bytes = varint(value);
        let mut reader = PacketReader::new(&bytes);
        assert_eq!(reader.read_varint(), Ok(value));
        assert_eq!(reader.remaining(), 0);
    }
    let mut reader = PacketReader::new(&[0x80, 0x80]);
    assert_eq!(reader.read_varint(), Err(ProtocolError::UnexpectedEof));
    let mut reader = PacketReader::new(&[0x80, 0x80, 0x80, 0x80, 0x80, 0x01]);
    assert_eq!(reader.read_varint(), Err(ProtocolError::VarIntTooLong));
}

#[test]
fn strings_are_read_back_within_their_limit() {
    let mut bytes = Vec::new();
    write_string(&mut bytes, "héllo");
    assert_eq!(bytes.len(), 7);
    let mut reader = PacketReader::new(&bytes);
    assert_eq!(reader.read_string(64), Ok("héllo".to_owned()));
    assert!(reader.expect_end().is_ok());
    let mut reader = PacketReader::new(&bytes);
    assert_eq!(
        reader.read_string(5),
        Err(ProtocolError::StringTooLong {
            length: 6,
            limit: 5
        })
    );
    let mut reader = PacketReader::new(&[2, 0xff, 0xfe]);
    assert_eq!(reader.read_string(64), Err(ProtocolError::InvalidUtf8));
    let mut reader = PacketReader::new(&[3, b'a']);
    assert_eq!(reader.read_string(64), Err(ProtocolError::UnexpectedEof));
}

#[test]
fn fixed_fields_are_read_with_the_highest_byte_first() {
    let bytes = [
        0x63, 0xdd, 0xff, 0xff, 0xff, 0xff, 0xff, 0xff, 0xff, 0xfe, 1, 2, 3, 4, 5, 6, 7, 8, 9, 10,
        11, 12, 13, 14, 15, 16, 99,
    ];
    let mut reader = PacketReader::new(&bytes);
    assert_eq!(reader.read_u16(), Ok(25565));
    assert_eq!(reader.read_i64(), Ok(-2));
    assert_eq!(reader.position(), 10);
    let uuid = reader.read_uuid().unwrap();
    assert_eq!(
        uuid.as_bytes(),
        &[1, 2, 3, 4, 5, 6, 7, 8, 9, 10, 11, 12, 13, 14, 15, 16]
    );
    assert_eq!(reader.remaining(), 1);
    assert_eq!(
        reader.expect_end(),
        Err(ProtocolError::InvalidValue("trailing packet data"))
    );
    assert_eq!(reader.read_u16(), Err(ProtocolError::UnexpectedEof));
}

#[test]
fn frames_are_read_back() {
    let frame = encode_frame(2, &[10, 20, 30]);
    assert_eq!(frame, [4, 2, 10, 20, 30]);
    let mut header = FrameHeader::new();
    let mut used = 0;
    let length = loop {
        let byte = frame[used];
        used += 1;
        match header.push(byte) {
            HeaderStep::More(next) => header = next,
            HeaderStep::Complete(length) => break length,
            HeaderStep::TooLong => panic!("the length is short"),
        }
    };
    let length = frame_length(length, 1024).unwrap();
    assert_eq!(length, frame.len() - used);
    let packet = parse_frame(&frame[used..]).unwrap();
    assert_eq!(
        packet,
        Packet {
            id: 2,
            payload: vec![10, 20, 30]
        }
    );
}

#[test]
fn bad_frames_are_refused() {
    assert_eq!(
        frame_length(-1, 10),
        Err(ProtocolError::NegativePacketLength)
    );
    assert_eq!(
        frame_length(11, 10),
        Err(ProtocolError::PacketTooLarge {
            length: 11,
            limit: 10
        })
    );
    assert_eq!(frame_length(10, 10), Ok(10));
    assert!(parse_frame(&[]).is_err());
    assert!(FrameHeader::new().end_of_stream().is_ok());
    match FrameHeader::new().push(0x80) {
        HeaderStep::More(header) => {
            assert_eq!(header.end_of_stream(), Err(ProtocolError::UnexpectedEof))
        }
        _ => panic!("more bytes are to come"),
    }
}

#[test]
fn handshakes_are_read_back() {
    for (number, state) in [
        (1, NextState::Status),
        (2, NextState::Login),
        (3, NextState::Transfer),
    ] {
        let packet = Packet {
            id: 0,
            payload: encode_handshake(776, "gateway.example.com", 25565, number),
        };
        let handshake = parse_handshake(&packet).unwrap();
        assert_eq!(handshake.protocol_version, 776);
        assert_eq!(handshake.host, "gateway.example.com");
        assert_eq!(handshake.port, 25565);
        assert_eq!(handshake.next_state, state);
    }
    let packet = Packet {
        id: 0,
        payload: encode_handshake(776, "h", 1, 4),
    };
    assert_eq!(
        parse_handshake(&packet),
        Err(ProtocolError::InvalidValue(
            "unsupported handshake next state"
        ))
    );
    let packet = Packet {
        id: 7,
        payload: encode_handshake(776, "h", 1, 2),
    };
    assert_eq!(
        parse_handshake(&packet),
        Err(ProtocolError::UnexpectedPacketId {
            actual: 7,
            expected: 0
        })
    );
    let packet = Packet {
        id: 0,
        payload: encode_handshake(776, &"h".repeat(256), 1, 2),
    };
    assert_eq!(
        parse_handshake(&packet),
        Err(ProtocolError::StringTooLong {
            length: 256,
            limit: 255
        })
    );
}

#[test]
fn login_starts_are_read() {
    let mut payload = Vec::new();
    write_string(&mut payload, "Steve");
    payload.extend_from_slice(&[7; 16]);
    let start = parse_login_start(&Packet {
        id: 0,
        payload: payload.clone(),
    })
    .unwrap();
    assert_eq!(start.username, "Steve");
    assert_eq!(start.uuid.as_bytes(), &[7; 16]);
    payload.push(0);
    assert_eq!(
        parse_login_start(&Packet { id: 0, payload }),
        Err(ProtocolError::InvalidValue("trailing packet data"))
    );
}

#[test]
fn login_success_carries_what_the_version_expects() {
    let uuid = Uuid::from_bytes([1; 16]);
    let session = Uuid::from_bytes([2; 16]);
    let old = encode_login_success(protocol_spec(766).unwrap(), uuid, "Alex", true, session);
    let mut expected = vec![1; 16];
    expected.extend_from_slice(&[4, b'A', b'l', b'e', b'x', 0, 1]);
    assert_eq!(old, expected);
    let plain = encode_login_success(protocol_spec(770).unwrap(), uuid, "Alex", true, session);
    assert_eq!(plain.len(), 16 + 5 + 1);
    let new = encode_login_success(protocol_spec(776).unwrap(), uuid, "Alex", true, session);
    assert_eq!(new.len(), 16 + 5 + 1 + 16);
}

#[test]
fn transfers_and_disconnects_have_their_fields_in_order() {
    assert_eq!(encode_transfer("a.b", 25565), [3, b'a', b'.', b'b', 0xdd, 0xc7, 0x01]);
    assert_eq!(encode_login_disconnect("{}"), [2, b'{', b'}']);
}

#[test]
fn supported_protocols_end_where_they_should() {
    assert!(!is_supported_protocol(765));
    assert!(is_supported_protocol(766));
    assert!(is_supported_protocol(776));
    assert!(!is_supported_protocol(777));
    assert!(is_supported_protocol(LATEST_SNAPSHOT_PROTOCOL));
    assert!(!is_supported_protocol(LATEST_SNAPSHOT_PROTOCOL + 1));
}

#[test]
fn protocol_errors_have_words() {
    assert_eq!(
        ProtocolError::PacketTooLarge {
            length: 5,
            limit: 4
        }
        .message(),
        "packet length 5 exceeds limit 4"
    );
    assert_eq!(
        ProtocolError::UnexpectedEof.message(),
        "unexpected end of packet"
    );
}

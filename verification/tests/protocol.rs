use mc_transfer_gateway::protocol::{
    encode_handshake, encode_login_success, parse_handshake, protocol_spec, NextState, Packet,
    Uuid, CONFIG_TRANSFER_PACKET_ID, CONFIG_TRANSFER_PACKET_ID_26_3,
    FIRST_SESSION_ID_RELEASE_PROTOCOL, FIRST_SESSION_ID_SNAPSHOT_PROTOCOL,
    FIRST_TRANSFER_SNAPSHOT_PROTOCOL, HANDSHAKE_PACKET_ID,
};

fn uuid(byte: u8) -> Uuid {
    Uuid::from_bytes([byte; 16])
}

#[test]
fn login_success_fields_match_protocol_boundaries() {
    let legacy = protocol_spec(767).expect("protocol 767 should be supported");
    assert!(legacy.login_success_has_strict_error_handling);
    assert!(!legacy.login_success_has_session_id);
    assert_eq!(legacy.config_transfer_packet_id, CONFIG_TRANSFER_PACKET_ID);

    let modern = protocol_spec(768).expect("protocol 768 should be supported");
    assert!(!modern.login_success_has_strict_error_handling);
    assert!(!modern.login_success_has_session_id);
    assert_eq!(modern.config_transfer_packet_id, CONFIG_TRANSFER_PACKET_ID);

    let release_26_2 =
        protocol_spec(FIRST_SESSION_ID_RELEASE_PROTOCOL).expect("protocol 776 should exist");
    assert!(!release_26_2.login_success_has_strict_error_handling);
    assert!(release_26_2.login_success_has_session_id);
    assert_eq!(
        release_26_2.config_transfer_packet_id,
        CONFIG_TRANSFER_PACKET_ID
    );

    let older_snapshot = protocol_spec(FIRST_TRANSFER_SNAPSHOT_PROTOCOL)
        .expect("the first transfer snapshot should be supported");
    assert!(!older_snapshot.login_success_has_session_id);
    assert_eq!(
        older_snapshot.config_transfer_packet_id,
        CONFIG_TRANSFER_PACKET_ID
    );

    let snapshot_26_3 = protocol_spec(FIRST_SESSION_ID_SNAPSHOT_PROTOCOL)
        .expect("the first session-id snapshot should be supported");
    assert!(snapshot_26_3.login_success_has_session_id);
    assert_eq!(
        snapshot_26_3.config_transfer_packet_id,
        CONFIG_TRANSFER_PACKET_ID_26_3
    );
}

#[test]
fn protocol_776_login_success_contains_session_id() {
    let spec = protocol_spec(FIRST_SESSION_ID_RELEASE_PROTOCOL).unwrap();
    let session_id = uuid(0x22);
    let payload = encode_login_success(spec, uuid(0x11), "Steve", false, session_id);

    assert_eq!(&payload[payload.len() - 16..], session_id.as_bytes());
}

#[test]
fn parses_transfer_handshake_as_login() {
    let packet = Packet {
        id: HANDSHAKE_PACKET_ID,
        payload: encode_handshake(776, "gateway.example.com", 25565, 3),
    };

    let handshake = parse_handshake(&packet).expect("transfer handshake should parse");
    assert_eq!(handshake.next_state, NextState::Transfer);
}

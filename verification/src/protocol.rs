//! The part of the Minecraft protocol that a transfer takes: handshake, login, transfer.
pub use crate::chat::legacy_text_to_json;
pub use crate::packet::{
    encode_frame, frame_length, parse_frame, write_string, FrameHeader, HeaderStep, Packet,
    PacketReader, ProtocolError, Uuid,
};
pub use crate::varint::write_varint;

use crate::packet::{self, write_bytes, write_u16, Field};
use crate::text::{self, cat2, cat4, cat5, signed_to_text, unsigned_to_text};
use crate::varint;
use vstd::prelude::*;
use vstd::string::*;
use vstd::utf8;

verus! {

pub const HANDSHAKE_PACKET_ID: i32 = 0x00;

pub const LOGIN_START_PACKET_ID: i32 = 0x00;

pub const LOGIN_SUCCESS_PACKET_ID: i32 = 0x02;

pub const LOGIN_ACKNOWLEDGED_PACKET_ID: i32 = 0x03;

pub const LOGIN_DISCONNECT_PACKET_ID: i32 = 0x00;

pub const CONFIG_TRANSFER_PACKET_ID: i32 = 0x0B;

pub const CONFIG_TRANSFER_PACKET_ID_26_3: i32 = 0x0C;

pub const FIRST_TRANSFER_SNAPSHOT_PROTOCOL: i32 = 1_073_741_995;

pub const LATEST_SNAPSHOT_PROTOCOL: i32 = 1_073_742_156;

pub const LAST_STRICT_ERROR_HANDLING_SNAPSHOT_PROTOCOL: i32 = 1_073_742_033;

pub const FIRST_SESSION_ID_RELEASE_PROTOCOL: i32 = 776;

pub const FIRST_SESSION_ID_SNAPSHOT_PROTOCOL: i32 = 1_073_742_149;

pub const FIRST_TRANSFER_PACKET_ID_26_3_SNAPSHOT_PROTOCOL: i32 = 1_073_742_149;

pub const SUPPORTED_VERSION_RANGE: &'static str = "Java 1.20.5 through 26.3 Snapshot 10";

/// How the packets of one protocol version look where versions differ.
#[derive(Debug, Clone, Copy, PartialEq, Eq, Structural)]
pub struct ProtocolSpec {
    pub version: i32,
    pub login_success_has_strict_error_handling: bool,
    pub login_success_has_session_id: bool,
    pub config_transfer_packet_id: i32,
}

/// The releases from 1.20.5 to 26.2.
pub open spec fn is_release(version: i32) -> bool {
    766 <= version <= 776
}

/// The snapshots from 24w03a to 26.3 Snapshot 10.
pub open spec fn is_snapshot(version: i32) -> bool {
    FIRST_TRANSFER_SNAPSHOT_PROTOCOL <= version <= LATEST_SNAPSHOT_PROTOCOL
}

/// Whether clients of a protocol version can be transferred.
pub open spec fn is_supported(version: i32) -> bool {
    is_release(version) || is_snapshot(version)
}

/// How the packets of a supported version look.
pub open spec fn spec_of(version: i32) -> ProtocolSpec {
    ProtocolSpec {
        version,
        login_success_has_strict_error_handling: version <= 767 || (is_snapshot(version) && version
            <= LAST_STRICT_ERROR_HANDLING_SNAPSHOT_PROTOCOL),
        login_success_has_session_id: version == FIRST_SESSION_ID_RELEASE_PROTOCOL || (is_snapshot(
            version,
        ) && version >= FIRST_SESSION_ID_SNAPSHOT_PROTOCOL),
        config_transfer_packet_id: if is_snapshot(version) && version
            >= FIRST_TRANSFER_PACKET_ID_26_3_SNAPSHOT_PROTOCOL {
            CONFIG_TRANSFER_PACKET_ID_26_3
        } else {
            CONFIG_TRANSFER_PACKET_ID
        },
    }
}

pub fn protocol_spec(version: i32) -> (spec: Option<ProtocolSpec>)
    ensures
        match spec {
            Some(s) => is_supported(version) && s == spec_of(version),
            None => !is_supported(version),
        },
{
    let is_release = 766 <= version && version <= 776;
    let is_snapshot = FIRST_TRANSFER_SNAPSHOT_PROTOCOL <= version && version
        <= LATEST_SNAPSHOT_PROTOCOL;
    if !is_release && !is_snapshot {
        return None;
    }
    let login_success_has_strict_error_handling = if is_release {
        version <= 767
    } else {
        version <= LAST_STRICT_ERROR_HANDLING_SNAPSHOT_PROTOCOL
    };
    let login_success_has_session_id = version == FIRST_SESSION_ID_RELEASE_PROTOCOL || (is_snapshot
        && version >= FIRST_SESSION_ID_SNAPSHOT_PROTOCOL);
    let config_transfer_packet_id: i32 = if is_snapshot && version
        >= FIRST_TRANSFER_PACKET_ID_26_3_SNAPSHOT_PROTOCOL {
        CONFIG_TRANSFER_PACKET_ID_26_3
    } else {
        CONFIG_TRANSFER_PACKET_ID
    };
    Some(
        ProtocolSpec {
            version,
            login_success_has_strict_error_handling,
            login_success_has_session_id,
            config_transfer_packet_id,
        },
    )
}

pub fn is_supported_protocol(version: i32) -> (yes: bool)
    ensures
        yes == is_supported(version),
{
    protocol_spec(version).is_some()
}

/// A later snapshot never goes back: once strict error handling is gone it stays gone, and
/// once the session id and the new transfer packet are there they stay.
pub proof fn lemma_snapshots_only_move_forward(earlier: i32, later: i32)
    requires
        is_snapshot(earlier),
        is_snapshot(later),
        earlier <= later,
    ensures
        spec_of(later).login_success_has_strict_error_handling ==> spec_of(
            earlier,
        ).login_success_has_strict_error_handling,
        spec_of(earlier).login_success_has_session_id ==> spec_of(
            later,
        ).login_success_has_session_id,
        spec_of(earlier).config_transfer_packet_id <= spec_of(later).config_transfer_packet_id,
{
}

/// The transfer packet keeps its first id in every release.
pub proof fn lemma_releases_share_transfer_id(version: i32)
    requires
        is_release(version),
    ensures
        spec_of(version).config_transfer_packet_id == CONFIG_TRANSFER_PACKET_ID,
        spec_of(version).login_success_has_session_id <==> version == 776,
        spec_of(version).login_success_has_strict_error_handling <==> version <= 767,
{
}

/// What the client asks for.
#[derive(Debug, Clone, Copy, PartialEq, Eq, Structural)]
pub enum NextState {
    Status,
    Login,
    Transfer,
}

/// The number under which a wish travels.
pub open spec fn state_number(state: NextState) -> i32 {
    match state {
        NextState::Status => 1,
        NextState::Login => 2,
        NextState::Transfer => 3,
    }
}

/// The wish that travels under a number.
pub open spec fn state_of(number: i32) -> Option<NextState> {
    if number == 1 {
        Some(NextState::Status)
    } else if number == 2 {
        Some(NextState::Login)
    } else if number == 3 {
        Some(NextState::Transfer)
    } else {
        None
    }
}

/// The first packet of a connection.
#[derive(Debug, Clone, PartialEq, Eq)]
pub struct Handshake {
    pub protocol_version: i32,
    pub host: String,
    pub port: u16,
    pub next_state: NextState,
}

/// The contents of a [`Handshake`].
pub struct HandshakeView {
    pub protocol_version: i32,
    pub host: Seq<char>,
    pub port: u16,
    pub next_state: NextState,
}

impl View for Handshake {
    type V = HandshakeView;

    open spec fn view(&self) -> HandshakeView {
        HandshakeView {
            protocol_version: self.protocol_version,
            host: self.host@,
            port: self.port,
            next_state: self.next_state,
        }
    }
}

/// The name and the identifier that a client logs in with.
#[derive(Debug, Clone, PartialEq, Eq)]
pub struct LoginStart {
    pub username: String,
    pub uuid: Uuid,
}

/// The bytes of a handshake.
pub open spec fn encoded_handshake(
    protocol_version: i32,
    host: Seq<char>,
    port: u16,
    next_state: i32,
) -> Seq<u8> {
    varint::encoded_varint(protocol_version) + packet::encoded_string(host) + packet::big_endian_bytes(port as nat, 2)
        + varint::encoded_varint(next_state)
}

pub fn encode_handshake(protocol_version: i32, host: &str, port: u16, next_state: i32) -> (payload:
    Vec<u8>)
    ensures
        payload@ == encoded_handshake(protocol_version, host@, port, next_state),
{
    let mut payload: Vec<u8> = Vec::new();
    write_varint(&mut payload, protocol_version);
    write_string(&mut payload, host);
    write_u16(&mut payload, port);
    write_varint(&mut payload, next_state);
    payload
}

/// What the contents of a handshake packet say, or what is wrong with them.
pub open spec fn handshake_in(payload: Seq<u8>) -> Result<HandshakeView, ProtocolError> {
    match packet::varint_field(payload) {
        Field::Bad(error) => Err(error),
        Field::Read(protocol_version, a) => match packet::string_field(payload.skip(a as int), 255) {
            Field::Bad(error) => Err(error),
            Field::Read(host, b) => match packet::u16_field(payload.skip((a + b) as int)) {
                Field::Bad(error) => Err(error),
                Field::Read(port, c) => match packet::varint_field(payload.skip((a + b + c) as int)) {
                    Field::Bad(error) => Err(error),
                    Field::Read(number, d) => match state_of(number) {
                        None => Err(
                            ProtocolError::InvalidValue("unsupported handshake next state"),
                        ),
                        Some(next_state) => if a + b + c + d < payload.len() {
                            Err(ProtocolError::InvalidValue("trailing packet data"))
                        } else {
                            Ok(HandshakeView { protocol_version, host, port, next_state })
                        },
                    },
                },
            },
        },
    }
}

pub fn parse_handshake(packet: &Packet) -> (outcome: Result<Handshake, ProtocolError>)
    ensures
        packet.id != HANDSHAKE_PACKET_ID ==> outcome == Err::<Handshake, ProtocolError>(
            ProtocolError::UnexpectedPacketId { actual: packet.id, expected: HANDSHAKE_PACKET_ID },
        ),
        packet.id == HANDSHAKE_PACKET_ID ==> match outcome {
            Ok(handshake) => handshake_in(packet.payload@) == Ok::<HandshakeView, ProtocolError>(
                handshake@,
            ),
            Err(error) => handshake_in(packet.payload@) == Err::<HandshakeView, ProtocolError>(
                error,
            ),
        },
{
    if packet.id != HANDSHAKE_PACKET_ID {
        return Err(
            ProtocolError::UnexpectedPacketId { actual: packet.id, expected: HANDSHAKE_PACKET_ID },
        );
    }
    let ghost payload = packet.payload@;
    let mut reader = PacketReader::new(packet.payload.as_slice());
    let protocol_version: i32 = match reader.read_varint() {
        Ok(value) => value,
        Err(error) => {
            return Err(error);
        },
    };
    let host = match reader.read_string(255) {
        Ok(value) => value,
        Err(error) => {
            return Err(error);
        },
    };
    let port: u16 = match reader.read_u16() {
        Ok(value) => value,
        Err(error) => {
            return Err(error);
        },
    };
    let number: i32 = match reader.read_varint() {
        Ok(value) => value,
        Err(error) => {
            return Err(error);
        },
    };
    let next_state = if number == 1 {
        NextState::Status
    } else if number == 2 {
        NextState::Login
    } else if number == 3 {
        NextState::Transfer
    } else {
        return Err(ProtocolError::InvalidValue("unsupported handshake next state"));
    };
    match reader.expect_end() {
        Ok(_) => {},
        Err(error) => {
            return Err(error);
        },
    }
    Ok(Handshake { protocol_version, host, port, next_state })
}

/// A handshake that was written is read back unchanged, for every host of at most 255 bytes.
pub proof fn lemma_handshake_round_trip(handshake: HandshakeView)
    requires
        utf8::encode_utf8(handshake.host).len() <= 255,
    ensures
        handshake_in(
            encoded_handshake(
                handshake.protocol_version,
                handshake.host,
                handshake.port,
                state_number(handshake.next_state),
            ),
        ) == Ok::<HandshakeView, ProtocolError>(handshake),
{
    let number = state_number(handshake.next_state);
    let p1 = varint::encoded_varint(handshake.protocol_version);
    let p2 = packet::encoded_string(handshake.host);
    let p3 = packet::big_endian_bytes(handshake.port as nat, 2);
    let p4 = varint::encoded_varint(number);
    let all = encoded_handshake(handshake.protocol_version, handshake.host, handshake.port, number);
    assert(all =~= p1 + (p2 + p3 + p4));
    varint::lemma_varint_round_trip(handshake.protocol_version, p2 + p3 + p4);
    assert(all.skip(p1.len() as int) =~= p2 + (p3 + p4));
    packet::lemma_string_round_trip(handshake.host, p3 + p4, 255);
    assert(all.skip((p1.len() + p2.len()) as int) =~= p3 + p4);
    packet::lemma_big_endian_two(handshake.port);
    assert((p3 + p4).take(2) =~= p3);
    assert(all.skip((p1.len() + p2.len() + 2) as int) =~= p4 + Seq::empty());
    varint::lemma_varint_round_trip(number, Seq::empty());
}

/// A host of more than 255 bytes, of any text whose length fits the field, is refused.
pub proof fn lemma_long_host_refused(
    protocol_version: i32,
    host: Seq<char>,
    port: u16,
    next_state: i32,
)
    requires
        255 < utf8::encode_utf8(host).len() <= i32::MAX,
    ensures
        handshake_in(encoded_handshake(protocol_version, host, port, next_state)) == Err::<
            HandshakeView,
            ProtocolError,
        >(ProtocolError::StringTooLong { length: utf8::encode_utf8(host).len() as usize, limit: 255 }),
{
    let length = utf8::encode_utf8(host).len() as i32;
    let p1 = varint::encoded_varint(protocol_version);
    let head = varint::encoded_varint(length);
    let tail = utf8::encode_utf8(host) + packet::big_endian_bytes(port as nat, 2) + varint::encoded_varint(next_state);
    let all = encoded_handshake(protocol_version, host, port, next_state);
    assert(all =~= p1 + (head + tail));
    varint::lemma_varint_round_trip(protocol_version, head + tail);
    assert(all.skip(p1.len() as int) =~= head + tail);
    varint::lemma_varint_round_trip(length, tail);
}

/// What the contents of a login packet say: the name and the bytes of the identifier.
pub open spec fn login_start_in(payload: Seq<u8>) -> Result<(Seq<char>, Seq<u8>), ProtocolError> {
    match packet::string_field(payload, 64) {
        Field::Bad(error) => Err(error),
        Field::Read(username, a) => match packet::bytes_field(payload.skip(a as int), 16) {
            Field::Bad(error) => Err(error),
            Field::Read(uuid, b) => if a + b < payload.len() {
                Err(ProtocolError::InvalidValue("trailing packet data"))
            } else {
                Ok((username, uuid))
            },
        },
    }
}

pub fn parse_login_start(packet: &Packet) -> (outcome: Result<LoginStart, ProtocolError>)
    ensures
        packet.id != LOGIN_START_PACKET_ID ==> outcome == Err::<LoginStart, ProtocolError>(
            ProtocolError::UnexpectedPacketId {
                actual: packet.id,
                expected: LOGIN_START_PACKET_ID,
            },
        ),
        packet.id == LOGIN_START_PACKET_ID ==> match outcome {
            Ok(start) => login_start_in(packet.payload@) == Ok::<
                (Seq<char>, Seq<u8>),
                ProtocolError,
            >((start.username@, start.uuid@)),
            Err(error) => login_start_in(packet.payload@) == Err::<
                (Seq<char>, Seq<u8>),
                ProtocolError,
            >(error),
        },
{
    if packet.id != LOGIN_START_PACKET_ID {
        return Err(
            ProtocolError::UnexpectedPacketId {
                actual: packet.id,
                expected: LOGIN_START_PACKET_ID,
            },
        );
    }
    let ghost payload = packet.payload@;
    let mut reader = PacketReader::new(packet.payload.as_slice());
    let username = match reader.read_string(64) {
        Ok(value) => value,
        Err(error) => {
            return Err(error);
        },
    };
    let uuid = match reader.read_uuid() {
        Ok(value) => value,
        Err(error) => {
            return Err(error);
        },
    };
    match reader.expect_end() {
        Ok(_) => {},
        Err(error) => {
            return Err(error);
        },
    }
    Ok(LoginStart { username, uuid })
}

/// A login packet with a name of at most 64 bytes and sixteen bytes of identifier is
/// understood as just that.
pub proof fn lemma_login_start_read_back(username: Seq<char>, uuid: Seq<u8>)
    requires
        utf8::encode_utf8(username).len() <= 64,
        uuid.len() == 16,
    ensures
        login_start_in(packet::encoded_string(username) + uuid) == Ok::<
            (Seq<char>, Seq<u8>),
            ProtocolError,
        >((username, uuid)),
{
    packet::lemma_string_round_trip(username, uuid, 64);
    let all = packet::encoded_string(username) + uuid;
    assert(all.skip(packet::encoded_string(username).len() as int) =~= uuid);
    assert(uuid.take(16) =~= uuid);
}

/// The bytes that tell a client that it is logged in.
pub open spec fn encoded_login_success(
    spec: ProtocolSpec,
    uuid: Seq<u8>,
    username: Seq<char>,
    strict_error_handling: bool,
    session_id: Seq<u8>,
) -> Seq<u8> {
    uuid + packet::encoded_string(username) + varint::encoded_varint(0)
        + if spec.login_success_has_strict_error_handling {
        seq![
            if strict_error_handling {
                1u8
            } else {
                0u8
            },
        ]
    } else {
        Seq::empty()
    } + if spec.login_success_has_session_id {
        session_id
    } else {
        Seq::empty()
    }
}

pub fn encode_login_success(
    spec: ProtocolSpec,
    uuid: Uuid,
    username: &str,
    strict_error_handling: bool,
    session_id: Uuid,
) -> (payload: Vec<u8>)
    ensures
        payload@ == encoded_login_success(
            spec,
            uuid@,
            username@,
            strict_error_handling,
            session_id@,
        ),
{
    let mut payload: Vec<u8> = Vec::new();
    write_bytes(&mut payload, uuid.as_bytes().as_slice());
    write_string(&mut payload, username);
    write_varint(&mut payload, 0);
    if spec.login_success_has_strict_error_handling {
        payload.push(
            if strict_error_handling {
                1
            } else {
                0
            },
        );
    }
    if spec.login_success_has_session_id {
        write_bytes(&mut payload, session_id.as_bytes().as_slice());
    }
    payload
}

/// Where the version carries a session id, it is what the bytes end with.
pub proof fn lemma_login_success_ends_with_session_id(
    spec: ProtocolSpec,
    uuid: Seq<u8>,
    username: Seq<char>,
    strict_error_handling: bool,
    session_id: Seq<u8>,
)
    requires
        spec.login_success_has_session_id,
    ensures
        ({
            let payload = encoded_login_success(
                spec,
                uuid,
                username,
                strict_error_handling,
                session_id,
            );
            payload.skip(payload.len() - session_id.len()) == session_id
        }),
{
}

/// The bytes that send a client to another server.
pub open spec fn encoded_transfer(host: Seq<char>, port: u16) -> Seq<u8> {
    packet::encoded_string(host) + varint::encoded_varint(port as i32)
}

pub fn encode_transfer(host: &str, port: u16) -> (payload: Vec<u8>)
    ensures
        payload@ == encoded_transfer(host@, port),
{
    let mut payload: Vec<u8> = Vec::new();
    write_string(&mut payload, host);
    write_varint(&mut payload, port as i32);
    payload
}

/// The client reads from a transfer packet exactly the host and the port that were put in.
pub proof fn lemma_transfer_read_back(host: Seq<char>, port: u16)
    requires
        utf8::encode_utf8(host).len() <= i32::MAX,
    ensures
        packet::string_field(encoded_transfer(host, port), i32::MAX as usize) == Field::Read(
            host,
            packet::encoded_string(host).len(),
        ),
        packet::varint_field(encoded_transfer(host, port).skip(packet::encoded_string(host).len() as int))
            == Field::Read(port as i32, varint::encoded_varint(port as i32).len()),
{
    let tail = varint::encoded_varint(port as i32);
    packet::lemma_string_round_trip(host, tail, i32::MAX as usize);
    assert(encoded_transfer(host, port).skip(packet::encoded_string(host).len() as int) =~= tail
        + Seq::empty());
    varint::lemma_varint_round_trip(port as i32, Seq::empty());
}

pub fn encode_login_disconnect(reason: &str) -> (payload: Vec<u8>)
    ensures
        payload@ == packet::encoded_string(reason@),
{
    let mut payload: Vec<u8> = Vec::new();
    write_string(&mut payload, reason);
    payload
}

impl ProtocolError {
    /// The words for the error.
    pub open spec fn words(self) -> Seq<char> {
        match self {
            ProtocolError::UnexpectedEof => "unexpected end of packet"@,
            ProtocolError::VarIntTooLong => "VarInt is longer than five bytes"@,
            ProtocolError::NegativePacketLength => "negative packet length"@,
            ProtocolError::PacketTooLarge { length, limit } => "packet length "@ + text::decimal(
                length as nat,
            ) + " exceeds limit "@ + text::decimal(limit as nat),
            ProtocolError::InvalidUtf8 => "invalid UTF-8 string"@,
            ProtocolError::StringTooLong { length, limit } => "string length "@ + text::decimal(
                length as nat,
            ) + " exceeds limit "@ + text::decimal(limit as nat),
            ProtocolError::UnexpectedPacketId { actual, expected } => "unexpected packet id "@
                + text::signed_decimal(actual as int) + " (expected "@ + text::signed_decimal(expected as int)
                + ")"@,
            ProtocolError::InvalidValue(what) => "invalid protocol value: "@ + what@,
        }
    }

    /// The words for the error.
    pub fn message(&self) -> (text: String)
        ensures
            text@ == self.words(),
    {
        match self {
            ProtocolError::UnexpectedEof => "unexpected end of packet".to_owned(),
            ProtocolError::VarIntTooLong => "VarInt is longer than five bytes".to_owned(),
            ProtocolError::NegativePacketLength => "negative packet length".to_owned(),
            ProtocolError::PacketTooLarge { length, limit } => cat4(
                "packet length ",
                unsigned_to_text(*length as u64).as_str(),
                " exceeds limit ",
                unsigned_to_text(*limit as u64).as_str(),
            ),
            ProtocolError::InvalidUtf8 => "invalid UTF-8 string".to_owned(),
            ProtocolError::StringTooLong { length, limit } => cat4(
                "string length ",
                unsigned_to_text(*length as u64).as_str(),
                " exceeds limit ",
                unsigned_to_text(*limit as u64).as_str(),
            ),
            ProtocolError::UnexpectedPacketId { actual, expected } => cat5(
                "unexpected packet id ",
                signed_to_text(*actual as i64).as_str(),
                " (expected ",
                signed_to_text(*expected as i64).as_str(),
                ")",
            ),
            ProtocolError::InvalidValue(what) => cat2("invalid protocol value: ", what),
        }
    }
}

/// Clients can be transferred from the first snapshot and the first release with transfers on
/// to the latest. How their packets look: strict error handling up to 767 and up to the last
/// snapshot that has it, a session id from 776 and from the first snapshot that has it on, and
/// the new transfer packet in the latest snapshots only.
pub proof fn lemma_transferable_versions(version: i32, spec: Option<ProtocolSpec>)
    requires
        call_ensures(protocol_spec, (version,), spec),
    ensures
        spec is Some <==> 766 <= version <= 776 || 1_073_741_995 <= version <= 1_073_742_156,
        spec is Some ==> {
            let look = spec->0;
            &&& look.version == version
            &&& look.login_success_has_strict_error_handling <==> version <= 767 || 1_073_741_995
                <= version <= 1_073_742_033
            &&& look.login_success_has_session_id <==> version == 776 || version >= 1_073_742_149
            &&& look.config_transfer_packet_id == if version >= 1_073_742_149 {
                0x0Cint
            } else {
                0x0B
            }
        },
{
}

/// What a client asks for in its handshake: the state of the server under the number one, a
/// login under two, a transfer under three, and nothing else. Version, host and port are read
/// as they were written.
pub proof fn lemma_wishes_of_clients(
    version: i32,
    host: &str,
    port: u16,
    wish: i32,
    payload: Vec<u8>,
    packet: Packet,
    outcome: Result<Handshake, ProtocolError>,
)
    requires
        utf8::encode_utf8(host@).len() <= 255,
        call_ensures(encode_handshake, (version, host, port, wish), payload),
        packet.id == 0,
        packet.payload@ == payload@,
        call_ensures(parse_handshake, (&packet,), outcome),
    ensures
        outcome is Ok <==> 1 <= wish <= 3,
        outcome is Ok ==> {
            let handshake = outcome->Ok_0;
            &&& handshake.protocol_version == version
            &&& handshake.host@ == host@
            &&& handshake.port == port
            &&& wish == 1 ==> handshake.next_state is Status
            &&& wish == 2 ==> handshake.next_state is Login
            &&& wish == 3 ==> handshake.next_state is Transfer
        },
{
    let p1 = varint::encoded_varint(version);
    let p2 = packet::encoded_string(host@);
    let p3 = packet::big_endian_bytes(port as nat, 2);
    let p4 = varint::encoded_varint(wish);
    let all = encoded_handshake(version, host@, port, wish);
    assert(all =~= p1 + (p2 + p3 + p4));
    varint::lemma_varint_round_trip(version, p2 + p3 + p4);
    assert(all.skip(p1.len() as int) =~= p2 + (p3 + p4));
    packet::lemma_string_round_trip(host@, p3 + p4, 255);
    assert(all.skip((p1.len() + p2.len()) as int) =~= p3 + p4);
    packet::lemma_big_endian_two(port);
    assert((p3 + p4).take(2) =~= p3);
    assert(all.skip((p1.len() + p2.len() + 2) as int) =~= p4 + Seq::empty());
    varint::lemma_varint_round_trip(wish, Seq::empty());
}

} // verus!

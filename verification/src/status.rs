//! The answer to a client that asks for the state of the server.
use crate::chat::{self, legacy_text_to_json};
use crate::config::{AppConfig, ServerConfig};
use crate::ip2region::IpLocation;
use crate::json::{self, add_entry, json_bool, json_int, json_list, json_object, json_text, json_to_string, JsonView};
use crate::language::{self, Language};
use crate::packet::{self, i64_to_bytes, write_string, Field, Packet, PacketReader, ProtocolError};
use crate::problem::{self, Problem, Report};
use crate::protocol::{self, encode_handshake, parse_handshake, Handshake, HandshakeView, HANDSHAKE_PACKET_ID};
use crate::routing::{self, LineTarget, Visit};
use crate::security::{BlockReason, Security};
use crate::text::{self, cat2, signed_to_text};
use vstd::prelude::*;
use vstd::string::*;

verus! {

/// The version that the server shows.
pub open spec fn version_json(server: ServerConfig) -> JsonView {
    JsonView::Object(
        Map::empty().insert("name"@, JsonView::Text(server.status_version_name@)).insert(
            "protocol"@,
            JsonView::Int(server.status_protocol as int),
        ),
    )
}

/// The players that the server shows.
pub open spec fn players_json(server: ServerConfig) -> JsonView {
    JsonView::Object(
        Map::empty().insert("max"@, JsonView::Int(server.max_players as int)).insert(
            "online"@,
            JsonView::Int(0),
        ).insert("sample"@, JsonView::List(Seq::empty())),
    )
}

/// The message of the day.
pub open spec fn motd_text(server: ServerConfig, language: Language) -> Seq<char> {
    language.rendered("status.motd"@, seq![("motd"@, server.motd@)])
}

/// The state that the gateway shows of itself.
pub open spec fn status_json(server: ServerConfig, language: Language) -> JsonView {
    JsonView::Object(
        Map::empty().insert("version"@, version_json(server)).insert(
            "players"@,
            players_json(server),
        ).insert("description"@, chat::component_json(chat::runs_of(motd_text(server, language)))).insert(
            "enforcesSecureChat"@,
            JsonView::Bool(false),
        ).insert("previewsChat"@, JsonView::Bool(false)),
    )
}

/// The packet with the state that the gateway shows of itself.
pub open spec fn local_status(server: ServerConfig, language: Language) -> Seq<u8> {
    packet::encoded_string(json::compact_text(status_json(server, language)))
}

/// The packet with the state that the gateway shows of itself.
pub fn local_status_payload(server: &ServerConfig, language: &Language) -> (payload: Vec<u8>)
    ensures
        payload@ == local_status(*server, *language),
{
    let values = [("motd", server.motd.as_str())];
    let motd = language.render("status.motd", &values);
    assert(language::value_texts(values@) =~= seq![("motd"@, server.motd@)]);

    proof {
        reveal_strlit("name");
        reveal_strlit("protocol");
        assert("name"@.len() == 4 && "protocol"@.len() == 8);
    }
    let mut version: Vec<(String, serde_json::Value)> = Vec::new();
    add_entry(&mut version, "name", json_text(server.status_version_name.clone()));
    add_entry(&mut version, "protocol", json_int(server.status_protocol as i64));

    let nobody: Vec<serde_json::Value> = Vec::new();
    assert(json::all_contents(nobody@) =~= Seq::empty());
    proof {
        reveal_strlit("max");
        reveal_strlit("online");
        reveal_strlit("sample");
        assert("max"@.len() == 3 && "online"@.len() == 6 && "sample"@.len() == 6);
        assert("online"@[0] != "sample"@[0]);
    }
    let mut players: Vec<(String, serde_json::Value)> = Vec::new();
    add_entry(&mut players, "max", json_int(server.max_players as i64));
    add_entry(&mut players, "online", json_int(0));
    add_entry(&mut players, "sample", json_list(nobody));

    proof {
        reveal_strlit("version");
        reveal_strlit("players");
        reveal_strlit("description");
        reveal_strlit("enforcesSecureChat");
        reveal_strlit("previewsChat");
        assert("version"@.len() == 7 && "players"@.len() == 7 && "description"@.len() == 11 &&
            "enforcesSecureChat"@.len() == 18 && "previewsChat"@.len() == 12);
        assert("version"@[0] != "players"@[0]);
    }
    let mut entries: Vec<(String, serde_json::Value)> = Vec::new();
    add_entry(&mut entries, "version", json_object(version));
    add_entry(&mut entries, "players", json_object(players));
    add_entry(&mut entries, "description", legacy_text_to_json(motd.as_str()));
    add_entry(&mut entries, "enforcesSecureChat", json_bool(false));
    add_entry(&mut entries, "previewsChat", json_bool(false));
    let json = json_object(entries);

    let mut payload: Vec<u8> = Vec::new();
    write_string(&mut payload, json_to_string(&json).as_str());
    payload
}

/// What the first packet of a connection says, or why the connection is broken off.
pub open spec fn first_packet(packet: Option<Packet>) -> Result<HandshakeView, Report> {
    match packet {
        None => Err(problem::plain("client closed before handshake"@)),
        Some(packet) => if packet.id != HANDSHAKE_PACKET_ID {
            Err(
                problem::plain(
                    ProtocolError::UnexpectedPacketId {
                        actual: packet.id,
                        expected: HANDSHAKE_PACKET_ID,
                    }.words(),
                ),
            )
        } else {
            match protocol::handshake_in(packet.payload@) {
                Ok(handshake) => Ok(handshake),
                Err(error) => Err(problem::plain(error.words())),
            }
        },
    }
}

/// Reads the first packet of a connection.
pub fn open_connection(packet: Option<Packet>) -> (outcome: Result<Handshake, Problem>)
    ensures
        match (outcome, first_packet(packet)) {
            (Ok(handshake), Ok(view)) => handshake@ == view,
            (Err(problem), Err(report)) => problem@ == report,
            _ => false,
        },
{
    match packet {
        None => Err(Problem::new("client closed before handshake".to_owned())),
        Some(packet) => match parse_handshake(&packet) {
            Ok(handshake) => Ok(handshake),
            Err(error) => Err(Problem::new(error.message())),
        },
    }
}

/// The report on a packet that was expected and did not come, or came with another id.
pub open spec fn unexpected(
    packet: Option<Packet>,
    id: i32,
    closed: Seq<char>,
    wrong: Seq<char>,
) -> Option<Report> {
    match packet {
        None => Some(problem::plain(closed)),
        Some(packet) => if packet.id != id {
            Some(problem::plain(wrong + text::signed_decimal(packet.id as int)))
        } else {
            None
        },
    }
}

/// The packet that was expected.
fn expect_packet(packet: Option<Packet>, id: i32, closed: &str, wrong: &str) -> (outcome: Result<
    Packet,
    Problem,
>)
    ensures
        match outcome {
            Ok(found) => unexpected(packet, id, closed@, wrong@) is None && packet == Some(found),
            Err(problem) => unexpected(packet, id, closed@, wrong@) == Some(problem@),
        },
{
    match packet {
        None => Err(Problem::new(closed.to_owned())),
        Some(packet) => {
            if packet.id != id {
                Err(Problem::new(cat2(wrong, signed_to_text(packet.id as i64).as_str())))
            } else {
                Ok(packet)
            }
        },
    }
}

/// What becomes of a client that asked for the state of the server.
#[derive(Debug)]
pub enum Inquiry {
    /// The connection is broken off.
    Fail(Problem),
    /// The client gets no answer: its address is blocked.
    Silent(BlockReason),
    /// The state of this target, on this line, is asked for.
    Ask(String, LineTarget),
    /// The client gets the state that the gateway shows of itself.
    Answer(Vec<u8>),
}

/// What is known of a client that asks for the state of the server.
pub open spec fn inquirer(host: Seq<char>, security: Security, location: IpLocation) -> Visit {
    Visit {
        place: location@,
        player: None,
        host: Some(host),
        marks: Some(crate::routing::marks_of(security.guard(), location@)),
    }
}

pub open spec fn request_report(packet: Option<Packet>) -> Option<Report> {
    unexpected(
        packet,
        0,
        "client closed before status request"@,
        "unexpected status request packet id "@,
    )
}

/// Decides what becomes of a client that asked for the state of the server.
pub fn on_status_request(
    config: &AppConfig,
    security: &Security,
    language: &Language,
    location: &IpLocation,
    handshake: &Handshake,
    balance_key: &str,
    packet: Option<Packet>,
) -> (inquiry: Inquiry)
    requires
        config.groups_have_hosts(),
    ensures
        if request_report(packet) is Some {
            inquiry matches Inquiry::Fail(problem) && Some(problem@) == request_report(packet)
        } else if security.guard().verdict(location@) is Some {
            inquiry matches Inquiry::Silent(reason) && Some(reason) == security.guard().verdict(
                location@,
            )
        } else {
            let choice = config.choice(inquirer(handshake.host@, *security, *location));
            match inquiry {
                Inquiry::Ask(line, target) => routing::routed(
                    choice,
                    balance_key@,
                    Some((line, target)),
                ),
                Inquiry::Answer(payload) => choice is Nowhere && payload@ == local_status(
                    config.server,
                    *language,
                ),
                _ => false,
            }
        },
{
    match expect_packet(
        packet,
        0,
        "client closed before status request",
        "unexpected status request packet id ",
    ) {
        Ok(_) => {},
        Err(problem) => {
            return Inquiry::Fail(problem);
        },
    }
    match security.check(location) {
        Some(reason) => {
            return Inquiry::Silent(reason);
        },
        None => {},
    }
    match config.select_route_with_host_context(
        location,
        None,
        Some(handshake.host.as_str()),
        security,
        balance_key,
    ) {
        Some((line, target)) => Inquiry::Ask(line, target),
        None => Inquiry::Answer(local_status_payload(&config.server, language)),
    }
}

/// The packet by which the gateway asks a target for its state.
pub fn backend_handshake(protocol_version: i32, target: &LineTarget) -> (payload: Vec<u8>)
    ensures
        payload@ == protocol::encoded_handshake(protocol_version, target.host@, target.port, 1),
{
    encode_handshake(protocol_version, target.host.as_str(), target.port, 1)
}

/// What a target answered when it was asked for its state.
pub fn backend_status(packet: Option<Packet>) -> (outcome: Result<Vec<u8>, Problem>)
    ensures
        match outcome {
            Ok(payload) => packet matches Some(packet) && packet.id == 0 && payload
                == packet.payload,
            Err(problem) => unexpected(
                packet,
                0,
                "backend closed before status response"@,
                "unexpected backend status response packet id "@,
            ) == Some(problem@),
        },
{
    match expect_packet(
        packet,
        0,
        "backend closed before status response",
        "unexpected backend status response packet id ",
    ) {
        Ok(packet) => Ok(packet.payload),
        Err(problem) => Err(problem),
    }
}

/// The answer to a client whose target was asked for its state: the state of the target, or
/// the one that the gateway shows of itself if the target could not be asked.
pub fn on_backend_status(
    server: &ServerConfig,
    language: &Language,
    asked: Result<Vec<u8>, Problem>,
) -> (payload: Vec<u8>)
    ensures
        match asked {
            Ok(answer) => payload == answer,
            Err(_) => payload@ == local_status(*server, *language),
        },
{
    match asked {
        Ok(answer) => answer,
        Err(_) => local_status_payload(server, language),
    }
}

/// The line for the log about a target that could not be asked for its state.
pub fn status_failure_line(language: &Language, error: &str) -> (text: String)
    ensures
        text@ == language.rendered("log.status_proxy_failed"@, seq![("error"@, error@)]),
{
    let values = [("error", error)];
    let text = language.render("log.status_proxy_failed", &values);
    assert(language::value_texts(values@) =~= seq![("error"@, error@)]);
    text
}

/// What the ping of a client says, or why the connection is broken off.
pub open spec fn ping_number(packet: Option<Packet>) -> Result<i64, Report> {
    match unexpected(
        packet,
        1,
        "client closed before status ping"@,
        "unexpected status ping packet id "@,
    ) {
        Some(report) => Err(report),
        None => match packet::i64_field(packet->0.payload@) {
            Field::Bad(error) => Err(problem::plain(error.words())),
            Field::Read(number, used) => if packet->0.payload@.len() > 8 {
                Err(problem::plain(ProtocolError::InvalidValue("trailing packet data").words()))
            } else {
                Ok(number)
            },
        },
    }
}

/// The answer to the ping of a client: the number that came with it.
pub fn on_status_ping(packet: Option<Packet>) -> (outcome: Result<Vec<u8>, Problem>)
    ensures
        match (outcome, ping_number(packet)) {
            (Ok(payload), Ok(number)) => payload@ == packet->0.payload@,
            (Err(problem), Err(report)) => problem@ == report,
            _ => false,
        },
{
    let ping = match expect_packet(
        packet,
        1,
        "client closed before status ping",
        "unexpected status ping packet id ",
    ) {
        Ok(packet) => packet,
        Err(problem) => {
            return Err(problem);
        },
    };
    let mut reader = PacketReader::new(ping.payload.as_slice());
    let number = match reader.read_i64() {
        Ok(number) => number,
        Err(error) => {
            return Err(Problem::new(error.message()));
        },
    };
    match reader.expect_end() {
        Ok(_) => {},
        Err(error) => {
            return Err(Problem::new(error.message()));
        },
    }
    proof {
        crate::packet::lemma_number_keeps_its_bytes(ping.payload@, number);
    }
    Ok(i64_to_bytes(number))
}

/// Checks what a target answered to the ping that was passed on to it.
pub fn backend_pong(packet: Option<Packet>) -> (outcome: Result<(), Problem>)
    ensures
        crate::problem::failure(outcome) == unexpected(
            packet,
            1,
            "backend closed before status pong"@,
            "unexpected backend status pong packet id "@,
        ),
{
    match expect_packet(
        packet,
        1,
        "backend closed before status pong",
        "unexpected backend status pong packet id ",
    ) {
        Ok(_) => Ok(()),
        Err(problem) => Err(problem),
    }
}

/// What becomes of a client that asks for the state of the server. A wrong packet breaks the
/// connection off; an address that is turned away gets no answer. Otherwise the target is
/// asked that the configuration gives for the very same connection without a player; without a
/// route the gateway shows its own state.
pub proof fn lemma_state_of_the_routed_target_is_asked(
    config: AppConfig,
    security: Security,
    language: Language,
    location: IpLocation,
    handshake: Handshake,
    key: &str,
    packet: Option<Packet>,
    host: &str,
    verdict: Option<BlockReason>,
    route: Option<(String, LineTarget)>,
    own: Vec<u8>,
    inquiry: Inquiry,
)
    requires
        config.groups_have_hosts(),
        host@ == handshake.host@,
        call_ensures(Security::check, (&security, &location), verdict),
        call_ensures(
            AppConfig::select_route_with_host_context,
            (&config, &location, None, Some(host), &security, key),
            route,
        ),
        call_ensures(local_status_payload, (&config.server, &language), own),
        call_ensures(
            on_status_request,
            (&config, &security, &language, &location, &handshake, key, packet),
            inquiry,
        ),
    ensures
        packet is None || packet->0.id != 0 ==> inquiry is Fail,
        packet is Some && packet->0.id == 0 ==> {
            &&& verdict is Some ==> inquiry == Inquiry::Silent(verdict->0)
            &&& verdict is None && route is None ==> (inquiry matches Inquiry::Answer(payload)
                && payload@ == own@)
            &&& verdict is None && route is Some ==> (inquiry matches Inquiry::Ask(line, target)
                && {
                &&& line@ == (route->0).0@
                &&& target == (route->0).1 || exists|group: routing::RoutingGroup|
                    #[trigger] group.may_hand_out(key@, target) && group.may_hand_out(
                        key@,
                        (route->0).1,
                    )
            })
        },
{
    let visit = inquirer(handshake.host@, security, location);
    assert(visit == routing::visit_of(location, None, Some(host), Some(&security)));
}

/// The answer to a client is the state that the target gave, byte by byte, or the own state
/// of the gateway where the target could not be asked.
pub proof fn lemma_state_of_the_target_is_passed_on(
    server: ServerConfig,
    language: Language,
    packet: Option<Packet>,
    asked: Result<Vec<u8>, Problem>,
    own: Vec<u8>,
    payload: Vec<u8>,
)
    requires
        call_ensures(backend_status, (packet,), asked),
        call_ensures(local_status_payload, (&server, &language), own),
        call_ensures(on_backend_status, (&server, &language, asked), payload),
    ensures
        packet is Some && packet->0.id == 0 ==> payload@ == packet->0.payload@,
        packet is None || packet->0.id != 0 ==> payload@ == own@,
{
}

/// The own state of the gateway: the version name and protocol and the number of players that
/// are configured, nobody online, and the message of the day with its formatting.
pub proof fn lemma_own_state(server: ServerConfig, language: Language, payload: Vec<u8>)
    requires
        call_ensures(local_status_payload, (&server, &language), payload),
    ensures
        ({
            let version = Map::empty().insert(
                "name"@,
                JsonView::Text(server.status_version_name@),
            ).insert("protocol"@, JsonView::Int(server.status_protocol as int));
            let players = Map::empty().insert("max"@, JsonView::Int(server.max_players as int)).insert(
                "online"@,
                JsonView::Int(0),
            ).insert("sample"@, JsonView::List(Seq::empty()));
            let motd = language.rendered("status.motd"@, seq![("motd"@, server.motd@)]);
            payload@ == packet::encoded_string(
                json::compact_text(
                    JsonView::Object(
                        Map::empty().insert("version"@, JsonView::Object(version)).insert(
                            "players"@,
                            JsonView::Object(players),
                        ).insert("description"@, chat::component_json(chat::runs_of(motd))).insert(
                            "enforcesSecureChat"@,
                            JsonView::Bool(false),
                        ).insert("previewsChat"@, JsonView::Bool(false)),
                    ),
                ),
            )
        }),
{
}

/// A ping of eight bytes is answered with the same bytes; anything else is refused.
pub proof fn lemma_ping_is_echoed(packet: Option<Packet>, outcome: Result<Vec<u8>, Problem>)
    requires
        call_ensures(on_status_ping, (packet,), outcome),
    ensures
        outcome is Ok <==> packet is Some && packet->0.id == 1 && packet->0.payload@.len() == 8,
        outcome is Ok ==> outcome->Ok_0@ == packet->0.payload@,
{
}

/// A target is asked with the handshake for its own host and port, and the wish for its state.
pub proof fn lemma_target_is_asked_by_its_own_name(
    protocol_version: i32,
    target: LineTarget,
    payload: Vec<u8>,
)
    requires
        call_ensures(backend_handshake, (protocol_version, &target), payload),
        vstd::utf8::encode_utf8(target.host@).len() <= 255,
    ensures
        protocol::handshake_in(payload@) == Ok::<HandshakeView, ProtocolError>(
            HandshakeView {
                protocol_version,
                host: target.host@,
                port: target.port,
                next_state: protocol::NextState::Status,
            },
        ),
{
    protocol::lemma_handshake_round_trip(
        HandshakeView {
            protocol_version,
            host: target.host@,
            port: target.port,
            next_state: protocol::NextState::Status,
        },
    );
}

} // verus!

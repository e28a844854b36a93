use mc_transfer_gateway::address::IpAddr;
use mc_transfer_gateway::config::{
    AppConfig, Ip2RegionConfig, LanguageConfig, LineTarget, LoggingConfig, RouteRule,
    RoutingConfig, SecurityConfig, ServerConfig,
};
use mc_transfer_gateway::config::{
    default_bind, default_login_timeout_ms, default_max_connections, default_max_frame_length,
};
use mc_transfer_gateway::dns::{
    keep_usable, resolve_answers, trim_dns_root, MinecraftDnsResolver, SrvTarget,
};
use mc_transfer_gateway::identity::offline_uuid;
use mc_transfer_gateway::ip2region::{Ip2Region, IpLocation};
use mc_transfer_gateway::language::Language;
use mc_transfer_gateway::login::{
    begin_login, format_target, login_disconnect, supported_protocols_description,
    validate_username, Admission, Login, Opening, Parting, UsernameError, Welcome, Welcomed,
};
use mc_transfer_gateway::problem::Problem;
use mc_transfer_gateway::protocol::{
    encode_handshake, encode_login_success, encode_transfer, parse_handshake, protocol_spec,
    write_string, Handshake, LoginStart, NextState, Packet, PacketReader, Uuid,
    SUPPORTED_VERSION_RANGE,
};
use mc_transfer_gateway::security::{BlockReason, ListTexts, Security};
use mc_transfer_gateway::server::{
    lookup_location, security_block_line, ConnectionLimiter, Listener,
};
use mc_transfer_gateway::status::{
    backend_handshake, backend_pong, backend_status, local_status_payload, on_backend_status,
    on_status_ping, on_status_request, open_connection, status_failure_line, Inquiry,
};

const PEER: IpAddr = IpAddr::V4(0xcb00_7108);

fn english() -> Language {
    Language::builtin("en-US").unwrap()
}

fn target(host: &str, port: u16) -> LineTarget {
    LineTarget {
        host: host.to_owned(),
        port,
        resolve_srv: false,
    }
}

fn config() -> AppConfig {
    AppConfig {
        server: ServerConfig {
            bind: default_bind(),
            max_connections: default_max_connections(),
            login_timeout_ms: default_login_timeout_ms(),
            max_frame_length: default_max_frame_length(),
            supported_protocols: Vec::new(),
            status_version_name: "Gateway".to_owned(),
            status_protocol: 776,
            max_players: 100,
            motd: "Hello".to_owned(),
            strict_error_handling: false,
        },
        ip2region: Ip2RegionConfig::default(),
        security: SecurityConfig::default(),
        routing: Some(RoutingConfig::from_single_target(target(
            "backend.example.com",
            25566,
        ))),
        vhosts: None,
        language: LanguageConfig::default(),
        logging: LoggingConfig { file: None },
    }
}

fn nowhere() -> AppConfig {
    let mut config = config();
    let rule = RouteRule {
        line: "default".to_owned(),
        players: vec!["Nobody".to_owned()],
        ..RouteRule::default()
    };
    if let Some(routing) = config.routing.as_mut() {
        routing.default_line = String::new();
        routing.rules = vec![rule];
    }
    config
}

fn security(tor: &str) -> Security {
    let found = ListTexts {
        vpn_ipv4: None,
        vpn_ipv6: None,
        tor: Some(Ok(tor.to_owned())),
        spam: None,
    };
    match Security::open(&SecurityConfig::default(), &found) {
        Ok(security) => security,
        Err(problem) => panic!("{problem:?}"),
    }
}

fn handshake(version: i32) -> Handshake {
    Handshake {
        protocol_version: version,
        host: "gateway.example.com".to_owned(),
        port: 25565,
        next_state: NextState::Login,
    }
}

fn login_start(name: &str) -> Packet {
    let mut payload = Vec::new();
    write_string(&mut payload, name);
    payload.extend_from_slice(&[0; 16]);
    Packet { id: 0, payload }
}

fn reason(payload: &[u8]) -> String {
    let mut reader = PacketReader::new(payload);
    let text = reader.read_string(65536).unwrap();
    reader.expect_end().unwrap();
    text
}

fn accepted(version: i32) -> Login {
    match begin_login(&config(), &english(), handshake(version)) {
        Opening::Await(login) => login,
        Opening::Refuse(payload) => panic!("{}", reason(&payload)),
    }
}

fn admitted(config: &AppConfig, security: &Security, packet: Option<Packet>) -> Admission {
    accepted(776).on_login_start(
        config,
        security,
        &english(),
        &IpLocation::empty(PEER),
        "203.0.113.8",
        packet,
    )
}

#[test]
fn names_of_players_are_checked() {
    let check = |name: &str| {
        validate_username(&LoginStart {
            username: name.to_owned(),
            uuid: Uuid::from_bytes([0; 16]),
        })
    };
    for name in ["abc", "Steve_1", "ABCDEFGHIJKLMNOP"] {
        assert_eq!(check(name), Ok(()));
    }
    for name in ["", "ab", "ABCDEFGHIJKLMNOPQ", "éé"] {
        assert_eq!(check(name), Err(UsernameError::Length));
    }
    for name in ["a b", "abc-", "ééé"] {
        assert_eq!(check(name), Err(UsernameError::Characters));
    }
}

#[test]
fn protocols_are_described() {
    assert_eq!(
        supported_protocols_description(&Vec::new()),
        SUPPORTED_VERSION_RANGE
    );
    assert_eq!(
        supported_protocols_description(&vec![766, 776, -1]),
        "766, 776, -1"
    );
}

#[test]
fn logins_begin_with_an_accepted_protocol() {
    assert_eq!(accepted(776).spec, protocol_spec(776).unwrap());
    match begin_login(&config(), &english(), handshake(765)) {
        Opening::Refuse(payload) => assert_eq!(
            reason(&payload),
            "{\"text\":\"Unsupported protocol 765; supported versions: Java 1.20.5 through 26.3 Snapshot 10\"}"
        ),
        Opening::Await(_) => panic!("765 is not supported"),
    }
    let mut narrow = config();
    narrow.server.supported_protocols = vec![766, 767];
    match begin_login(&narrow, &english(), handshake(776)) {
        Opening::Refuse(payload) => assert_eq!(
            reason(&payload),
            "{\"text\":\"Unsupported protocol 776; supported versions: 766, 767\"}"
        ),
        Opening::Await(_) => panic!("776 is not on the list"),
    }
    assert!(matches!(
        begin_login(&narrow, &english(), handshake(767)),
        Opening::Await(_)
    ));
}

#[test]
fn reasons_are_escaped() {
    assert_eq!(
        reason(&login_disconnect("a \"quoted\" \\ word\n")),
        "{\"text\":\"a \\\"quoted\\\" \\\\ word\\n\"}"
    );
}

#[test]
fn players_are_refused_for_a_reason() {
    let open = security("");
    let refusal = |config: &AppConfig, security: &Security, name: &str| {
        match admitted(config, security, Some(login_start(name))) {
            Admission::Refuse(payload, block) => (reason(&payload), block),
            other => panic!("{other:?}"),
        }
    };
    assert_eq!(
        refusal(&config(), &open, "ab"),
        (
            "{\"text\":\"Player names must have 3 to 16 characters\"}".to_owned(),
            None
        )
    );
    assert_eq!(
        refusal(&config(), &open, "a b c"),
        (
            "{\"text\":\"Player names may only contain letters, digits and underscores\"}"
                .to_owned(),
            None
        )
    );
    assert_eq!(
        refusal(&config(), &security("203.0.113.8\n"), "Steve"),
        (
            "{\"text\":\"Connections through Tor are not allowed\"}".to_owned(),
            Some(BlockReason::Tor)
        )
    );
    assert_eq!(
        refusal(&nowhere(), &open, "Steve"),
        (
            "{\"text\":\"No route is available at the moment\"}".to_owned(),
            None
        )
    );
}

#[test]
fn broken_logins_are_broken_off() {
    let failure = |packet: Option<Packet>| match admitted(&config(), &security(""), packet) {
        Admission::Fail(problem) => problem.message,
        other => panic!("{other:?}"),
    };
    assert_eq!(failure(None), "client closed before login start");
    assert_eq!(
        failure(Some(Packet {
            id: 5,
            ..login_start("Steve")
        })),
        "unexpected packet id 5 (expected 0)"
    );
    assert_eq!(
        failure(Some(Packet {
            id: 0,
            payload: vec![9]
        })),
        "unexpected end of packet"
    );
}

#[test]
fn players_are_transferred() {
    let routed = match admitted(&config(), &security(""), Some(login_start("Steve"))) {
        Admission::Route(routed) => routed,
        other => panic!("{other:?}"),
    };
    assert_eq!(routed.line, "default");
    assert_eq!(routed.target, target("backend.example.com", 25566));
    let session = Uuid::from_bytes([9; 16]);
    let (payload, welcomed) =
        match routed.on_resolved_with(&english(), Ok(target("2001:db8::1", 1)), session) {
            Welcome::Greet(payload, welcomed) => (payload, welcomed),
            Welcome::Refuse(payload) => panic!("{}", reason(&payload)),
        };
    assert_eq!(
        payload,
        encode_login_success(
            protocol_spec(776).unwrap(),
            offline_uuid("Steve"),
            "Steve",
            false,
            Uuid::from_bytes([9; 16])
        )
    );
    assert_eq!(
        welcomed.log_line(&english()),
        "transferred Steve through default to [2001:db8::1]:1"
    );
    let acknowledged = |id: i32| Some(Packet {
        id,
        payload: Vec::new(),
    });
    match welcomed.on_acknowledged(acknowledged(3)) {
        Parting::Transfer(id, payload) => {
            assert_eq!(id, 0x0b);
            assert_eq!(payload, encode_transfer("2001:db8::1", 1));
        }
        Parting::Fail(problem) => panic!("{problem:?}"),
    }
    let failure = |welcomed: &Welcomed, packet: Option<Packet>| {
        match welcomed.on_acknowledged(packet) {
            Parting::Fail(problem) => problem.message,
            Parting::Transfer(..) => panic!("not acknowledged"),
        }
    };
    assert_eq!(
        failure(&welcomed, acknowledged(4)),
        "unexpected login acknowledgement packet id 4"
    );
    assert_eq!(
        failure(&welcomed, None),
        "client closed before login acknowledgement"
    );
}

#[test]
fn targets_that_cannot_be_resolved_are_no_route() {
    for resolved in [false, true] {
        let routed = match admitted(&config(), &security(""), Some(login_start("Steve"))) {
            Admission::Route(routed) => routed,
            other => panic!("{other:?}"),
        };
        let outcome = if resolved {
            Ok(target("a", 1))
        } else {
            Err(Problem {
                message: "no".to_owned(),
                cause: None,
            })
        };
        match routed.on_resolved(&english(), outcome) {
            Welcome::Greet(payload, _) => {
                assert!(resolved);
                let session = &payload[payload.len() - 16..];
                assert_eq!(session[6] >> 4, 4);
            }
            Welcome::Refuse(payload) => {
                assert!(!resolved);
                assert_eq!(
                    reason(&payload),
                    "{\"text\":\"No route is available at the moment\"}"
                );
            }
        }
    }
}

#[test]
fn addresses_are_written_with_their_port() {
    assert_eq!(format_target(&target("a.b", 1)), "a.b:1");
    assert_eq!(format_target(&target("::1", 25565)), "[::1]:25565");
    assert_eq!(format_target(&target("[::1]", 25565)), "[::1]:25565");
    assert_eq!(format_target(&target("", 7)), ":7");
}

#[test]
fn the_gateway_shows_its_own_state() {
    let payload = local_status_payload(&config().server, &english());
    assert_eq!(
        reason(&payload),
        "{\"description\":{\"extra\":[{\"text\":\"Hello\"}],\"text\":\"\"},\"enforcesSecureChat\":false,\
         \"players\":{\"max\":100,\"online\":0,\"sample\":[]},\"previewsChat\":false,\
         \"version\":{\"name\":\"Gateway\",\"protocol\":776}}"
    );
}

#[test]
fn first_packets_are_handshakes() {
    let packet = Packet {
        id: 0,
        payload: encode_handshake(776, "h", 1, 2),
    };
    let expected = parse_handshake(&packet).unwrap();
    assert_eq!(open_connection(Some(packet)).unwrap(), expected);
    assert_eq!(
        open_connection(None).unwrap_err().message,
        "client closed before handshake"
    );
    let packet = Packet {
        id: 1,
        payload: Vec::new(),
    };
    assert_eq!(
        open_connection(Some(packet)).unwrap_err().message,
        "unexpected packet id 1 (expected 0)"
    );
}

fn asked(config: &AppConfig, security: &Security, packet: Option<Packet>) -> Inquiry {
    on_status_request(
        config,
        security,
        &english(),
        &IpLocation::empty(PEER),
        &handshake(776),
        "203.0.113.8",
        packet,
    )
}

fn empty(id: i32) -> Option<Packet> {
    Some(Packet {
        id,
        payload: Vec::new(),
    })
}

#[test]
fn clients_that_ask_for_the_state_are_answered() {
    match asked(&config(), &security(""), empty(0)) {
        Inquiry::Ask(line, asked) => {
            assert_eq!(line, "default");
            assert_eq!(asked, target("backend.example.com", 25566));
        }
        other => panic!("{other:?}"),
    }
    match asked(&config(), &security("203.0.113.8\n"), empty(0)) {
        Inquiry::Silent(reason) => assert_eq!(reason, BlockReason::Tor),
        other => panic!("{other:?}"),
    }
    match asked(&nowhere(), &security(""), empty(0)) {
        Inquiry::Answer(payload) => {
            assert_eq!(payload, local_status_payload(&config().server, &english()))
        }
        other => panic!("{other:?}"),
    }
    let failure = |packet: Option<Packet>| match asked(&config(), &security(""), packet) {
        Inquiry::Fail(problem) => problem.message,
        other => panic!("{other:?}"),
    };
    assert_eq!(failure(None), "client closed before status request");
    assert_eq!(failure(empty(1)), "unexpected status request packet id 1");
}

#[test]
fn targets_are_asked_for_their_state() {
    let payload = backend_handshake(776, &target("b", 9));
    let packet = Packet { id: 0, payload };
    let read = parse_handshake(&packet).unwrap();
    assert_eq!(
        (read.host.as_str(), read.port, read.next_state),
        ("b", 9, NextState::Status)
    );
    let answer = Packet {
        id: 0,
        payload: vec![1, 2],
    };
    assert_eq!(backend_status(Some(answer)).unwrap(), [1, 2]);
    assert_eq!(
        backend_status(None).unwrap_err().message,
        "backend closed before status response"
    );
    assert_eq!(
        backend_status(empty(2)).unwrap_err().message,
        "unexpected backend status response packet id 2"
    );
    let server = config().server;
    assert_eq!(on_backend_status(&server, &english(), Ok(vec![7])), [7]);
    let failed = Err(Problem {
        message: "x".to_owned(),
        cause: None,
    });
    assert_eq!(
        on_backend_status(&server, &english(), failed),
        local_status_payload(&server, &english())
    );
    assert_eq!(
        status_failure_line(&english(), "refused"),
        "unable to fetch the status of the target server: refused"
    );
    assert!(backend_pong(empty(1)).is_ok());
    assert_eq!(
        backend_pong(empty(0)).unwrap_err().message,
        "unexpected backend status pong packet id 0"
    );
    assert_eq!(
        backend_pong(None).unwrap_err().message,
        "backend closed before status pong"
    );
}

#[test]
fn pings_are_echoed() {
    let ping = |bytes: &[u8]| {
        on_status_ping(Some(Packet {
            id: 1,
            payload: bytes.to_vec(),
        }))
    };
    assert_eq!(
        ping(&[0xff, 2, 3, 4, 5, 6, 7, 8]).unwrap(),
        [0xff, 2, 3, 4, 5, 6, 7, 8]
    );
    assert_eq!(ping(&[1; 7]).unwrap_err().message, "unexpected end of packet");
    assert_eq!(
        ping(&[1; 9]).unwrap_err().message,
        "invalid protocol value: trailing packet data"
    );
    assert_eq!(
        on_status_ping(empty(0)).unwrap_err().message,
        "unexpected status ping packet id 0"
    );
    assert_eq!(
        on_status_ping(None).unwrap_err().message,
        "client closed before status ping"
    );
}

fn record(priority: u16, weight: u16, host: &str, port: u16) -> SrvTarget {
    SrvTarget {
        priority,
        weight,
        host: host.to_owned(),
        port,
    }
}

#[test]
fn service_records_lead_to_a_target() {
    let configured = target("play.example.com", 25565);
    let answers = vec![
        record(5, 1, "a.example.com.", 1),
        record(5, 1, ".", 2),
        record(1, 1, "b.example.com.", 0),
        record(5, 2, "c.example.com..", 3),
    ];
    let kept = keep_usable(&answers);
    assert_eq!(kept.len(), 2);
    assert_eq!(kept[1].host, "c.example.com");
    let chosen = |sequence: u64| {
        resolve_answers(&configured, &answers, sequence)
            .unwrap()
            .host
    };
    assert_eq!(chosen(0), "a.example.com");
    assert_eq!(chosen(1), "a.example.com");
    assert_eq!(chosen(2), "c.example.com");
    assert_eq!(chosen(3), "c.example.com");
    assert_eq!(chosen(4), "a.example.com");
    assert_eq!(
        resolve_answers(&configured, &Vec::new(), 0).unwrap(),
        configured
    );
    assert_eq!(
        resolve_answers(&configured, &vec![record(0, 0, ".", 0)], 0)
            .unwrap_err()
            .message,
        "Minecraft SRV service is unavailable for play.example.com"
    );
    assert_eq!(trim_dns_root("a.b.".to_owned()), "a.b");
}

#[test]
fn targets_are_resolved_where_that_is_wanted() {
    let configured = target("play.example.com", 25565);
    let answers = || Some(vec![record(0, 0, "a.example.com", 7), record(0, 0, "b.", 8)]);
    let resolver = MinecraftDnsResolver::from_system_config(true);
    assert_eq!(
        resolver.query(&configured, true).as_deref(),
        Some("_minecraft._tcp.play.example.com.")
    );
    assert_eq!(resolver.query(&configured, false), None);
    assert_eq!(resolver.query(&target("203.0.113.8", 1), true), None);
    let resolved = |resolve_srv: bool, answers: Option<Vec<SrvTarget>>| {
        resolver
            .resolve_target(&configured, resolve_srv, answers)
            .unwrap()
    };
    assert_eq!(resolved(false, answers()), configured);
    assert_eq!(resolved(true, None), configured);
    assert_eq!(resolved(true, answers()), target("a.example.com", 7));
    assert_eq!(resolved(true, answers()), target("b", 8));
    assert_eq!(resolved(true, answers()), target("a.example.com", 7));
    let none = MinecraftDnsResolver::from_system_config(false);
    assert_eq!(none.query(&configured, true), None);
    assert_eq!(
        none.resolve_target(&configured, true, answers()).unwrap(),
        configured
    );
}

#[test]
fn connections_are_limited() {
    let mut limiter = ConnectionLimiter::default();
    assert!(limiter.try_acquire(2));
    assert!(limiter.try_acquire(2));
    assert!(!limiter.try_acquire(2));
    assert_eq!(limiter.active, 2);
    assert!(!limiter.try_acquire(1));
    limiter.release();
    assert!(limiter.try_acquire(2));
    assert!(!ConnectionLimiter::default().try_acquire(0));
}

#[test]
fn the_listener_follows_the_configuration() {
    let mut listener = Listener {
        bound: "a:1".to_owned(),
    };
    assert_eq!(listener.on_config("a:1"), None);
    assert_eq!(listener.on_config("b:1").as_deref(), Some("b:1"));
    listener.on_rebound("b:1".to_owned(), false);
    assert_eq!(listener.bound, "a:1");
    listener.on_rebound("b:1".to_owned(), true);
    assert_eq!(listener.bound, "b:1");
}

#[test]
fn failed_lookups_leave_the_place_unknown() {
    let databases = Ip2Region {
        v4: Some("v4".to_owned()),
        v6: None,
    };
    let look = |found: Result<String, String>| {
        lookup_location(&databases, &english(), PEER, "203.0.113.8", found)
    };
    let (location, line) = look(Ok("a|b|c|d|JP".to_owned()));
    assert_eq!(location.city.as_deref(), Some("c"));
    assert_eq!(line, None);
    let (location, line) = look(Err("broken".to_owned()));
    assert_eq!(location, IpLocation::empty(PEER));
    assert_eq!(line.as_deref(), Some("ip2region lookup failed"));
    assert_eq!(
        security_block_line(&english(), BlockReason::Spam, "203.0.113.8"),
        "blocked Spam IP connection from 203.0.113.8"
    );
}

#[test]
fn status_requests_are_led_where_logins_are_led() {
    let mut config = config();
    if let Some(routing) = config.routing.as_mut() {
        routing
            .lines
            .insert("other".to_owned(), target("other.example.com", 7));
        routing.rules = vec![RouteRule {
            line: "other".to_owned(),
            hosts: vec!["GATEWAY.example.com.".to_owned()],
            tor: Some(false),
            ..RouteRule::default()
        }];
    }
    let status = match asked(&config, &security(""), empty(0)) {
        Inquiry::Ask(line, target) => (line, target),
        other => panic!("{other:?}"),
    };
    let login = match admitted(&config, &security(""), Some(login_start("Steve"))) {
        Admission::Route(route) => (route.line, route.target),
        other => panic!("{other:?}"),
    };
    assert_eq!(status, login);
    assert_eq!(login, ("other".to_owned(), target("other.example.com", 7)));
}

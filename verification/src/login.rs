//! The login of a player, from the handshake to the transfer, step by step.
use crate::config::AppConfig;
use crate::identity::{self, fresh_uuid, offline_uuid};
use crate::ip2region::IpLocation;
use crate::json::{self, add_entry, json_object, json_text, json_to_string, JsonView};
use crate::language::{self, Language};
use crate::packet::{self, Packet, ProtocolError, Uuid};
use crate::problem::{self, Problem, Report};
use crate::protocol::{self, encode_login_disconnect, encode_login_success, encode_transfer, parse_login_start, protocol_spec, Handshake, LoginStart, ProtocolSpec, LOGIN_ACKNOWLEDGED_PACKET_ID, LOGIN_START_PACKET_ID, SUPPORTED_VERSION_RANGE};
use crate::routing::{self, LineTarget};
use crate::security::{BlockReason, Security};
use crate::text::{self, cat2, cat3, cat4, is_ascii_alphanumeric, signed_to_text, to_chars, unsigned_to_text};
use vstd::prelude::*;
use vstd::string::*;

verus! {

/// What is wrong with the name of a player.
#[derive(Debug, Clone, Copy, PartialEq, Eq, Structural)]
pub enum UsernameError {
    Length,
    Characters,
}

pub open spec fn is_name_char(c: char) -> bool {
    text::is_alphanumeric_ascii(c) || c == '_'
}

/// What is wrong with the name of a player: it has 3 to 16 characters, which are ASCII
/// letters, digits and underscores.
pub open spec fn username_problem(name: Seq<char>) -> Option<UsernameError> {
    if !(3 <= name.len() <= 16) {
        Some(UsernameError::Length)
    } else if exists|i: int| 0 <= i < name.len() && !is_name_char(#[trigger] name[i]) {
        Some(UsernameError::Characters)
    } else {
        None
    }
}

pub fn validate_username(login_start: &LoginStart) -> (outcome: Result<(), UsernameError>)
    ensures
        match outcome {
            Ok(_) => username_problem(login_start.username@) is None,
            Err(error) => username_problem(login_start.username@) == Some(error),
        },
{
    let chars = to_chars(login_start.username.as_str());
    if chars.len() < 3 || chars.len() > 16 {
        return Err(UsernameError::Length);
    }
    let mut i: usize = 0;
    while i < chars.len()
        invariant
            i <= chars.len(),
            chars@ == login_start.username@,
            3 <= chars.len() <= 16,
            forall|k: int| 0 <= k < i ==> is_name_char(#[trigger] chars@[k]),
        decreases chars.len() - i,
    {
        let c = chars[i];
        if !(is_ascii_alphanumeric(c) || c == '_') {
            return Err(UsernameError::Characters);
        }
        i += 1;
    }
    Ok(())
}

impl UsernameError {
    /// The key of the message that the player is shown.
    pub open spec fn message_key(self) -> Seq<char> {
        match self {
            UsernameError::Length => "disconnect.invalid_username_length"@,
            UsernameError::Characters => "disconnect.invalid_username_characters"@,
        }
    }

    pub fn disconnect_key(self) -> (key: &'static str)
        ensures
            key@ == self.message_key(),
    {
        match self {
            UsernameError::Length => "disconnect.invalid_username_length",
            UsernameError::Characters => "disconnect.invalid_username_characters",
        }
    }
}

/// Protocol numbers in a row, separated by commas.
pub open spec fn numbers_text(numbers: Seq<i32>) -> Seq<char>
    decreases numbers.len(),
{
    if numbers.len() == 0 {
        Seq::empty()
    } else if numbers.len() == 1 {
        text::signed_decimal(numbers[0] as int)
    } else {
        numbers_text(numbers.drop_last()) + ", "@ + text::signed_decimal(numbers.last() as int)
    }
}

/// The words for the protocols that players may use.
pub open spec fn protocols_text(numbers: Seq<i32>) -> Seq<char> {
    if numbers.len() == 0 {
        SUPPORTED_VERSION_RANGE@
    } else {
        numbers_text(numbers)
    }
}

/// The words for the protocols that players may use.
pub fn supported_protocols_description(protocols: &Vec<i32>) -> (text: String)
    ensures
        text@ == protocols_text(protocols@),
{
    if protocols.is_empty() {
        return SUPPORTED_VERSION_RANGE.to_owned();
    }
    let mut text = signed_to_text(protocols[0] as i64);
    let mut i: usize = 1;
    while i < protocols.len()
        invariant
            1 <= i <= protocols.len(),
            text@ == numbers_text(protocols@.take(i as int)),
        decreases protocols.len() - i,
    {
        assert(protocols@.take(i + 1).drop_last() == protocols@.take(i as int));
        text = cat3(text.as_str(), ", ", signed_to_text(protocols[i] as i64).as_str());
        i += 1;
    }
    assert(protocols@.take(protocols@.len() as int) == protocols@);
    text
}

/// Whether players may use a protocol: it is supported, and it is on the list if there is
/// one.
pub open spec fn is_accepted(protocols: Seq<i32>, version: i32) -> bool {
    protocol::is_supported(version) && (protocols.len() == 0 || protocols.contains(version))
}

fn lists(protocols: &Vec<i32>, version: i32) -> (yes: bool)
    ensures
        yes == protocols@.contains(version),
{
    let mut i: usize = 0;
    while i < protocols.len()
        invariant
            i <= protocols.len(),
            forall|k: int| 0 <= k < i ==> protocols@[k] != version,
        decreases protocols.len() - i,
    {
        if protocols[i] == version {
            return true;
        }
        i += 1;
    }
    false
}

/// The packet that ends a login, with the reason that the player is shown.
pub open spec fn farewell(reason: Seq<char>) -> Seq<u8> {
    packet::encoded_string(
        json::compact_text(
            JsonView::Object(Map::empty().insert("text"@, JsonView::Text(reason))),
        ),
    )
}

/// The packet that ends a login, with the reason that the player is shown.
pub fn login_disconnect(reason: &str) -> (payload: Vec<u8>)
    ensures
        payload@ == farewell(reason@),
{
    let mut entries: Vec<(String, serde_json::Value)> = Vec::new();
    add_entry(&mut entries, "text", json_text(reason.to_owned()));
    let json = json_object(entries);
    encode_login_disconnect(json_to_string(&json).as_str())
}

/// An address with its port; an IPv6 address is put in brackets.
pub open spec fn address_text(target: LineTarget) -> Seq<char> {
    if target.host@.contains(':') && target.host@[0] != '[' {
        "["@ + target.host@ + "]:"@ + text::decimal(target.port as nat)
    } else {
        target.host@ + ":"@ + text::decimal(target.port as nat)
    }
}

pub fn format_target(target: &LineTarget) -> (text: String)
    ensures
        text@ == address_text(*target),
{
    let port = unsigned_to_text(target.port as u64);
    let host = target.host.as_str();
    let chars = to_chars(host);
    let mut i: usize = 0;
    while i < chars.len()
        invariant
            i <= chars.len(),
            chars@ == host@,
            host@ == target.host@,
            port@ == text::decimal(target.port as nat),
            forall|k: int| 0 <= k < i ==> host@[k] != ':',
        decreases chars.len() - i,
    {
        if chars[i] == ':' {
            return if chars[0] != '[' {
                cat4("[", host, "]:", port.as_str())
            } else {
                cat3(host, ":", port.as_str())
            };
        }
        i += 1;
    }
    cat3(host, ":", port.as_str())
}

/// A login whose handshake has been accepted; the player's name is awaited.
#[derive(Debug)]
pub struct Login {
    pub spec: ProtocolSpec,
    pub handshake: Handshake,
}

/// How a login begins.
#[derive(Debug)]
pub enum Opening {
    /// The player is sent away with this packet.
    Refuse(Vec<u8>),
    /// The name of the player is awaited.
    Await(Login),
}

/// What a player with a protocol that is not accepted is told.
pub open spec fn protocol_refusal(language: Language, protocols: Seq<i32>, version: i32) -> Seq<
    char,
> {
    language.rendered(
        "disconnect.unsupported_protocol"@,
        seq![
            ("supported"@, protocols_text(protocols)),
            ("protocol"@, text::signed_decimal(version as int)),
        ],
    )
}

/// Begins a login.
pub fn begin_login(config: &AppConfig, language: &Language, handshake: Handshake) -> (opening:
    Opening)
    ensures
        match opening {
            Opening::Await(login) => {
                &&& is_accepted(
                    config.server.supported_protocols@,
                    handshake.protocol_version,
                )
                &&& login.spec == protocol::spec_of(handshake.protocol_version)
                &&& login.handshake == handshake
            },
            Opening::Refuse(payload) => {
                &&& !is_accepted(
                    config.server.supported_protocols@,
                    handshake.protocol_version,
                )
                &&& payload@ == farewell(
                    protocol_refusal(
                        *language,
                        config.server.supported_protocols@,
                        handshake.protocol_version,
                    ),
                )
            },
        },
{
    let protocols = &config.server.supported_protocols;
    let version = handshake.protocol_version;
    match protocol_spec(version) {
        Some(spec) => {
            if protocols.is_empty() || lists(protocols, version) {
                return Opening::Await(Login { spec, handshake });
            }
        },
        None => {},
    }
    let supported = supported_protocols_description(protocols);
    let shown = signed_to_text(version as i64);
    let values = [("supported", supported.as_str()), ("protocol", shown.as_str())];
    let reason = language.render("disconnect.unsupported_protocol", &values);
    assert(language::value_texts(values@) =~= seq![
        ("supported"@, protocols_text(protocols@)),
        ("protocol"@, text::signed_decimal(version as int)),
    ]);
    Opening::Refuse(login_disconnect(reason.as_str()))
}

/// A player who has a route; the address of the target is being looked up.
#[derive(Debug)]
pub struct Routed {
    pub spec: ProtocolSpec,
    pub username: String,
    pub line: String,
    pub target: LineTarget,
    pub strict_error_handling: bool,
}

/// What becomes of a player whose name is known.
#[derive(Debug)]
pub enum Admission {
    /// The connection is broken off.
    Fail(Problem),
    /// The player is sent away with this packet, perhaps because the address is blocked.
    Refuse(Vec<u8>, Option<BlockReason>),
    /// The player has a route.
    Route(Routed),
}

/// What a player is told under a key without values.
pub open spec fn notice(language: Language, key: Seq<char>) -> Seq<u8> {
    farewell(language.rendered(key, Seq::empty()))
}

/// Whether an admission is the right one for a player with a name.
pub open spec fn admits(
    login: Login,
    config: AppConfig,
    security: Security,
    language: Language,
    location: IpLocation,
    key: Seq<char>,
    username: Seq<char>,
    admission: Admission,
) -> bool {
    if username_problem(username) is Some {
        admission matches Admission::Refuse(payload, None) && payload@ == notice(
            language,
            username_problem(username)->0.message_key(),
        )
    } else if security.guard().verdict(location@) is Some {
        admission matches Admission::Refuse(payload, reason) && reason == security.guard().verdict(
            location@,
        ) && payload@ == notice(language, reason->0.message_key())
    } else {
        let choice = config.choice(player_visit(login, security, location, username));
        match admission {
            Admission::Refuse(payload, None) => choice is Nowhere && payload@ == notice(
                language,
                "disconnect.no_route"@,
            ),
            Admission::Route(route) => {
                &&& route.spec == login.spec
                &&& route.username@ == username
                &&& route.strict_error_handling == config.server.strict_error_handling
                &&& routing::routed(choice, key, Some((route.line, route.target)))
            },
            _ => false,
        }
    }
}

/// What is known of a player who logs in.
pub open spec fn player_visit(
    login: Login,
    security: Security,
    location: IpLocation,
    username: Seq<char>,
) -> crate::routing::Visit {
    crate::routing::Visit {
        place: location@,
        player: Some(username),
        host: Some(login.handshake.host@),
        marks: Some(crate::routing::marks_of(security.guard(), location@)),
    }
}

fn refuse(language: &Language, key: &str) -> (payload: Vec<u8>)
    ensures
        payload@ == notice(*language, key@),
{
    let values: [(&str, &str); 0] = [];
    let reason = language.render(key, &values);
    login_disconnect(reason.as_str())
}

/// What the packet with the player's name says, or why the connection is broken off.
pub open spec fn login_name(packet: Option<Packet>) -> Result<Seq<char>, Report> {
    match packet {
        None => Err(problem::plain("client closed before login start"@)),
        Some(packet) => if packet.id != LOGIN_START_PACKET_ID {
            Err(
                problem::plain(
                    ProtocolError::UnexpectedPacketId {
                        actual: packet.id,
                        expected: LOGIN_START_PACKET_ID,
                    }.words(),
                ),
            )
        } else {
            match protocol::login_start_in(packet.payload@) {
                Ok((username, uuid)) => Ok(username),
                Err(error) => Err(problem::plain(error.words())),
            }
        },
    }
}

impl Login {
    /// Decides what becomes of the player, given the packet with the name. `balance_key` is
    /// the address of the player as text.
    pub fn on_login_start(
        &self,
        config: &AppConfig,
        security: &Security,
        language: &Language,
        location: &IpLocation,
        balance_key: &str,
        packet: Option<Packet>,
    ) -> (admission: Admission)
        requires
            config.groups_have_hosts(),
        ensures
            match login_name(packet) {
                Err(report) => admission matches Admission::Fail(problem) && problem@ == report,
                Ok(username) => admits(
                    *self,
                    *config,
                    *security,
                    *language,
                    *location,
                    balance_key@,
                    username,
                    admission,
                ),
            },
    {
        let packet = match packet {
            Some(packet) => packet,
            None => {
                return Admission::Fail(
                    Problem::new("client closed before login start".to_owned()),
                );
            },
        };
        let login_start = match parse_login_start(&packet) {
            Ok(login_start) => login_start,
            Err(error) => {
                return Admission::Fail(Problem::new(error.message()));
            },
        };
        match validate_username(&login_start) {
            Ok(_) => {},
            Err(error) => {
                return Admission::Refuse(refuse(language, error.disconnect_key()), None);
            },
        }
        match security.check(location) {
            Some(reason) => {
                return Admission::Refuse(refuse(language, reason.disconnect_key()), Some(reason));
            },
            None => {},
        }
        let username = login_start.username;
        match config.select_route_with_host_context(
            location,
            Some(username.as_str()),
            Some(self.handshake.host.as_str()),
            security,
            balance_key,
        ) {
            Some((line, target)) => Admission::Route(
                Routed {
                    spec: self.spec,
                    username,
                    line,
                    target,
                    strict_error_handling: config.server.strict_error_handling,
                },
            ),
            None => Admission::Refuse(refuse(language, "disconnect.no_route"), None),
        }
    }
}

/// A player who has been welcomed; the acknowledgement is awaited.
#[derive(Debug)]
pub struct Welcomed {
    pub spec: ProtocolSpec,
    pub username: String,
    pub line: String,
    pub target: LineTarget,
}

/// What becomes of a player once the address of the target is known.
#[derive(Debug)]
pub enum Welcome {
    /// The player is sent away with this packet.
    Refuse(Vec<u8>),
    /// The player is welcomed with this packet.
    Greet(Vec<u8>, Welcomed),
}

/// The packet that welcomes a player.
pub open spec fn greeting(route: Routed, session_id: Seq<u8>) -> Seq<u8> {
    protocol::encoded_login_success(
        route.spec,
        identity::marked_digest(identity::md5_digest(identity::offline_seed(route.username@))),
        route.username@,
        route.strict_error_handling,
        session_id,
    )
}

/// Whether a welcome is the right one, where `session_id` is the identifier of the session.
pub open spec fn welcomes(
    route: Routed,
    language: Language,
    resolved: Result<LineTarget, Problem>,
    session_id: Seq<u8>,
    welcome: Welcome,
) -> bool {
    match (resolved, welcome) {
        (Err(_), Welcome::Refuse(payload)) => payload@ == notice(
            language,
            "disconnect.no_route"@,
        ),
        (Ok(target), Welcome::Greet(payload, next)) => {
            &&& payload@ == greeting(route, session_id)
            &&& next.spec == route.spec
            &&& next.username == route.username
            &&& next.line == route.line
            &&& next.target == target
        },
        _ => false,
    }
}

impl Routed {
    /// Welcomes the player, given the address that the target resolves to and the
    /// identifier of the session.
    pub fn on_resolved_with(
        self,
        language: &Language,
        resolved: Result<LineTarget, Problem>,
        session_id: Uuid,
    ) -> (welcome: Welcome)
        ensures
            welcomes(self, *language, resolved, session_id@, welcome),
    {
        match resolved {
            Err(_) => Welcome::Refuse(refuse(language, "disconnect.no_route")),
            Ok(target) => {
                let payload = encode_login_success(
                    self.spec,
                    offline_uuid(self.username.as_str()),
                    self.username.as_str(),
                    self.strict_error_handling,
                    session_id,
                );
                Welcome::Greet(
                    payload,
                    Welcomed { spec: self.spec, username: self.username, line: self.line, target },
                )
            },
        }
    }

    /// Welcomes the player to a new session, given the address that the target resolves to.
    pub fn on_resolved(self, language: &Language, resolved: Result<LineTarget, Problem>) -> (
        welcome: Welcome)
        ensures
            exists|session_id: Seq<u8>|
                identity::is_random_uuid(session_id) && #[trigger] welcomes(
                    self,
                    *language,
                    resolved,
                    session_id,
                    welcome,
                ),
    {
        let session_id = fresh_uuid();
        self.on_resolved_with(language, resolved, session_id)
    }
}

/// How a login ends.
#[derive(Debug)]
pub enum Parting {
    /// The connection is broken off.
    Fail(Problem),
    /// The player is transferred with the packet of this id and payload.
    Transfer(i32, Vec<u8>),
}

impl Welcomed {
    /// Transfers the player, given the acknowledgement.
    pub fn on_acknowledged(&self, packet: Option<Packet>) -> (parting: Parting)
        ensures
            match packet {
                None => parting matches Parting::Fail(problem) && problem@ == problem::plain(
                    "client closed before login acknowledgement"@,
                ),
                Some(packet) => if packet.id != LOGIN_ACKNOWLEDGED_PACKET_ID {
                    parting matches Parting::Fail(problem) && problem@ == problem::plain(
                        "unexpected login acknowledgement packet id "@ + text::signed_decimal(
                            packet.id as int,
                        ),
                    )
                } else {
                    parting matches Parting::Transfer(id, payload) && id
                        == self.spec.config_transfer_packet_id && payload@ == protocol::encoded_transfer(
                        self.target.host@,
                        self.target.port,
                    )
                },
            },
    {
        match packet {
            None => Parting::Fail(
                Problem::new("client closed before login acknowledgement".to_owned()),
            ),
            Some(packet) => {
                if packet.id != LOGIN_ACKNOWLEDGED_PACKET_ID {
                    return Parting::Fail(
                        Problem::new(
                            cat2(
                                "unexpected login acknowledgement packet id ",
                                signed_to_text(packet.id as i64).as_str(),
                            ),
                        ),
                    );
                }
                Parting::Transfer(
                    self.spec.config_transfer_packet_id,
                    encode_transfer(self.target.host.as_str(), self.target.port),
                )
            },
        }
    }

    /// The line for the log once the player has been transferred.
    pub open spec fn log_text(self, language: Language) -> Seq<char> {
        language.rendered(
            "log.transfer"@,
            seq![
                ("player"@, self.username@),
                ("line"@, self.line@),
                ("target"@, address_text(self.target)),
            ],
        )
    }

    /// The line for the log once the player has been transferred.
    pub fn log_line(&self, language: &Language) -> (text: String)
        ensures
            text@ == self.log_text(*language),
    {
        let target = format_target(&self.target);
        let values = [
            ("player", self.username.as_str()),
            ("line", self.line.as_str()),
            ("target", target.as_str()),
        ];
        let text = language.render("log.transfer", &values);
        assert(language::value_texts(values@) =~= seq![
            ("player"@, self.username@),
            ("line"@, self.line@),
            ("target"@, address_text(self.target)),
        ]);
        text
    }
}

/// A player whose address is blocked is sent away before any route is sought, and told the
/// reason; the log gets the same reason.
pub proof fn lemma_blocked_player_is_sent_away(
    login: Login,
    config: AppConfig,
    security: Security,
    language: Language,
    location: IpLocation,
    key: Seq<char>,
    username: Seq<char>,
    admission: Admission,
)
    requires
        admits(login, config, security, language, location, key, username, admission),
        username_problem(username) is None,
        security.guard().verdict(location@) is Some,
    ensures
        admission matches Admission::Refuse(payload, Some(reason)) && security.guard().verdict(
            location@,
        ) == Some(reason) && payload@ == notice(language, reason.message_key()),
{
}

/// A player is given a route only with a proper name, from an address that is not blocked,
/// and then the one that the rules choose.
pub proof fn lemma_route_is_earned(
    login: Login,
    config: AppConfig,
    security: Security,
    language: Language,
    location: IpLocation,
    key: Seq<char>,
    username: Seq<char>,
    route: Routed,
)
    requires
        admits(
            login,
            config,
            security,
            language,
            location,
            key,
            username,
            Admission::Route(route),
        ),
    ensures
        username_problem(username) is None,
        security.guard().verdict(location@) is None,
        routing::routed(
            config.choice(player_visit(login, security, location, username)),
            key,
            Some((route.line, route.target)),
        ),
{
}

/// A name is accepted exactly when it has 3 to 16 characters, and all of them are ASCII
/// letters, digits or underscores. A wrong length is told before a wrong character.
pub proof fn lemma_accepted_names(login_start: LoginStart, outcome: Result<(), UsernameError>)
    requires
        call_ensures(validate_username, (&login_start,), outcome),
    ensures
        outcome == Err::<(), UsernameError>(UsernameError::Length) <==> login_start.username@.len()
            < 3 || login_start.username@.len() > 16,
        outcome is Ok <==> 3 <= login_start.username@.len() <= 16 && forall|i: int|
            0 <= i < login_start.username@.len() ==> {
                let c = #[trigger] login_start.username@[i];
                'a' <= c <= 'z' || 'A' <= c <= 'Z' || '0' <= c <= '9' || c == '_'
            },
{
}

/// A packet that sends a player away holds the reason as the text of a text component.
pub proof fn lemma_player_is_told_the_reason(reason: &str, payload: Vec<u8>)
    requires
        call_ensures(login_disconnect, (reason,), payload),
    ensures
        payload@ == packet::encoded_string(
            json::compact_text(
                JsonView::Object(Map::empty().insert("text"@, JsonView::Text(reason@))),
            ),
        ),
        payload@ == farewell(reason@),
{
}

/// A login goes on exactly when clients of the protocol can be transferred and the protocol is
/// on the list of the configuration, if that lists any. What is known of the handshake and of
/// the protocol is kept.
pub proof fn lemma_login_needs_an_accepted_protocol(
    config: AppConfig,
    language: Language,
    handshake: Handshake,
    opening: Opening,
    spec: Option<ProtocolSpec>,
)
    requires
        call_ensures(begin_login, (&config, &language, handshake), opening),
        call_ensures(protocol_spec, (handshake.protocol_version,), spec),
    ensures
        opening is Await <==> spec is Some && (config.server.supported_protocols@.len() == 0
            || exists|i: int|
            0 <= i < config.server.supported_protocols@.len() && (
            #[trigger] config.server.supported_protocols@[i]) == handshake.protocol_version),
        opening matches Opening::Await(login) ==> Some(login.spec) == spec && login.handshake
            == handshake,
        opening matches Opening::Refuse(payload) ==> payload@ == farewell(
            language.rendered(
                "disconnect.unsupported_protocol"@,
                seq![
                    (
                        "supported"@,
                        if config.server.supported_protocols@.len() == 0 {
                            SUPPORTED_VERSION_RANGE@
                        } else {
                            numbers_text(config.server.supported_protocols@)
                        },
                    ),
                    ("protocol"@, text::signed_decimal(handshake.protocol_version as int)),
                ],
            ),
        ),
{
    let list = config.server.supported_protocols@;
    if list.contains(handshake.protocol_version) {
        let i = list.index_of(handshake.protocol_version);
        assert(list[i] == handshake.protocol_version);
    }
}

/// What becomes of a player who sent a name. A name that is not accepted, and an address that
/// is turned away, are told so, in this order. Otherwise the player gets the route that the
/// configuration gives for the very same connection: the address, the name, the host of the
/// handshake and the lists; without a route the player is told that there is none.
pub proof fn lemma_player_gets_the_route_of_the_connection(
    login: Login,
    config: AppConfig,
    security: Security,
    language: Language,
    location: IpLocation,
    key: &str,
    packet: Packet,
    start: LoginStart,
    host: &str,
    name: &str,
    verdict: Option<BlockReason>,
    route: Option<(String, LineTarget)>,
    judged: Result<(), UsernameError>,
    admission: Admission,
)
    requires
        config.groups_have_hosts(),
        host@ == login.handshake.host@,
        name@ == start.username@,
        call_ensures(parse_login_start, (&packet,), Ok::<LoginStart, ProtocolError>(start)),
        call_ensures(validate_username, (&start,), judged),
        call_ensures(Security::check, (&security, &location), verdict),
        call_ensures(
            AppConfig::select_route_with_host_context,
            (&config, &location, Some(name), Some(host), &security, key),
            route,
        ),
        call_ensures(
            Login::on_login_start,
            (&login, &config, &security, &language, &location, key, Some(packet)),
            admission,
        ),
    ensures
        judged == Err::<(), UsernameError>(UsernameError::Length)
            ==> (admission matches Admission::Refuse(
            payload,
            None,
        ) && payload@ == farewell(
            language.rendered("disconnect.invalid_username_length"@, Seq::empty()),
        )),
        judged == Err::<(), UsernameError>(UsernameError::Characters)
            ==> (admission matches Admission::Refuse(payload, None) && payload@ == farewell(
            language.rendered("disconnect.invalid_username_characters"@, Seq::empty()),
        )),
        judged is Ok && verdict is Some ==> (admission matches Admission::Refuse(payload, reason)
            && reason == verdict && payload@ == farewell(
            language.rendered(
                match verdict->0 {
                    BlockReason::Vpn => "disconnect.vpn_blocked"@,
                    BlockReason::Tor => "disconnect.tor_blocked"@,
                    BlockReason::Spam => "disconnect.spam_blocked"@,
                },
                Seq::empty(),
            ),
        )),
        judged is Ok && verdict is None && route is None ==> (admission matches Admission::Refuse(
            payload,
            None,
        ) && payload@ == farewell(language.rendered("disconnect.no_route"@, Seq::empty()))),
        judged is Ok && verdict is None && route is Some ==> (admission matches Admission::Route(
            routed,
        ) && {
            &&& routed.line@ == (route->0).0@
            &&& routed.username@ == start.username@
            &&& routed.spec == login.spec
            &&& routed.strict_error_handling == config.server.strict_error_handling
            &&& routed.target == (route->0).1 || exists|group: routing::RoutingGroup|
                #[trigger] group.may_hand_out(key@, routed.target) && group.may_hand_out(
                    key@,
                    (route->0).1,
                )
        }),
{
    let visit = player_visit(login, security, location, start.username@);
    assert(visit == routing::visit_of(location, Some(name), Some(host), Some(&security)));
}

/// A player without a name packet, or with another packet in its place, is not admitted.
pub proof fn lemma_no_name_no_admission(
    login: Login,
    config: AppConfig,
    security: Security,
    language: Language,
    location: IpLocation,
    key: &str,
    packet: Option<Packet>,
    admission: Admission,
)
    requires
        config.groups_have_hosts(),
        packet is None || packet->0.id != LOGIN_START_PACKET_ID,
        call_ensures(
            Login::on_login_start,
            (&login, &config, &security, &language, &location, key, packet),
            admission,
        ),
    ensures
        admission is Fail,
{
}

/// A player whose target is known is welcomed under the own name and the identifier that
/// belongs to it, and will be sent to that very target. A target that cannot be found is told
/// as a missing route.
pub proof fn lemma_player_is_welcomed_for_the_target(
    route: Routed,
    language: Language,
    resolved: Result<LineTarget, Problem>,
    session_id: Uuid,
    welcome: Welcome,
    name: &str,
    uuid: Uuid,
)
    requires
        name@ == route.username@,
        call_ensures(offline_uuid, (name,), uuid),
        call_ensures(Routed::on_resolved_with, (route, &language, resolved, session_id), welcome),
    ensures
        resolved is Err ==> (welcome matches Welcome::Refuse(payload) && payload@ == farewell(
            language.rendered("disconnect.no_route"@, Seq::empty()),
        )),
        resolved is Ok ==> (welcome matches Welcome::Greet(payload, welcomed) && {
            &&& welcomed.target == resolved->Ok_0
            &&& welcomed.username@ == route.username@
            &&& welcomed.line@ == route.line@
            &&& welcomed.spec == route.spec
            &&& payload@ == uuid@ + packet::encoded_string(route.username@)
                + crate::varint::encoded_varint(0)
                + if route.spec.login_success_has_strict_error_handling {
                seq![if route.strict_error_handling { 1u8 } else { 0u8 }]
            } else {
                Seq::empty()
            } + if route.spec.login_success_has_session_id {
                session_id@
            } else {
                Seq::empty()
            }
        }),
{
}

/// A player who acknowledged the welcome is transferred to the target, with the packet of the
/// protocol, and the client reads the host and the port of the target from it. Any other
/// packet, or none, breaks the connection off.
pub proof fn lemma_player_is_transferred_to_the_target(
    welcomed: Welcomed,
    packet: Option<Packet>,
    parting: Parting,
)
    requires
        call_ensures(Welcomed::on_acknowledged, (&welcomed, packet), parting),
        vstd::utf8::encode_utf8(welcomed.target.host@).len() <= i32::MAX,
    ensures
        packet is None || packet->0.id != 3 ==> parting is Fail,
        packet is Some && packet->0.id == 3 ==> (parting matches Parting::Transfer(id, payload) && {
            let end = packet::encoded_string(welcomed.target.host@).len();
            &&& id == welcomed.spec.config_transfer_packet_id
            &&& packet::string_field(payload@, i32::MAX as usize) == packet::Field::Read(
                welcomed.target.host@,
                end,
            )
            &&& packet::varint_field(payload@.skip(end as int)) matches packet::Field::Read(
                port,
                used,
            ) && port == welcomed.target.port && end + used == payload@.len()
        }),
{
    protocol::lemma_transfer_read_back(welcomed.target.host@, welcomed.target.port);
}

/// A target is written as its host, a colon and its port; a host with colons in it is put in
/// brackets, unless it begins with one.
pub proof fn lemma_written_targets(target: LineTarget, text: String)
    requires
        call_ensures(format_target, (&target,), text),
    ensures
        !target.host@.contains(':') ==> text@ == target.host@ + ":"@ + text::decimal(
            target.port as nat,
        ),
        target.host@.contains(':') && target.host@[0] != '[' ==> text@ == "["@ + target.host@
            + "]:"@ + text::decimal(target.port as nat),
        target.host@.contains(':') && target.host@[0] == '[' ==> text@ == target.host@ + ":"@
            + text::decimal(target.port as nat),
{
}

/// The protocols of a list are told one after the other, with a comma and a space between
/// them. Without a list the range of versions is told.
pub proof fn lemma_protocols_are_told_in_a_row(
    protocols: Vec<i32>,
    shorter: Seq<i32>,
    text: String,
)
    requires
        call_ensures(supported_protocols_description, (&protocols,), text),
        protocols@.len() > 0 ==> shorter == protocols@.drop_last(),
    ensures
        protocols@.len() == 0 ==> text@ == SUPPORTED_VERSION_RANGE@,
        protocols@.len() == 1 ==> text@ == text::signed_decimal(protocols@[0] as int),
        protocols@.len() > 1 ==> text@ == numbers_text(shorter) + ", "@ + text::signed_decimal(
            protocols@.last() as int,
        ),
{
}

} // verus!

use mc_transfer_gateway::config::{
    AppConfig, Ip2RegionConfig, LanguageConfig, LineTarget, LoggingConfig, RouteRule,
    RoutingConfig, RoutingGroup, SecurityConfig, ServerConfig, VhostsConfig,
};
use mc_transfer_gateway::config::{
    default_bind, default_log_file, default_login_timeout_ms, default_max_connections,
    default_max_frame_length, default_max_players, default_motd, default_status_protocol,
    default_status_version_name, default_supported_protocols,
};
use mc_transfer_gateway::names::NameMap;
use mc_transfer_gateway::problem::Problem;
use mc_transfer_gateway::url::{check_scheme, validate_http_url};
use mc_transfer_gateway::vhosts::vhost_layout;

fn words(outcome: Result<(), Problem>) -> String {
    match outcome {
        Ok(()) => "fine".to_owned(),
        Err(problem) => problem.message,
    }
}

fn server() -> ServerConfig {
    ServerConfig {
        bind: default_bind(),
        max_connections: default_max_connections(),
        login_timeout_ms: default_login_timeout_ms(),
        max_frame_length: default_max_frame_length(),
        supported_protocols: default_supported_protocols(),
        status_version_name: default_status_version_name(),
        status_protocol: default_status_protocol(),
        max_players: default_max_players(),
        motd: default_motd(),
        strict_error_handling: false,
    }
}

fn target(host: &str, port: u16) -> LineTarget {
    LineTarget {
        host: host.to_owned(),
        port,
        resolve_srv: false,
    }
}

fn routing() -> RoutingConfig {
    RoutingConfig::from_single_target(target("play.example.com", 25565))
}

fn group(name: &str, mode: &str, hosts: &[&str]) -> RoutingGroup {
    RoutingGroup::new(
        0,
        name.to_owned(),
        mode.to_owned(),
        25565,
        false,
        hosts.iter().map(|host| (*host).to_owned()).collect(),
    )
}

fn app() -> AppConfig {
    AppConfig {
        server: server(),
        ip2region: Ip2RegionConfig::default(),
        security: SecurityConfig::default(),
        routing: Some(routing()),
        vhosts: None,
        language: LanguageConfig::default(),
        logging: LoggingConfig {
            file: default_log_file(),
        },
    }
}

#[test]
fn server_settings_are_checked_in_order() {
    assert_eq!(words(server().validate()), "fine");
    let bad = ServerConfig {
        bind: "  ".to_owned(),
        max_connections: 0,
        ..server()
    };
    assert_eq!(words(bad.validate()), "server.bind must not be empty");
    let bad = ServerConfig {
        max_connections: 0,
        login_timeout_ms: 0,
        ..server()
    };
    assert_eq!(
        words(bad.validate()),
        "server.max_connections must be greater than zero"
    );
    let bad = ServerConfig {
        login_timeout_ms: 0,
        ..server()
    };
    assert_eq!(
        words(bad.validate()),
        "server.login_timeout_ms must be greater than zero"
    );
    for length in [1023, 16777217] {
        let bad = ServerConfig {
            max_frame_length: length,
            ..server()
        };
        assert_eq!(
            words(bad.validate()),
            "server.max_frame_length must be between 1024 and 16777216"
        );
    }
    let bad = ServerConfig {
        supported_protocols: vec![776, 765, 1],
        ..server()
    };
    assert_eq!(
        words(bad.validate()),
        "server.supported_protocols contains unsupported protocol 765; supported range is Java 1.20.5 through 26.3 Snapshot 10"
    );
    let bad = ServerConfig {
        status_protocol: -1,
        ..server()
    };
    assert_eq!(
        words(bad.validate()),
        "server.status_protocol must not be negative"
    );
}

#[test]
fn addresses_of_downloads_use_http() {
    assert!(validate_http_url("field", "https://example.com/list?x").is_ok());
    assert!(validate_http_url("field", "HTTP://example.com").is_ok());
    assert_eq!(
        words(validate_http_url("field", "ftp://example.com")),
        "field must use http or https, got ftp"
    );
    let problem = validate_http_url("field", "no url").unwrap_err();
    assert_eq!(problem.message, "field is not a valid URL: no url");
    assert!(problem.cause.is_some());
    assert!(check_scheme("f", "v", Ok("http".to_owned())).is_ok());
    assert_eq!(
        words(check_scheme("f", "v", Ok("Https".to_owned()))),
        "f must use http or https, got Https"
    );
    let problem = check_scheme("f", "v", Err("why".to_owned())).unwrap_err();
    assert_eq!(problem.message, "f is not a valid URL: v");
    assert_eq!(problem.cause.as_deref(), Some("why"));
}

#[test]
fn database_settings_matter_only_when_they_are_used() {
    let off = Ip2RegionConfig {
        auto_download: false,
        auto_update: false,
        download_base_url: "nonsense".to_owned(),
        update_interval_secs: 0,
        ..Ip2RegionConfig::default()
    };
    assert_eq!(words(off.validate()), "fine");
    let bad = Ip2RegionConfig {
        auto_download: true,
        ..off
    };
    assert_eq!(
        words(bad.validate()),
        "ip2region.download_base_url is not a valid URL: nonsense"
    );
    let bad = Ip2RegionConfig {
        auto_update: true,
        update_interval_secs: 0,
        ..Ip2RegionConfig::default()
    };
    assert_eq!(
        words(bad.validate()),
        "ip2region.update_interval_secs must be greater than zero"
    );
}

#[test]
fn list_addresses_are_checked_where_lists_are_maintained() {
    assert_eq!(words(SecurityConfig::default().validate()), "fine");
    let all_bad = SecurityConfig {
        tor_exit_list_url: "ftp://t".to_owned(),
        spam_list_url: "ftp://s".to_owned(),
        vpn_ipv4_list_url: "ftp://4".to_owned(),
        vpn_ipv6_list_url: "ftp://6".to_owned(),
        ..SecurityConfig::default()
    };
    assert_eq!(
        words(all_bad.validate()),
        "security.tor_exit_list_url must use http or https, got ftp"
    );
    let no_tor = SecurityConfig {
        block_tor: false,
        ..all_bad.clone()
    };
    assert_eq!(
        words(no_tor.validate()),
        "security.spam_list_url must use http or https, got ftp"
    );
    let no_spam = SecurityConfig {
        spam_list: Some(String::new()),
        ..no_tor
    };
    assert_eq!(
        words(no_spam.validate()),
        "security.vpn_ipv4_list_url must use http or https, got ftp"
    );
    let only_six = SecurityConfig {
        vpn_ipv4_list: None,
        ..no_spam
    };
    assert_eq!(
        words(only_six.validate()),
        "security.vpn_ipv6_list_url must use http or https, got ftp"
    );
    let disabled = SecurityConfig {
        enabled: false,
        ..all_bad
    };
    assert_eq!(words(disabled.validate()), "fine");
    let bad = SecurityConfig {
        auto_update: true,
        update_interval_secs: 0,
        ..SecurityConfig::default()
    };
    assert_eq!(
        words(bad.validate()),
        "security.update_interval_secs must be greater than zero"
    );
}

#[test]
fn locales_name_files() {
    for locale in ["zh-CN", "en_US.v1", "x"] {
        let config = LanguageConfig {
            locale: locale.to_owned(),
            directory: "lang".to_owned(),
        };
        assert_eq!(words(config.validate()), "fine");
    }
    for locale in ["", "zh/CN", "a b", "中文"] {
        let config = LanguageConfig {
            locale: locale.to_owned(),
            directory: "lang".to_owned(),
        };
        assert_eq!(
            words(config.validate()),
            "language.locale must contain only ASCII letters, digits, '.', '-' or '_'"
        );
    }
    let config = LanguageConfig {
        locale: "en-US".to_owned(),
        directory: String::new(),
    };
    assert_eq!(
        words(config.validate()),
        "language.directory must not be empty"
    );
}

#[test]
fn routing_needs_targets() {
    let empty = RoutingConfig {
        lines: NameMap::new(),
        ..routing()
    };
    assert_eq!(
        words(empty.validate()),
        "routing.lines or routing.group must contain at least one target"
    );
    let unknown = RoutingConfig {
        default_line: "x".to_owned(),
        ..routing()
    };
    assert_eq!(
        words(unknown.validate()),
        "routing.default_line 'x' is not present in routing.lines or routing.group"
    );
    let nowhere = RoutingConfig {
        default_line: String::new(),
        ..routing()
    };
    assert_eq!(
        words(nowhere.validate()),
        "routing.default_line must not be empty when routing.rules is empty"
    );
}

#[test]
fn lines_are_checked_in_alphabetical_order() {
    let mut config = routing();
    config.lines.insert("b".to_owned(), target("", 1));
    config.lines.insert("a".to_owned(), target("h", 0));
    assert_eq!(
        words(config.validate()),
        "routing.lines.a.port must be greater than zero"
    );
    config.lines.insert("a".to_owned(), target("h", 1));
    assert_eq!(
        words(config.validate()),
        "routing.lines.b.host must not be empty"
    );
    config
        .lines
        .insert("b".to_owned(), target(&"é".repeat(128), 1));
    assert_eq!(
        words(config.validate()),
        "routing.lines.b.host must be at most 255 bytes"
    );
    config
        .lines
        .insert("b".to_owned(), target(&"e".repeat(255), 1));
    assert_eq!(words(config.validate()), "fine");
}

#[test]
fn groups_are_checked() {
    let with = |group: Vec<RoutingGroup>| RoutingConfig { group, ..routing() };
    let cases = [
        (
            group(" ", "random", &["h"]),
            "routing.group[0].group_name must not be empty",
        ),
        (
            group("g", "random", &[]),
            "routing.group[0].hosts must contain at least one host",
        ),
        (
            group("g", "best", &["h"]),
            "routing.group[0].mode 'best' is unsupported; use round_robin, random or ip_hash",
        ),
        (
            group("g", "random", &["h", ""]),
            "routing.group[0].hosts[1] must not be empty",
        ),
        (
            group("default", "random", &["h"]),
            "routing.group[0].group_name 'default' is duplicated",
        ),
    ];
    for (group, expected) in cases {
        assert_eq!(words(with(vec![group]).validate()), expected);
    }
    let mut no_port = group("g", "random", &["h"]);
    no_port.port = 0;
    assert_eq!(
        words(with(vec![no_port]).validate()),
        "routing.group[0].port must be greater than zero"
    );
    let long = "h".repeat(256);
    assert_eq!(
        words(with(vec![group("g", "random", &[long.as_str()])]).validate()),
        "routing.group[0].hosts[0] must be at most 255 bytes"
    );
    let twice = with(vec![group("g", "random", &["h"]), group("g", "hash", &["h"])]);
    assert_eq!(
        words(twice.validate()),
        "routing.group[1].group_name 'g' is duplicated"
    );
    let fine = with(vec![
        group("g", "Load Balance", &["h"]),
        group("k", "IP-Hash", &["h"]),
        group("l", "consistent_hash", &["h"]),
    ]);
    assert_eq!(words(fine.validate()), "fine");
}

#[test]
fn rules_name_one_target() {
    let with = |rule: RouteRule| RoutingConfig {
        rules: vec![RouteRule::default_line(), rule],
        group: vec![group("g", "random", &["h"])],
        ..routing()
    };
    let rule = |line: &str, group: Option<&str>| RouteRule {
        line: line.to_owned(),
        group: group.map(str::to_owned),
        ..RouteRule::default()
    };
    assert_eq!(words(with(rule("default", None)).validate()), "fine");
    assert_eq!(words(with(rule("g", None)).validate()), "fine");
    assert_eq!(words(with(rule("", Some("g"))).validate()), "fine");
    for bad in [rule("", None), rule("default", Some("g")), rule(" ", Some(" "))] {
        assert_eq!(
            words(with(bad).validate()),
            "routing.rules[1] must define exactly one of line or group"
        );
    }
    assert_eq!(
        words(with(rule("x", None)).validate()),
        "routing.rules[1].line 'x' is not present in routing.lines or routing.group"
    );
    assert_eq!(
        words(with(rule("", Some("default"))).validate()),
        "routing.rules[1].group 'default' is not present in routing.group"
    );
}

trait DefaultLine {
    fn default_line() -> RouteRule;
}

impl DefaultLine for RouteRule {
    fn default_line() -> RouteRule {
        RouteRule {
            line: "default".to_owned(),
            ..RouteRule::default()
        }
    }
}

fn vhosts(names: &[&str], default: &str) -> VhostsConfig {
    let mut files = NameMap::new();
    for name in names {
        files.insert((*name).to_owned(), format!("./vhosts/{name}.toml"));
    }
    VhostsConfig {
        default: default.to_owned(),
        files,
        routes: NameMap::new(),
    }
}

fn loaded(names: &[&str], default: &str) -> VhostsConfig {
    let mut config = vhosts(names, default);
    let found = (0..config.files.len()).map(|_| Ok(routing())).collect();
    config.load("config.toml", found).unwrap();
    config
}

#[test]
fn hosts_are_checked() {
    assert_eq!(words(loaded(&["alpha", "beta"], "ALPHA.").validate()), "fine");
    assert_eq!(
        words(loaded(&[], "alpha").validate()),
        "vhosts must contain at least one host mapping"
    );
    assert_eq!(
        words(loaded(&["alpha"], " ").validate()),
        "vhosts.default must not be empty"
    );
    assert_eq!(
        words(loaded(&["alpha"], "beta").validate()),
        "vhosts.default 'beta' is not present in vhosts"
    );
    assert_eq!(
        words(loaded(&["...", "alpha"], "alpha").validate()),
        "vhosts contains an empty host name"
    );
    assert_eq!(
        words(loaded(&["ALPHA", "alpha."], "alpha").validate()),
        "vhosts host name 'alpha.' is duplicated"
    );
    let long = "h".repeat(256);
    assert_eq!(
        words(loaded(&["alpha", long.as_str()], "alpha").validate()),
        format!("vhosts host name '{long}' must be at most 255 bytes")
    );
    assert_eq!(
        words(vhosts(&["alpha"], "alpha").validate()),
        "vhosts.alpha has not been loaded from its configuration file"
    );
    let mut broken = vhosts(&["alpha"], "alpha");
    let empty = RoutingConfig {
        lines: NameMap::new(),
        ..routing()
    };
    broken.load("config.toml", vec![Ok(empty)]).unwrap();
    let problem = broken.validate().unwrap_err();
    assert_eq!(
        problem.message,
        "invalid routing configuration for vhost 'alpha'"
    );
    assert_eq!(
        problem.cause.as_deref(),
        Some("routing.lines or routing.group must contain at least one target")
    );
}

#[test]
fn host_files_are_taken_up_in_order() {
    let mut config = vhosts(&["alpha", "beta"], "alpha");
    assert_eq!(
        config.file_at("/gw/config.toml", 1).unwrap(),
        "/gw/./vhosts/beta.toml"
    );
    let problem = Problem {
        message: "unreadable".to_owned(),
        cause: Some("because".to_owned()),
    };
    let outcome = config.load("/gw/config.toml", vec![Ok(routing()), Err(problem)]);
    let problem = outcome.unwrap_err();
    assert_eq!(
        problem.message,
        "unable to load vhost 'beta' from /gw/./vhosts/beta.toml"
    );
    assert_eq!(problem.cause.as_deref(), Some("unreadable: because"));

    config.files.insert("alpha".to_owned(), String::new());
    assert_eq!(
        words(config.load("c", vec![Ok(routing()), Ok(routing())])),
        "vhosts.alpha must contain a configuration file path"
    );
}

#[test]
fn host_files_come_in_two_layouts() {
    let layout = |source: &str| vhost_layout("alpha.toml", source).unwrap();
    assert!(layout("host = \"h\"\nport = 1\n").single);
    assert!(!layout("host = \"h\"\ndefault_line = \"x\"\n").single);
    assert!(!layout("[lines.a]\nhost = \"h\"\n").single);
    let nested = layout("[routing]\nhost = \"h\"\n");
    assert!(nested.nested && nested.single);
    let nested = layout("[routing]\nhost = \"h\"\n[[routing.groups]]\nx = 1\n");
    assert!(nested.nested && !nested.single);
    let problem = vhost_layout("alpha.toml", "= nonsense").unwrap_err();
    assert_eq!(
        problem.message,
        "invalid TOML in vhost configuration file alpha.toml"
    );
    assert!(problem.cause.is_some());
}

#[test]
fn lines_stand_in_one_place() {
    assert_eq!(words(app().validate()), "fine");
    let both = AppConfig {
        vhosts: Some(loaded(&["alpha"], "alpha")),
        ..app()
    };
    assert_eq!(
        words(both.validate()),
        "configure either routing or vhosts, not both"
    );
    let none = AppConfig {
        routing: None,
        ..app()
    };
    assert_eq!(
        words(none.validate()),
        "routing or vhosts must be configured"
    );
    let outcome = AppConfig::load(none, "config.toml", Vec::new());
    assert_eq!(
        outcome.unwrap_err().message,
        "routing or vhosts must be configured"
    );
    assert!(AppConfig::load(app(), "config.toml", Vec::new()).is_ok());
}

#[test]
fn defaults_are_as_documented() {
    assert_eq!(default_bind(), "0.0.0.0:25565");
    assert_eq!(default_max_connections(), 4096);
    assert_eq!(default_login_timeout_ms(), 10000);
    assert_eq!(default_max_frame_length(), 2097152);
    assert_eq!(default_status_protocol(), 1073742156);
    assert_eq!(default_log_file().as_deref(), Some("./logs/gateway.log"));
    let security = SecurityConfig::default();
    assert!(security.enabled && security.auto_download && !security.auto_update);
    assert_eq!(security.update_interval_secs, 86400);
}

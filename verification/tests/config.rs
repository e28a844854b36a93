use mc_transfer_gateway::address::IpAddr;
use mc_transfer_gateway::config::{
    default_group_port, default_line_port, default_resolve_srv, AppConfig,
    Ip2RegionConfig, LanguageConfig, LineTarget, LoggingConfig, RouteRule, RoutingConfig,
    RoutingGroup, SecurityConfig, ServerConfig, VhostsConfig, DEFAULT_CONFIG_TEMPLATE,
    DEFAULT_VHOST_TEMPLATES,
};
use mc_transfer_gateway::ip2region::IpLocation;
use mc_transfer_gateway::names::NameMap;
use mc_transfer_gateway::security::{ListTexts, Security};
use mc_transfer_gateway::vhosts::vhost_layout;
use toml::{Table, Value};

fn table(source: &str) -> Table {
    source.parse::<Table>().expect("the document should parse")
}

fn text(table: &Table, key: &str) -> String {
    table[key].as_str().expect("a text").to_owned()
}

fn number(table: &Table, key: &str) -> i64 {
    table[key].as_integer().expect("a number")
}

fn flag(table: &Table, key: &str) -> bool {
    table[key].as_bool().expect("a truth value")
}

fn texts(table: &Table, key: &str) -> Vec<String> {
    match table.get(key) {
        Some(Value::Array(items)) => items
            .iter()
            .map(|item| item.as_str().expect("a text").to_owned())
            .collect(),
        _ => Vec::new(),
    }
}

fn line_target(table: &Table) -> LineTarget {
    LineTarget {
        host: text(table, "host"),
        port: table
            .get("port")
            .map_or(default_line_port(), |port| port.as_integer().unwrap() as u16),
        resolve_srv: table
            .get("resolve_srv")
            .map_or(default_resolve_srv(), |value| value.as_bool().unwrap()),
    }
}

fn example_config() -> AppConfig {
    let document = table(DEFAULT_CONFIG_TEMPLATE);
    let server = document["server"].as_table().unwrap();
    let ip2region = document["ip2region"].as_table().unwrap();
    let security = document["security"].as_table().unwrap();
    let language = document["language"].as_table().unwrap();
    let logging = document["logging"].as_table().unwrap();
    let mut files: NameMap<String> = NameMap::new();
    let mut default = String::new();
    for (name, value) in document["vhosts"].as_table().unwrap() {
        let value = value.as_str().unwrap().to_owned();
        if name == "default" {
            default = value;
        } else {
            files.insert(name.clone(), value);
        }
    }
    let mut found = Vec::new();
    for index in 0..files.len() {
        let name = files.name_at(index);
        let (_, source) = DEFAULT_VHOST_TEMPLATES
            .iter()
            .find(|(template, _)| *template == name)
            .expect("every host of the template has a file");
        let layout = vhost_layout(name, source).expect("the file should parse");
        assert!(layout.single);
        assert!(!layout.nested);
        found.push(Ok(RoutingConfig::from_single_target(line_target(&table(
            source,
        )))));
    }
    let config = AppConfig {
        server: ServerConfig {
            bind: text(server, "bind"),
            max_connections: number(server, "max_connections") as usize,
            login_timeout_ms: number(server, "login_timeout_ms") as u64,
            max_frame_length: number(server, "max_frame_length") as usize,
            supported_protocols: Vec::new(),
            status_version_name: mc_transfer_gateway::config::default_status_version_name(),
            status_protocol: mc_transfer_gateway::config::default_status_protocol(),
            max_players: number(server, "max_players") as u32,
            motd: text(server, "motd"),
            strict_error_handling: flag(server, "strict_error_handling"),
        },
        ip2region: Ip2RegionConfig {
            v4_db: Some(text(ip2region, "v4_db")),
            v6_db: Some(text(ip2region, "v6_db")),
            auto_download: flag(ip2region, "auto_download"),
            auto_update: flag(ip2region, "auto_update"),
            update_interval_secs: number(ip2region, "update_interval_secs") as u64,
            download_base_url: text(ip2region, "download_base_url"),
        },
        security: SecurityConfig {
            enabled: flag(security, "enabled"),
            block_vpn: flag(security, "block_vpn"),
            block_tor: flag(security, "block_tor"),
            block_spam: flag(security, "block_spam"),
            auto_download: flag(security, "auto_download"),
            auto_update: flag(security, "auto_update"),
            update_interval_secs: number(security, "update_interval_secs") as u64,
            tor_exit_list: Some(text(security, "tor_exit_list")),
            tor_exit_list_url: text(security, "tor_exit_list_url"),
            spam_list: Some(text(security, "spam_list")),
            spam_list_url: text(security, "spam_list_url"),
            vpn_ipv4_list: Some(text(security, "vpn_ipv4_list")),
            vpn_ipv4_list_url: text(security, "vpn_ipv4_list_url"),
            vpn_ipv6_list: Some(text(security, "vpn_ipv6_list")),
            vpn_ipv6_list_url: text(security, "vpn_ipv6_list_url"),
            allowlist: texts(security, "allowlist"),
            vpn_isp_contains: texts(security, "vpn_isp_contains"),
        },
        routing: None,
        vhosts: Some(VhostsConfig {
            default,
            files,
            routes: NameMap::new(),
        }),
        language: LanguageConfig {
            locale: text(language, "locale"),
            directory: text(language, "directory"),
        },
        logging: LoggingConfig {
            file: Some(text(logging, "file")),
        },
    };
    AppConfig::load(config, "config.example.toml", found)
        .expect("default template should load and validate")
}

fn line(host: &str) -> LineTarget {
    LineTarget {
        host: host.to_owned(),
        port: 25565,
        resolve_srv: default_resolve_srv(),
    }
}

fn routing(
    lines: &[(&str, &str)],
    rules: Vec<RouteRule>,
    group: Vec<RoutingGroup>,
) -> RoutingConfig {
    let mut map: NameMap<LineTarget> = NameMap::new();
    for (name, host) in lines {
        map.insert((*name).to_owned(), line(host));
    }
    let routing = RoutingConfig {
        default_line: "global".to_owned(),
        lines: map,
        rules,
        group,
    };
    routing
        .validate()
        .expect("test routing configuration should validate");
    routing
}

fn list(values: &[&str]) -> Vec<String> {
    values.iter().map(|value| (*value).to_owned()).collect()
}

fn location(country: &str, isp: &str) -> IpLocation {
    IpLocation {
        ip: IpAddr::V4(0xcb00_7108),
        country_code: Some(country.to_owned()),
        country_name: None,
        province: None,
        city: None,
        isp: Some(isp.to_owned()),
    }
}

fn no_files() -> ListTexts {
    ListTexts {
        vpn_ipv4: None,
        vpn_ipv6: None,
        tor: None,
        spam: None,
    }
}

fn security() -> Security {
    let config = SecurityConfig {
        enabled: false,
        vpn_isp_contains: vec!["cloud".to_owned()],
        ..SecurityConfig::default()
    };
    match Security::open(&config, &no_files()) {
        Ok(security) => security,
        Err(problem) => panic!("test security configuration should load: {problem:?}"),
    }
}

#[test]
fn default_config_template_is_valid() {
    let config = example_config();
    assert!(config.validate().is_ok());
}

#[test]
fn vhosts_select_routing_file_by_requested_host() {
    let config = example_config();
    let security = security();

    let beta = config
        .select_route_with_host_context(
            &location("JP", "Example ISP"),
            None,
            Some("BETA."),
            &security,
            "203.0.113.8",
        )
        .expect("beta vhost should be selected");
    assert_eq!(beta.0, "beta/default");
    assert_eq!(beta.1.host, "beta-backend.example.com");

    let fallback = config
        .select_route_with_host_context(
            &location("JP", "Example ISP"),
            None,
            Some("unknown.example.com"),
            &security,
            "203.0.113.8",
        )
        .expect("default vhost should be selected");
    assert_eq!(fallback.0, "alpha/default");
}

#[test]
fn route_matches_player_and_isp_as_and_conditions() {
    let routing = routing(
        &[
            ("global", "global.example.com"),
            ("mobile", "mobile.example.com"),
        ],
        vec![RouteRule {
            priority: 10,
            line: "mobile".to_owned(),
            countries: list(&["JP"]),
            isp_contains: list(&["mobile"]),
            players: list(&["herobrine", "dinnerbone"]),
            ..RouteRule::default()
        }],
        Vec::new(),
    );
    let security = security();

    let route = routing
        .select_route_with_context(
            &location("JP", "Example Mobile"),
            Some("Herobrine"),
            &security,
            "203.0.113.8",
        )
        .expect("matching route should exist");
    assert_eq!(route.0, "mobile");

    let fallback = routing
        .select_route_with_context(
            &location("JP", "Example Mobile"),
            Some("Alex"),
            &security,
            "203.0.113.8",
        )
        .expect("default route should exist");
    assert_eq!(fallback.0, "global");
}

#[test]
fn route_supports_negative_and_security_conditions() {
    let routing = routing(
        &[
            ("global", "global.example.com"),
            ("special", "special.example.com"),
        ],
        vec![RouteRule {
            priority: 20,
            line: "special".to_owned(),
            not_countries: list(&["CN"]),
            not_players: list(&["blocked"]),
            vpn: Some(true),
            ..RouteRule::default()
        }],
        Vec::new(),
    );
    let security = security();

    let route = routing
        .select_route_with_context(
            &location("JP", "Cloud Transit"),
            Some("allowed"),
            &security,
            "203.0.113.8",
        )
        .expect("matching route should exist");
    assert_eq!(route.0, "special");

    let fallback = routing
        .select_route_with_context(
            &location("CN", "Cloud Transit"),
            Some("allowed"),
            &security,
            "203.0.113.8",
        )
        .expect("default route should exist");
    assert_eq!(fallback.0, "global");
}

#[test]
fn group_selects_hosts_in_round_robin_order() {
    let routing = routing(
        &[("global", "global.example.com")],
        vec![RouteRule {
            group: Some("cmcc-cluster".to_owned()),
            countries: list(&["CN"]),
            ..RouteRule::default()
        }],
        vec![RoutingGroup::new(
            10,
            "cmcc-cluster".to_owned(),
            "round_robin".to_owned(),
            default_group_port(),
            true,
            list(&["cmcc-01.example.com", "cmcc-02.example.com"]),
        )],
    );
    let security = security();

    let first = routing
        .select_route_with_context(
            &location("CN", "China Mobile"),
            None,
            &security,
            "203.0.113.8",
        )
        .expect("group route should exist");
    let second = routing
        .select_route_with_context(
            &location("CN", "China Mobile"),
            None,
            &security,
            "203.0.113.8",
        )
        .expect("group route should exist");
    assert_eq!(first.0, "cmcc-cluster");
    assert_eq!(first.1.host, "cmcc-01.example.com");
    assert!(first.1.resolve_srv);
    assert_eq!(second.1.host, "cmcc-02.example.com");
}

#[test]
fn route_selects_target_by_requested_host() {
    let routing = routing(
        &[
            ("global", "global.example.com"),
            ("alpha", "alpha-backend.example.com"),
            ("beta", "beta-backend.example.com"),
        ],
        vec![
            RouteRule {
                priority: 100,
                line: "alpha".to_owned(),
                hosts: list(&["alpha.example.com"]),
                ..RouteRule::default()
            },
            RouteRule {
                priority: 100,
                line: "beta".to_owned(),
                hosts: list(&["beta.example.com", "beta.example.net"]),
                ..RouteRule::default()
            },
        ],
        Vec::new(),
    );
    let security = security();

    let alpha = routing
        .select_route_with_host_context(
            &location("JP", "Example ISP"),
            None,
            Some("ALPHA.EXAMPLE.COM."),
            &security,
            "203.0.113.8",
        )
        .expect("host route should exist");
    assert_eq!(alpha.0, "alpha");

    let beta = routing
        .select_route_with_host_context(
            &location("JP", "Example ISP"),
            None,
            Some("beta.example.net"),
            &security,
            "203.0.113.8",
        )
        .expect("host route should exist");
    assert_eq!(beta.0, "beta");

    let fallback = routing
        .select_route_with_host_context(
            &location("JP", "Example ISP"),
            None,
            Some("unknown.example.com"),
            &security,
            "203.0.113.8",
        )
        .expect("default route should exist");
    assert_eq!(fallback.0, "global");
}

#[test]
fn route_supports_requested_host_negation() {
    let routing = routing(
        &[
            ("global", "global.example.com"),
            ("special", "special-backend.example.com"),
        ],
        vec![RouteRule {
            priority: 100,
            line: "special".to_owned(),
            not_hosts: list(&["blocked.example.com"]),
            ..RouteRule::default()
        }],
        Vec::new(),
    );
    let security = security();

    let allowed = routing
        .select_route_with_host_context(
            &location("JP", "Example ISP"),
            None,
            Some("allowed.example.com"),
            &security,
            "203.0.113.8",
        )
        .expect("default route should exist");
    assert_eq!(allowed.0, "special");

    let blocked = routing
        .select_route_with_host_context(
            &location("JP", "Example ISP"),
            None,
            Some("blocked.example.com"),
            &security,
            "203.0.113.8",
        )
        .expect("default route should exist");
    assert_eq!(blocked.0, "global");
}

#[test]
fn route_supports_bang_negation_in_matcher_values() {
    let routing = routing(
        &[
            ("global", "global.example.com"),
            ("special", "special.example.com"),
        ],
        vec![RouteRule {
            priority: 20,
            line: "special".to_owned(),
            countries: list(&["JP", "!CN"]),
            isp_contains: list(&["mobile", "!cloud"]),
            players: list(&["!blocked"]),
            ..RouteRule::default()
        }],
        Vec::new(),
    );
    let security = security();

    let match_route = routing
        .select_route_with_context(
            &location("JP", "Example Mobile"),
            Some("allowed"),
            &security,
            "203.0.113.8",
        )
        .expect("bang matcher should match");
    assert_eq!(match_route.0, "special");

    let excluded_country = routing
        .select_route_with_context(
            &location("CN", "Example Mobile"),
            Some("allowed"),
            &security,
            "203.0.113.8",
        )
        .expect("default route should exist");
    assert_eq!(excluded_country.0, "global");

    let excluded_isp = routing
        .select_route_with_context(
            &location("JP", "Cloud Transit"),
            Some("allowed"),
            &security,
            "203.0.113.8",
        )
        .expect("default route should exist");
    assert_eq!(excluded_isp.0, "global");

    let excluded_player = routing
        .select_route_with_context(
            &location("JP", "Example Mobile"),
            Some("blocked"),
            &security,
            "203.0.113.8",
        )
        .expect("default route should exist");
    assert_eq!(excluded_player.0, "global");
}

fn routing_from(source: &str) -> RoutingConfig {
    let document = table(source);
    let mut lines: NameMap<LineTarget> = NameMap::new();
    for (name, line) in document["lines"].as_table().expect("a table") {
        lines.insert(name.clone(), line_target(line.as_table().expect("a table")));
    }
    RoutingConfig {
        default_line: text(&document, "default_line"),
        lines,
        rules: Vec::new(),
        group: Vec::new(),
    }
}

#[test]
fn routing_defaults_srv_to_disabled_and_uses_minecraft_port_fallback() {
    let routing = routing_from(
        r#"
        default_line = "global"

        [lines.global]
        host = "play.example.com"
        resolve_srv = true
        "#,
    );
    routing
        .validate()
        .expect("SRV routing configuration should validate");

    let global = routing.lines.get("global").expect("a line");
    assert!(global.resolve_srv);
    assert_eq!(global.port, 25565);
}

#[test]
fn routing_defaults_srv_to_false() {
    let routing = routing_from(
        r#"
        default_line = "global"

        [lines.global]
        host = "play.example.com"
        "#,
    );
    assert!(!routing.lines.get("global").expect("a line").resolve_srv);
}

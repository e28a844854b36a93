use mc_transfer_gateway::address::IpAddr;
use mc_transfer_gateway::config::{Ip2RegionConfig, SecurityConfig};
use mc_transfer_gateway::ip2region::{
    download_url, downloaded_databases, missing_databases, parse_region, probe_address,
    updatable_databases, update_report, validate_downloaded_xdb, Ip2Region, IpLocation,
};
use mc_transfer_gateway::network::ListFormat;
use mc_transfer_gateway::problem::Problem;
use mc_transfer_gateway::security::{
    downloaded_lists, list_update_report, missing_lists, updatable_lists, validate_list_file,
    BlockReason, ListFiles, ListTexts, Security,
};

const V4: IpAddr = IpAddr::V4(0xcb00_7108);

fn problem(message: &str) -> Problem {
    Problem {
        message: message.to_owned(),
        cause: None,
    }
}

#[test]
fn region_texts_have_five_fields() {
    let mut location = IpLocation::empty(V4);
    parse_region(&mut location, "中国|广东省|深圳市|电信|CN");
    assert_eq!(location.ip, V4);
    assert_eq!(location.country_name.as_deref(), Some("中国"));
    assert_eq!(location.province.as_deref(), Some("广东省"));
    assert_eq!(location.city.as_deref(), Some("深圳市"));
    assert_eq!(location.isp.as_deref(), Some("电信"));
    assert_eq!(location.country_code.as_deref(), Some("CN"));

    parse_region(&mut location, "0|0||0|0");
    assert_eq!(location, IpLocation::empty(V4));
    parse_region(&mut location, "Japan");
    assert_eq!(location.country_name.as_deref(), Some("Japan"));
    assert_eq!(location.isp, None);
    for code in ["C", "CNN", "C1", "中"] {
        parse_region(&mut location, &format!("a|b|c|d|{code}"));
        assert_eq!(location.country_code, None, "{code}");
    }
}

#[test]
fn databases_are_opened_where_they_are() {
    let config = Ip2RegionConfig::default();
    let both = Ip2Region::open(&config, &Some(Ok(())), &None).unwrap();
    assert_eq!(both.v4.as_deref(), Some("./data/ip2region_v4.xdb"));
    assert_eq!(both.v6, None);
    assert!(both.is_configured());
    assert_eq!(both.database_for(V4), Some("./data/ip2region_v4.xdb"));
    assert_eq!(both.database_for(IpAddr::V6(1)), None);
    let neither = Ip2Region::open(&config, &None, &None).unwrap();
    assert!(!neither.is_configured());
    let problem =
        Ip2Region::open(&config, &None, &Some(Err("too short".to_owned()))).unwrap_err();
    assert_eq!(
        problem.message,
        "unable to open ip2region IPv6 database ./data/ip2region_v6.xdb"
    );
    assert_eq!(problem.cause.as_deref(), Some("too short"));
    let unset = Ip2RegionConfig {
        v6_db: Some(String::new()),
        ..config
    };
    assert!(Ip2Region::open(&unset, &None, &Some(Err("too short".to_owned()))).is_ok());
}

#[test]
fn lookups_can_fail() {
    let databases = Ip2Region {
        v4: Some("v4".to_owned()),
        v6: None,
    };
    let found = databases.lookup(V4, "203.0.113.8", Ok("a|b|c|d|JP".to_owned()));
    assert_eq!(found.unwrap().country_code.as_deref(), Some("JP"));
    assert_eq!(
        databases.lookup(V4, "203.0.113.8", Ok(String::new())).unwrap(),
        IpLocation::empty(V4)
    );
    let problem = databases
        .lookup(V4, "203.0.113.8", Err("broken".to_owned()))
        .unwrap_err();
    assert_eq!(
        problem.message,
        "ip2region IPv4 lookup failed for 203.0.113.8"
    );
    assert_eq!(problem.cause.as_deref(), Some("broken"));
    let six = IpAddr::V6(1);
    assert_eq!(
        databases.lookup(six, "::1", Err("broken".to_owned())).unwrap(),
        IpLocation::empty(six)
    );
}

#[test]
fn databases_are_fetched_when_they_are_missing() {
    let config = Ip2RegionConfig::default();
    let pending = missing_databases(&config, true, false);
    assert_eq!(pending.len(), 1);
    assert_eq!(pending[0].path, "./data/ip2region_v6.xdb");
    assert_eq!(pending[0].file, "ip2region_v6.xdb");
    assert_eq!(pending[0].version, "IPv6");
    let off = Ip2RegionConfig {
        auto_download: false,
        ..config
    };
    assert!(missing_databases(&off, false, false).is_empty());
    assert!(updatable_databases(&off).is_empty());
    let on = Ip2RegionConfig {
        auto_update: true,
        v4_db: None,
        ..off
    };
    assert_eq!(updatable_databases(&on).len(), 1);
    assert_eq!(
        download_url("https://example.com/data//", "x.xdb"),
        "https://example.com/data/x.xdb"
    );
    assert_eq!(download_url("", "x"), "/x");
}

#[test]
fn database_downloads_are_summed_up() {
    let config = Ip2RegionConfig {
        auto_update: true,
        ..Ip2RegionConfig::default()
    };
    let pending = missing_databases(&config, false, false);
    let fetched = downloaded_databases(&pending, vec![Ok(false), Ok(true)]).unwrap();
    assert_eq!(fetched.len(), 1);
    assert_eq!(fetched[0].version, "IPv6");
    let failed = downloaded_databases(&pending, vec![Ok(true), Err(problem("no net"))]);
    assert_eq!(failed.unwrap_err().message, "no net");

    let pending = updatable_databases(&config);
    let report = update_report(&pending, vec![Err(problem("no net")), Ok(true)]);
    assert_eq!(report.errors, ["IPv4: no net"]);
    assert_eq!(report.updated.len(), 1);
    assert_eq!(report.updated[0].path, "./data/ip2region_v6.xdb");
}

#[test]
fn downloaded_databases_are_checked() {
    let message = |version: &str, opened: Result<(), String>, searched: Result<(), String>| {
        validate_downloaded_xdb(version, opened, searched)
            .map_err(|problem| problem.message)
            .err()
    };
    assert_eq!(message("IPv4", Ok(()), Ok(())), None);
    assert_eq!(
        message("IPv4", Err("e".to_owned()), Ok(())).as_deref(),
        Some("downloaded ip2region IPv4 database is invalid")
    );
    assert_eq!(
        message("IPv5", Ok(()), Ok(())).as_deref(),
        Some("unsupported ip2region database version IPv5")
    );
    assert_eq!(
        message("IPv6", Ok(()), Err("e".to_owned())).as_deref(),
        Some("downloaded ip2region IPv6 database has the wrong IP version: e")
    );
    assert_eq!(probe_address("IPv4"), IpAddr::parse("0.0.0.0"));
    assert_eq!(probe_address("IPv6"), IpAddr::parse("::"));
    assert_eq!(probe_address("IPv5"), None);
}

fn texts() -> ListTexts {
    ListTexts {
        vpn_ipv4: Some(Ok("203.0.113.0/24\n".to_owned())),
        vpn_ipv6: Some(Ok("2001:db8::/32\n".to_owned())),
        tor: Some(Ok("198.51.100.1\n198.51.100.2\n".to_owned())),
        spam: Some(Ok("192.0.2.0/25\n203.0.113.8\n".to_owned())),
    }
}

fn opened(config: &SecurityConfig) -> Security {
    match Security::open(config, &texts()) {
        Ok(security) => security,
        Err(problem) => panic!("{problem:?}"),
    }
}

fn at(text: &str) -> IpLocation {
    IpLocation::empty(IpAddr::parse(text).unwrap())
}

#[test]
fn addresses_on_the_lists_are_turned_away() {
    let security = opened(&SecurityConfig::default());
    assert_eq!(security.counts(), (2, 2, 2));
    assert!(security.is_enabled());
    assert!(security.has_data());
    assert_eq!(security.check(&at("203.0.113.8")), Some(BlockReason::Vpn));
    assert_eq!(security.check(&at("2001:db8::1")), Some(BlockReason::Vpn));
    assert_eq!(security.check(&at("198.51.100.2")), Some(BlockReason::Tor));
    assert_eq!(security.check(&at("192.0.2.127")), Some(BlockReason::Spam));
    assert_eq!(security.check(&at("192.0.2.128")), None);
}

#[test]
fn the_allowlist_and_the_switches_let_addresses_pass() {
    let config = SecurityConfig {
        allowlist: vec!["203.0.113.8".to_owned(), "2001:db8:1234::/48".to_owned()],
        ..SecurityConfig::default()
    };
    let security = opened(&config);
    assert_eq!(security.check(&at("203.0.113.8")), None);
    assert_eq!(security.check(&at("2001:db8:1234::9")), None);
    assert_eq!(security.check(&at("203.0.113.9")), Some(BlockReason::Vpn));
    assert!(security.matches_vpn(&at("203.0.113.8")));

    let off = SecurityConfig {
        enabled: false,
        ..SecurityConfig::default()
    };
    let security = opened(&off);
    assert!(!security.is_enabled());
    assert_eq!(security.check(&at("198.51.100.2")), None);
    assert!(security.matches_tor(&at("198.51.100.2")));
    assert!(security.matches_spam(&at("203.0.113.8")));

    let no_vpn = SecurityConfig {
        block_vpn: false,
        ..SecurityConfig::default()
    };
    let security = opened(&no_vpn);
    assert_eq!(security.check(&at("203.0.113.8")), Some(BlockReason::Spam));
    assert!(security.matches_vpn(&at("203.0.113.8")));
}

#[test]
fn providers_can_be_turned_away() {
    let config = SecurityConfig {
        vpn_isp_contains: vec![" HOSTING ".to_owned(), "  ".to_owned()],
        ..SecurityConfig::default()
    };
    let security = opened(&config);
    let mut location = at("8.8.8.8");
    assert_eq!(security.check(&location), None);
    location.isp = Some("Some Hosting Ltd".to_owned());
    assert_eq!(security.check(&location), Some(BlockReason::Vpn));
    location.isp = Some("Some Host".to_owned());
    assert_eq!(security.check(&location), None);
}

#[test]
fn bad_lists_are_reported() {
    let message = |config: &SecurityConfig, texts: ListTexts| match Security::open(config, &texts) {
        Ok(_) => panic!("a bad list"),
        Err(problem) => (problem.message, problem.cause),
    };
    let bad = SecurityConfig {
        allowlist: vec!["10.0.0.1".to_owned(), "x".to_owned()],
        ..SecurityConfig::default()
    };
    assert_eq!(
        message(&bad, texts()),
        (
            "security.allowlist[1] is not a valid IP/CIDR: x".to_owned(),
            Some("invalid IP address in x: invalid IP address syntax".to_owned())
        )
    );
    let config = SecurityConfig::default();
    let unreadable = ListTexts {
        tor: Some(Err("denied".to_owned())),
        ..texts()
    };
    assert_eq!(
        message(&config, unreadable),
        (
            "unable to read Tor exit list ./data/tor-exit-list.txt".to_owned(),
            Some("denied".to_owned())
        )
    );
    let wrong = ListTexts {
        spam: Some(Ok("\nnope\n".to_owned())),
        ..texts()
    };
    assert_eq!(
        message(&config, wrong).0,
        "invalid Spam IP entry at ./data/spam-ip-list.txt:2: nope"
    );
    let unset = SecurityConfig {
        spam_list: None,
        ..config
    };
    let ignored = ListTexts {
        spam: Some(Err("denied".to_owned())),
        ..texts()
    };
    assert!(Security::open(&unset, &ignored).is_ok());
}

#[test]
fn only_lists_that_block_are_maintained() {
    let nothing = ListFiles {
        tor: false,
        spam: false,
        vpn_ipv4: false,
        vpn_ipv6: false,
    };
    let kinds = |config: &SecurityConfig| {
        missing_lists(config, nothing)
            .iter()
            .map(|item| item.kind)
            .collect::<Vec<_>>()
    };
    let config = SecurityConfig::default();
    assert_eq!(
        kinds(&config),
        ["Tor exit", "Spam IP", "VPN IPv4", "VPN IPv6"]
    );
    let items = missing_lists(&config, ListFiles { tor: true, ..nothing });
    assert_eq!(items.len(), 3);
    assert_eq!(items[0].format, ListFormat::Network);
    assert_eq!(items[0].url, "https://blackip.ustc.edu.cn/list.php?txt");
    let some = SecurityConfig {
        block_vpn: false,
        ..SecurityConfig::default()
    };
    assert_eq!(kinds(&some), ["Tor exit", "Spam IP"]);
    let off = SecurityConfig {
        enabled: false,
        ..SecurityConfig::default()
    };
    assert!(kinds(&off).is_empty());
    assert!(updatable_lists(&config).is_empty());
    let updating = SecurityConfig {
        auto_update: true,
        ..config
    };
    assert_eq!(updatable_lists(&updating).len(), 4);
}

#[test]
fn list_downloads_are_summed_up() {
    let config = SecurityConfig {
        auto_update: true,
        ..SecurityConfig::default()
    };
    let items = updatable_lists(&config);
    let fetched =
        downloaded_lists(&items, vec![Ok(true), Ok(false), Ok(false), Ok(true)]).unwrap();
    assert_eq!(fetched.len(), 2);
    assert_eq!(fetched[1].kind, "VPN IPv6");
    assert_eq!(fetched[1].path, "./data/vpn-ipv6.txt");
    let failed = downloaded_lists(
        &items,
        vec![
            Ok(true),
            Err(problem("down")),
            Ok(true),
            Err(problem("gone")),
        ],
    );
    assert_eq!(
        failed.unwrap_err().message,
        "one or more security list downloads failed: Spam IP: down; VPN IPv6: gone"
    );
    let report = list_update_report(
        &items,
        vec![Ok(true), Err(problem("down")), Ok(false), Ok(true)],
    );
    assert_eq!(report.updated.len(), 2);
    assert_eq!(report.updated[0].kind, "Tor exit");
    assert_eq!(report.updated[1].kind, "VPN IPv6");
    assert_eq!(report.errors, ["Spam IP: down"]);
}

#[test]
fn downloaded_lists_are_checked() {
    let check = |source: Result<String, String>| {
        validate_list_file("t.part", "Tor exit", ListFormat::Ip, source)
            .map_err(|problem| problem.message)
            .err()
    };
    assert_eq!(check(Ok("1.2.3.4\n".to_owned())), None);
    assert_eq!(
        check(Ok(String::new())).as_deref(),
        Some("downloaded Tor exit list t.part is empty")
    );
    assert_eq!(
        check(Ok("1.2.3.0/24".to_owned())).as_deref(),
        Some("invalid Tor exit entry at t.part:1: 1.2.3.0/24")
    );
    assert_eq!(
        check(Err("denied".to_owned())).as_deref(),
        Some("unable to read downloaded Tor exit list t.part")
    );
}

#[test]
fn reasons_have_names_and_messages() {
    assert_eq!(BlockReason::Vpn.label(), "VPN/Proxy");
    assert_eq!(BlockReason::Tor.label(), "Tor");
    assert_eq!(BlockReason::Spam.label(), "Spam IP");
    assert_eq!(BlockReason::Spam.disconnect_key(), "disconnect.spam_blocked");
    assert_eq!(BlockReason::Vpn.disconnect_key(), "disconnect.vpn_blocked");
    assert_eq!(BlockReason::Tor.disconnect_key(), "disconnect.tor_blocked");
}

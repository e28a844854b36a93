use mc_transfer_gateway::address::IpAddr;
use mc_transfer_gateway::balance::{
    parse_group_mode, pick_place, pick_place_for_key, pseudo_random_index, GroupMode,
};
use mc_transfer_gateway::config::{
    default_group_mode, LineTarget, RouteRule, RoutingConfig, RoutingGroup,
};
use mc_transfer_gateway::ip2region::IpLocation;
use mc_transfer_gateway::matching::{
    bang_negation, fits, matches_bool, matches_list, normalize_host, Comparison,
};
use mc_transfer_gateway::names::NameMap;

fn list(values: &[&str]) -> Vec<String> {
    values.iter().map(|value| (*value).to_owned()).collect()
}

#[test]
fn exclusions_start_with_a_bang() {
    assert_eq!(bang_negation("!CN"), Some("CN"));
    assert_eq!(bang_negation("!"), None);
    assert_eq!(bang_negation("CN"), None);
    assert_eq!(bang_negation(""), None);
}

#[test]
fn values_are_compared_in_three_ways() {
    assert!(fits(Comparison::Text, "cn", "CN"));
    assert!(!fits(Comparison::Text, "cn", "CN."));
    assert!(fits(Comparison::Host, "Play.Example.com..", "play.example.COM"));
    assert!(fits(Comparison::Part, "电信", "中国电信"));
    assert!(fits(Comparison::Part, "TELECOM", "China Telecom"));
    assert!(fits(Comparison::Part, "", "anything"));
    assert!(!fits(Comparison::Part, "telecoms", "China Telecom"));
    assert_eq!(normalize_host("a.b.."), "a.b");
    assert_eq!(normalize_host("..."), "");
}

#[test]
fn wanted_values_are_alternatives_and_exclusions_win() {
    let passes = |wanted: &[&str], unwanted: &[&str], value: Option<&str>| {
        matches_list(Comparison::Text, &list(wanted), &list(unwanted), value)
    };
    assert!(passes(&[], &[], None));
    assert!(passes(&[], &[], Some("x")));
    assert!(passes(&["a", "b"], &[], Some("B")));
    assert!(!passes(&["a", "b"], &[], Some("c")));
    assert!(!passes(&["a"], &[], None));
    assert!(passes(&["!a"], &[], Some("b")));
    assert!(passes(&["!a"], &[], None));
    assert!(!passes(&["!a"], &[], Some("A")));
    assert!(!passes(&[], &["a"], Some("a")));
    assert!(!passes(&[], &["!a"], Some("a")));
    assert!(!passes(&["a"], &["a"], Some("a")));
    assert!(passes(&["!"], &[], Some("!")));
}

#[test]
fn truth_values_can_be_wanted_or_excluded() {
    assert!(matches_bool(None, false, true));
    assert!(matches_bool(Some(true), false, true));
    assert!(!matches_bool(Some(false), false, true));
    assert!(!matches_bool(None, true, true));
    assert!(matches_bool(None, true, false));
}

#[test]
fn modes_have_several_names() {
    for name in ["round_robin", "Round-Robin", " round robin ", "load_balance", "loadblance"] {
        assert_eq!(parse_group_mode(name), Some(GroupMode::RoundRobin));
    }
    for name in ["random", "RANDOM"] {
        assert_eq!(parse_group_mode(name), Some(GroupMode::Random));
    }
    for name in ["ip_hash", "hash", "Consistent Hash"] {
        assert_eq!(parse_group_mode(name), Some(GroupMode::IpHash));
    }
    assert_eq!(parse_group_mode("roundrobins"), None);
    assert_eq!(parse_group_mode(""), None);
}

#[test]
fn places_are_picked_by_mode() {
    for sequence in 0..10 {
        assert_eq!(
            pick_place(GroupMode::RoundRobin, sequence, 77, 3),
            sequence % 3
        );
        assert_eq!(pick_place(GroupMode::IpHash, sequence, 77, 3), 77 % 3);
        assert_eq!(
            pick_place(GroupMode::Random, sequence, 77, 3),
            pseudo_random_index(sequence, 3)
        );
    }
    let mut value: u64 = 1_442_695_040_888_963_407;
    value ^= value >> 33;
    value = value.wrapping_mul(1_099_511_628_211);
    value ^= value >> 29;
    assert_eq!(pseudo_random_index(0, 1000), (value % 1000) as usize);
}

#[test]
fn the_same_key_comes_to_the_same_place() {
    let first = pick_place_for_key(GroupMode::IpHash, 0, "203.0.113.8", 97);
    assert_eq!(
        pick_place_for_key(GroupMode::IpHash, 12345, "203.0.113.8", 97),
        first
    );
    let places: std::collections::BTreeSet<usize> = (0..50)
        .map(|n| pick_place_for_key(GroupMode::IpHash, 0, &format!("203.0.113.{n}"), 97))
        .collect();
    assert!(places.len() > 10);
}

fn group(mode: &str) -> RoutingGroup {
    RoutingGroup::new(
        0,
        "g".to_owned(),
        mode.to_owned(),
        25566,
        true,
        list(&["a", "b", "c"]),
    )
}

#[test]
fn groups_hand_out_their_hosts() {
    assert_eq!(default_group_mode(), "round_robin");
    let round = group("round_robin");
    let hosts: Vec<String> = (0..4).map(|_| round.select_target("key").host).collect();
    assert_eq!(hosts, ["a", "b", "c", "a"]);
    assert_eq!(round.target_at(4, "key").host, "b");
    let target = round.target_at(0, "key");
    assert_eq!(target.port, 25566);
    assert!(target.resolve_srv);
    let hashed = group("ip_hash");
    assert_eq!(hashed.select_target("key"), hashed.select_target("key"));
    let unknown = group("no such mode");
    assert_eq!(unknown.target_at(1, "key").host, "b");
}

fn location() -> IpLocation {
    IpLocation {
        country_code: Some("CN".to_owned()),
        province: Some("Guangdong".to_owned()),
        city: Some("Shenzhen".to_owned()),
        isp: Some("China Telecom".to_owned()),
        ..IpLocation::empty(IpAddr::V4(1))
    }
}

fn line(host: &str) -> LineTarget {
    LineTarget {
        host: host.to_owned(),
        port: 25565,
        resolve_srv: false,
    }
}

fn routing(rules: Vec<RouteRule>, group: Vec<RoutingGroup>) -> RoutingConfig {
    let mut lines = NameMap::new();
    for name in ["global", "one", "two"] {
        lines.insert(name.to_owned(), line(name));
    }
    RoutingConfig {
        default_line: "global".to_owned(),
        lines,
        rules,
        group,
    }
}

fn rule(line: &str, priority: i32) -> RouteRule {
    RouteRule {
        line: line.to_owned(),
        priority,
        ..RouteRule::default()
    }
}

#[test]
fn the_highest_priority_decides_and_then_the_order() {
    let chosen = |rules: Vec<RouteRule>| {
        routing(rules, Vec::new())
            .select_route(&location())
            .unwrap()
            .0
            .to_owned()
    };
    assert_eq!(chosen(Vec::new()), "global");
    assert_eq!(chosen(vec![rule("one", 1), rule("two", 2)]), "two");
    assert_eq!(chosen(vec![rule("one", 2), rule("two", 2)]), "one");
    assert_eq!(chosen(vec![rule("one", -5), rule("two", -4)]), "two");
}

#[test]
fn a_rule_without_priority_has_that_of_its_group() {
    let mut high = group("random");
    high.priority = 10;
    let by_group = RouteRule {
        group: Some("g".to_owned()),
        ..RouteRule::default()
    };
    let config = routing(vec![rule("one", 5), by_group], vec![high]);
    // Groups are left aside here, so the deciding rule leads to the default line.
    assert_eq!(config.select_route(&location()).unwrap().0, "global");
    let config = routing(
        vec![
            rule("one", 5),
            RouteRule {
                group: Some("g".to_owned()),
                priority: 1,
                ..RouteRule::default()
            },
        ],
        vec![group("random")],
    );
    assert_eq!(config.select_route(&location()).unwrap().0, "one");
}

#[test]
fn every_condition_has_to_be_met() {
    let full = RouteRule {
        hosts: list(&["play.example.com"]),
        countries: list(&["CN"]),
        provinces: list(&["Guangdong"]),
        cities: list(&["Shenzhen"]),
        isp_contains: list(&["telecom"]),
        ..rule("one", 1)
    };
    let host = Some("PLAY.example.com.");
    assert!(full.matches(&location(), None, host, None));
    assert!(!full.matches(&location(), None, None, None));
    let variants = [
        RouteRule {
            countries: list(&["JP"]),
            ..full.clone()
        },
        RouteRule {
            not_provinces: list(&["guangdong"]),
            ..full.clone()
        },
        RouteRule {
            cities: list(&["!Shenzhen"]),
            ..full.clone()
        },
        RouteRule {
            not_isp_contains: list(&["china"]),
            ..full.clone()
        },
        RouteRule {
            players: list(&["Steve"]),
            ..full.clone()
        },
        RouteRule {
            not_players: list(&["Steve"]),
            ..full.clone()
        },
        RouteRule {
            tor: Some(false),
            ..full.clone()
        },
        RouteRule {
            not_vpn: true,
            ..full.clone()
        },
    ];
    for variant in variants {
        assert!(!variant.matches(&location(), None, host, None));
    }
    assert!(RouteRule::default().matches(&location(), None, None, None));
}

#[test]
fn a_line_that_is_no_line_can_be_a_group() {
    let config = routing(vec![rule("g", 1)], vec![group("round_robin")]);
    let route = config.select_route_for_host(&location(), Some("x"));
    assert_eq!(route.unwrap().0, "global");
}

#[test]
fn names_are_kept_in_order() {
    let mut map = NameMap::new();
    for name in ["b", "a", "c", "a"] {
        map.insert(name.to_owned(), format!("value of {name}"));
    }
    map.insert("b".to_owned(), "other".to_owned());
    let names: Vec<&str> = (0..map.len()).map(|i| map.name_at(i)).collect();
    assert_eq!(names, ["a", "b", "c"]);
    assert_eq!(map.get("b").map(String::as_str), Some("other"));
    assert_eq!(map.get("d"), None);
    assert!(map.contains_key("c"));
    assert!(!map.is_empty());
    assert_eq!(map.clone().value_at(0), "value of a");
}

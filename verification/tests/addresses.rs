use mc_transfer_gateway::address::IpAddr;
use mc_transfer_gateway::network::{
    list_token, parse_ip_lines, parse_network, parse_network_lines, validate_list, IpNetwork, IpSet,
    ListFormat,
};

fn v4(a: u8, b: u8, c: u8, d: u8) -> IpAddr {
    IpAddr::V4(u32::from_be_bytes([a, b, c, d]))
}

fn v6(text: &str) -> IpAddr {
    IpAddr::parse(text).unwrap()
}

#[test]
fn addresses_are_read_in_their_usual_forms() {
    assert_eq!(IpAddr::parse("203.0.113.8"), Some(v4(203, 0, 113, 8)));
    assert_eq!(IpAddr::parse("0.0.0.0"), Some(v4(0, 0, 0, 0)));
    assert_eq!(
        IpAddr::parse("255.255.255.255"),
        Some(v4(255, 255, 255, 255))
    );
    let words = [
        ("::", [0, 0, 0, 0, 0, 0, 0, 0]),
        ("::1", [0, 0, 0, 0, 0, 0, 0, 1]),
        ("1::", [1, 0, 0, 0, 0, 0, 0, 0]),
        ("2001:db8::8", [0x2001, 0xdb8, 0, 0, 0, 0, 0, 8]),
        ("2001:DB8:1234::", [0x2001, 0xdb8, 0x1234, 0, 0, 0, 0, 0]),
        ("1:2:3:4:5:6:7:8", [1, 2, 3, 4, 5, 6, 7, 8]),
        ("::ffff:192.0.2.1", [0, 0, 0, 0, 0, 0xffff, 0xc000, 0x0201]),
        ("1:2:3:4:5:6:192.0.2.1", [1, 2, 3, 4, 5, 6, 0xc000, 0x0201]),
    ];
    for (text, words) in words {
        let mut number: u128 = 0;
        for word in words {
            number = number * 65536 + word;
        }
        assert_eq!(IpAddr::parse(text), Some(IpAddr::V6(number)), "{text}");
    }
}

#[test]
fn other_texts_are_no_addresses() {
    let texts = [
        "256.0.0.1",
        "1.2.3",
        "1.2.3.4.5",
        "01.2.3.4",
        "1.2.3.4 ",
        "",
        "1:2:3:4:5:6:7",
        "1:2:3:4:5:6:7:8:9",
        "1::2::3",
        ":::",
        "1:2:3:4:5:6:7:192.0.2.1",
        "::192.0.2.256",
        "12345::",
        "g::",
        "fe80::1%1",
        "[::1]",
        "example.com",
    ];
    for text in texts {
        assert_eq!(IpAddr::parse(text), None, "{text}");
    }
}

#[test]
fn networks_keep_only_their_prefix() {
    assert_eq!(
        parse_network("203.0.113.8/24").unwrap(),
        IpNetwork::V4 {
            network: 0xcb00_7100,
            prefix: 24
        }
    );
    assert_eq!(
        parse_network("203.0.113.8").unwrap(),
        IpNetwork::V4 {
            network: 0xcb00_7108,
            prefix: 32
        }
    );
    assert_eq!(
        parse_network("10.1.2.3/0").unwrap(),
        IpNetwork::V4 {
            network: 0,
            prefix: 0
        }
    );
    assert_eq!(
        parse_network("2001:db8:1234:5678::/48").unwrap(),
        IpNetwork::V6 {
            network: 0x2001_0db8_1234_0000_0000_0000_0000_0000,
            prefix: 48
        }
    );
}

#[test]
fn bad_networks_are_explained() {
    let cases = [
        (
            "example",
            "invalid IP address in example",
            Some("invalid IP address syntax"),
        ),
        (
            "1.2.3.4/x",
            "invalid prefix in 1.2.3.4/x",
            Some("invalid digit found in string"),
        ),
        (
            "1.2.3.4/256",
            "invalid prefix in 1.2.3.4/256",
            Some("number too large to fit in target type"),
        ),
        (
            "1.2.3.4/",
            "invalid prefix in 1.2.3.4/",
            Some("cannot parse integer from empty string"),
        ),
        (
            "1.2.3.4/8/8",
            "too many '/' separators in 1.2.3.4/8/8",
            None,
        ),
        (
            "1.2.3.4/33",
            "IPv4 prefix must be between 0 and 32 in 1.2.3.4/33",
            None,
        ),
        (
            "::/129",
            "IPv6 prefix must be between 0 and 128 in ::/129",
            None,
        ),
    ];
    for (text, words, cause) in cases {
        let problem = parse_network(text).unwrap_err();
        assert_eq!(problem.message, words);
        assert_eq!(problem.cause.as_deref(), cause);
    }
}

#[test]
fn a_list_entry_is_the_first_word_before_a_comment() {
    assert_eq!(list_token("  10.0.0.0/8  extra # note"), "10.0.0.0/8");
    assert_eq!(list_token("# only a note"), "");
    assert_eq!(list_token("1.2.3.4#note"), "1.2.3.4");
}

#[test]
fn lists_are_read_line_by_line() {
    let source = "# header\r\n10.0.0.0/8\r\n\r\n2001:db8::/32 # block\n";
    let networks = parse_network_lines(source, "list.txt", "VPN IPv4").unwrap();
    assert_eq!(networks.len(), 2);

    let problem = parse_network_lines("10.0.0.0/8\nnonsense\n", "list.txt", "Tor exit").unwrap_err();
    assert_eq!(
        problem.message,
        "invalid Tor exit entry at list.txt:2: nonsense"
    );
    assert_eq!(
        problem.cause.as_deref(),
        Some("invalid IP address in nonsense: invalid IP address syntax")
    );
    assert!(parse_ip_lines("10.0.0.0/8\n", "list.txt", "Tor exit").is_err());
    assert!(parse_ip_lines("10.0.0.1\n", "list.txt", "Tor exit").is_ok());
}

#[test]
fn an_empty_list_is_no_good() {
    let problem = validate_list("# nothing\n", "l.txt", "Spam IP", ListFormat::Network).unwrap_err();
    assert_eq!(problem.message, "downloaded Spam IP list l.txt is empty");
    assert!(validate_list("1.2.3.4\n", "l.txt", "Spam IP", ListFormat::Network).is_ok());
}

#[test]
fn a_set_holds_the_addresses_of_its_blocks() {
    let networks = vec![
        parse_network("203.0.113.0/24").unwrap(),
        parse_network("203.0.113.0/24").unwrap(),
        parse_network("198.51.100.7").unwrap(),
        parse_network("2001:db8::/32").unwrap(),
    ];
    let set = IpSet::from_networks(networks);
    assert_eq!(set.len(), 3);
    assert!(!set.is_empty());
    assert!(set.contains(v4(203, 0, 113, 0)));
    assert!(set.contains(v4(203, 0, 113, 255)));
    assert!(!set.contains(v4(203, 0, 114, 0)));
    assert!(set.contains(v4(198, 51, 100, 7)));
    assert!(!set.contains(v4(198, 51, 100, 8)));
    assert!(set.contains(v6("2001:db8:ffff::1")));
    assert!(!set.contains(v6("2001:db9::1")));

    let everything = IpSet::from_networks(vec![parse_network("0.0.0.0/0").unwrap()]);
    assert!(everything.contains(v4(1, 2, 3, 4)));
    assert!(!everything.contains(v6("::1")));
    assert!(IpSet::from_networks(Vec::new()).is_empty());
}

#[test]
fn a_single_address_is_a_block_of_its_own() {
    let set = IpSet::from_networks(vec![
        IpNetwork::from_ip(v4(192, 0, 2, 1)),
        IpNetwork::from_ip(v6("::1")),
    ]);
    assert!(set.contains(v4(192, 0, 2, 1)));
    assert!(!set.contains(v4(192, 0, 2, 0)));
    assert!(set.contains(v6("::1")));
    assert!(!set.contains(v6("::2")));
}

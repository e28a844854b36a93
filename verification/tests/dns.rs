use mc_transfer_gateway::dns::{minecraft_srv_query_name, select_srv_target, SrvTarget};

fn target(priority: u16, weight: u16, host: &str) -> SrvTarget {
    SrvTarget {
        priority,
        weight,
        host: host.to_owned(),
        port: 25565,
    }
}

#[test]
fn builds_minecraft_srv_query_for_domain_names() {
    assert_eq!(
        minecraft_srv_query_name("play.example.com"),
        Some("_minecraft._tcp.play.example.com.".to_owned())
    );
    assert_eq!(
        minecraft_srv_query_name("play.example.com."),
        Some("_minecraft._tcp.play.example.com.".to_owned())
    );
    assert_eq!(minecraft_srv_query_name("203.0.113.8"), None);
    assert_eq!(minecraft_srv_query_name("[2001:db8::8]"), None);
}

#[test]
fn selects_only_the_lowest_priority() {
    let records = [
        target(10, 0, "low.example.com"),
        target(20, 100, "high.example.com"),
    ];
    assert_eq!(
        select_srv_target(&records, 0).unwrap().host,
        "low.example.com"
    );
}

#[test]
fn weighted_records_change_selection() {
    let records = [
        target(10, 0, "zero.example.com"),
        target(10, 10, "weighted.example.com"),
    ];
    assert_eq!(
        select_srv_target(&records, 0).unwrap().host,
        "zero.example.com"
    );
    assert_eq!(
        select_srv_target(&records, 10).unwrap().host,
        "weighted.example.com"
    );
}

use mc_transfer_gateway::config::{
    config_directory, Ip2RegionConfig, LanguageConfig, LoggingConfig, SecurityConfig,
};
use mc_transfer_gateway::path::{file_name, join, parent, resolve_relative_path, with_file_name};
use std::path::Path;

const PATHS: [&str; 14] = [
    "config.toml",
    "./config.toml",
    "dir/config.toml",
    "/etc/gateway/config.toml",
    "/config.toml",
    "dir/",
    "dir//sub///file",
    "/",
    "",
    ".",
    "..",
    "a/..",
    "a/.",
    "a/./b",
];

#[test]
fn paths_are_taken_apart_like_the_standard_library_does() {
    for path in PATHS {
        let expected = Path::new(path);
        assert_eq!(
            parent(path),
            expected.parent().map(|parent| parent.to_str().unwrap()),
            "parent of {path}"
        );
        assert_eq!(
            file_name(path),
            expected.file_name().map(|name| name.to_str().unwrap()),
            "file name of {path}"
        );
        for other in ["x.txt", "/abs", "./lang", "up/x"] {
            assert_eq!(join(path, other), expected.join(other).to_str().unwrap());
        }
    }
    assert_eq!(
        with_file_name("data/list.txt", ".list.part"),
        Path::new("data/list.txt")
            .with_file_name(".list.part")
            .to_str()
            .unwrap()
    );
}

#[test]
fn files_are_looked_for_next_to_the_configuration() {
    assert_eq!(
        resolve_relative_path("/etc/gw/config.toml", "./data/x"),
        "/etc/gw/./data/x"
    );
    assert_eq!(resolve_relative_path("config.toml", "data/x"), "./data/x");
    assert_eq!(resolve_relative_path("/etc/config.toml", "/data/x"), "/data/x");
    assert_eq!(config_directory("/etc/gw/config.toml"), "/etc/gw");
    assert_eq!(config_directory("config.toml"), ".");
}

#[test]
fn resolving_leaves_empty_and_missing_paths_alone() {
    let mut config = Ip2RegionConfig {
        v4_db: Some("data/v4.xdb".to_owned()),
        v6_db: Some(String::new()),
        ..Ip2RegionConfig::default()
    };
    config.resolve_paths("/gw/config.toml");
    assert_eq!(config.v4_db.as_deref(), Some("/gw/data/v4.xdb"));
    assert_eq!(config.v6_db.as_deref(), Some(""));

    let mut config = SecurityConfig {
        spam_list: None,
        tor_exit_list: Some("/lists/tor".to_owned()),
        ..SecurityConfig::default()
    };
    config.resolve_paths("/gw/config.toml");
    assert_eq!(config.spam_list, None);
    assert_eq!(config.tor_exit_list.as_deref(), Some("/lists/tor"));
    assert_eq!(
        config.vpn_ipv4_list.as_deref(),
        Some("/gw/./data/vpn-ipv4.txt")
    );
}

#[test]
fn an_empty_log_path_switches_the_file_off() {
    assert_eq!(
        LoggingConfig::default().file_path("/gw/config.toml").as_deref(),
        Some("/gw/./logs/gateway.log")
    );
    let off = LoggingConfig {
        file: Some(String::new()),
    };
    assert_eq!(off.file_path("/gw/config.toml"), None);
    assert_eq!(LoggingConfig { file: None }.file_path("c"), None);
}

#[test]
fn the_language_file_has_the_name_of_the_locale() {
    assert_eq!(
        LanguageConfig::default().file_path("/gw/config.toml"),
        "/gw/./lang/zh-CN.toml"
    );
}

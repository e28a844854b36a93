use mc_transfer_gateway::address::IpAddr;
use mc_transfer_gateway::bootstrap::{
    config_file, first_run_language_directory, first_run_message, language_file, language_files,
    vhost_files, FileKind, NewFile, NewReply, NewStep,
};
use mc_transfer_gateway::config::{
    default_bind, default_login_timeout_ms, default_max_connections, default_max_frame_length,
    default_max_players, default_motd, default_status_protocol, default_status_version_name,
    AppConfig, Ip2RegionConfig, LanguageConfig, LineTarget, LoggingConfig, RoutingConfig,
    SecurityConfig, ServerConfig, DEFAULT_CONFIG_TEMPLATE, DEFAULT_VHOST_TEMPLATES,
};
use mc_transfer_gateway::download::{
    compare_parts, temporary_path, temporary_path_for, Fetch, FileStep, PartVerdict, Reply,
    ResponseHead, Round, Save, Step, Subject, Task,
};
use mc_transfer_gateway::ip2region::{DownloadedDatabase, IpLocation, UpdateReport, UpdatedDatabase};
use mc_transfer_gateway::language::Language;
use mc_transfer_gateway::problem::Problem;
use mc_transfer_gateway::protocol::Uuid;
use mc_transfer_gateway::runtime::{
    begin_load, settle_ip2region_update, settle_reload, settle_security_update, Level, LogLine,
    RuntimeState,
};
use mc_transfer_gateway::security::{
    BlockReason, DownloadedList, ListTexts, ListUpdateReport, UpdatedList,
};
use mc_transfer_gateway::templates::{BUILTIN_EN_US, BUILTIN_ZH_CN};
use mc_transfer_gateway::watch::{
    is_config_event, on_watch_event, watch_target, ChangeKind, Timers, WatchAction, WatchEvent,
};
use std::sync::Arc;

fn problem(message: &str) -> Problem {
    Problem {
        message: message.to_owned(),
        cause: None,
    }
}

fn words(outcome: Result<(), Problem>) -> String {
    match outcome {
        Ok(()) => "fine".to_owned(),
        Err(problem) => problem.message,
    }
}

fn fetch(subject: Subject) -> Fetch {
    Fetch::new(subject, "http://h/f".to_owned(), "f.part".to_owned())
}

#[test]
fn answers_are_judged_before_they_are_read() {
    let head = |success: bool, length: Option<u64>| {
        Ok(ResponseHead {
            success,
            status: "404 Not Found".to_owned(),
            length,
        })
    };
    let database = fetch(Subject::Database);
    assert_eq!(words(database.on_response(head(true, None))), "fine");
    assert_eq!(
        words(database.on_response(head(true, Some(512 * 1024 * 1024)))),
        "fine"
    );
    assert_eq!(
        words(database.on_response(head(true, Some(512 * 1024 * 1024 + 1)))),
        "ip2region database download from http://h/f is larger than 536870912 bytes"
    );
    let list = fetch(Subject::List);
    assert_eq!(
        words(list.on_response(head(true, Some(64 * 1024 * 1024 + 1)))),
        "security list download from http://h/f is larger than 67108864 bytes"
    );
    assert_eq!(
        words(list.on_response(head(false, None))),
        "security list download from http://h/f returned HTTP 404 Not Found"
    );
    let problem = list.on_response(Err("timeout".to_owned())).unwrap_err();
    assert_eq!(
        problem.message,
        "unable to download security list from http://h/f"
    );
    assert_eq!(problem.cause.as_deref(), Some("timeout"));
}

#[test]
fn downloads_stay_below_their_limit() {
    let mut list = fetch(Subject::List);
    assert!(list.on_chunk(Ok(Some(64 * 1024 * 1024))).unwrap());
    assert!(!list.on_chunk(Ok(None)).unwrap());
    assert_eq!(list.received, 64 * 1024 * 1024);
    assert_eq!(
        list.on_chunk(Ok(Some(1))).unwrap_err().message,
        "security list download from http://h/f is larger than 67108864 bytes"
    );
    assert_eq!(list.received, 64 * 1024 * 1024);
    assert_eq!(
        list.on_chunk(Ok(Some(usize::MAX))).unwrap_err().message,
        "security list download size overflow"
    );
    let mut database = fetch(Subject::Database);
    assert_eq!(
        database.on_chunk(Err("reset".to_owned())).unwrap_err().message,
        "unable to read ip2region download response"
    );
    assert_eq!(
        words(database.on_file_step(FileStep::Sync, Err("full".to_owned()))),
        "unable to sync temporary download file f.part"
    );
    assert_eq!(
        words(fetch(Subject::List).on_file_step(FileStep::Create, Err("full".to_owned()))),
        "unable to create temporary security list file f.part"
    );
    assert_eq!(words(database.on_file_step(FileStep::Flush, Ok(()))), "fine");
}

fn save(subject: Subject, task: Task) -> Save {
    Save {
        subject,
        task,
        path: "data/f".to_owned(),
        temporary: "data/.f.part".to_owned(),
    }
}

fn name(step: &Step) -> &'static str {
    match step {
        Step::MakeDirectory(_) => "directory",
        Step::Fetch => "fetch",
        Step::Validate => "validate",
        Step::Compare => "compare",
        Step::Create => "create",
        Step::Open => "open",
        Step::Copy => "copy",
        Step::Sync => "sync",
        Step::Replace => "replace",
        Step::Remove(_) => "remove",
        Step::DropDestination(_) => "drop destination",
        Step::DropTemporary(_) => "drop temporary",
        Step::End(_) => "end",
    }
}

/// The names of the steps of a run in which the step `broken` fails, or gets `odd`.
fn run(save: &Save, exists: bool, broken: &str, odd: Option<Reply>) -> (Vec<&'static str>, Step) {
    let mut odd = odd;
    let mut names = Vec::new();
    let mut step = save.start(exists);
    loop {
        names.push(name(&step));
        if matches!(step, Step::End(_)) {
            return (names, step);
        }
        let reply = if name(&step) == broken {
            odd.take().unwrap_or(Reply::Failed(problem("broken")))
        } else {
            Reply::Done
        };
        step = save.advance(step, reply);
    }
}

fn outcome(step: Step) -> Result<bool, String> {
    match step {
        Step::End(Ok(changed)) => Ok(changed),
        Step::End(Err(problem)) => Err(problem.message),
        other => panic!("{other:?}"),
    }
}

#[test]
fn missing_files_are_put_in_their_place() {
    let database = save(Subject::Database, Task::Missing);
    let (names, end) = run(&database, false, "", None);
    assert_eq!(
        names,
        [
            "directory", "fetch", "validate", "create", "open", "copy", "sync", "remove", "end"
        ]
    );
    assert_eq!(outcome(end), Ok(true));
    let list = save(Subject::List, Task::Missing);
    let (names, end) = run(&list, false, "", None);
    assert_eq!(
        names,
        ["directory", "fetch", "validate", "open", "create", "copy", "end"]
    );
    assert_eq!(outcome(end), Ok(true));
    for save in [&database, &list] {
        let (names, end) = run(save, true, "", None);
        assert_eq!(names, ["end"]);
        assert_eq!(outcome(end), Ok(false));
    }
    let here = Save {
        path: "f".to_owned(),
        ..save(Subject::List, Task::Missing)
    };
    assert_eq!(run(&here, false, "", None).0[0], "fetch");
}

#[test]
fn files_are_replaced_by_newer_ones() {
    for subject in [Subject::Database, Subject::List] {
        let save = save(subject, Task::Refresh);
        let (names, end) = run(&save, true, "", None);
        assert_eq!(
            names,
            ["directory", "fetch", "validate", "compare", "replace", "end"]
        );
        assert_eq!(outcome(end), Ok(true));
        let (names, end) = run(&save, true, "compare", Some(Reply::Same));
        assert_eq!(
            names,
            ["directory", "fetch", "validate", "compare", "remove", "end"]
        );
        assert_eq!(outcome(end), Ok(false));
    }
    let list = save(Subject::List, Task::Refresh);
    assert_eq!(
        outcome(run(&list, true, "replace", None).1),
        Err("unable to atomically replace security list data/f".to_owned())
    );
}

#[test]
fn failed_runs_clean_up() {
    let database = save(Subject::Database, Task::Missing);
    let (names, end) = run(&database, false, "validate", None);
    assert_eq!(
        names,
        ["directory", "fetch", "validate", "drop temporary", "end"]
    );
    assert_eq!(outcome(end), Err("broken".to_owned()));
    let (names, end) = run(&database, false, "copy", None);
    assert_eq!(
        names[5..],
        ["copy", "drop destination", "drop temporary", "end"]
    );
    assert_eq!(
        outcome(end),
        Err("unable to publish ip2region database data/f".to_owned())
    );
    let (names, end) = run(&database, false, "create", Some(Reply::Exists));
    assert_eq!(names[3..], ["create", "drop temporary", "end"]);
    assert_eq!(outcome(end), Ok(false));
    let (names, end) = run(&database, false, "directory", None);
    assert_eq!(names, ["directory", "end"]);
    assert_eq!(
        outcome(end),
        Err("unable to create ip2region directory data".to_owned())
    );
    let list = save(Subject::List, Task::Missing);
    assert_eq!(
        outcome(run(&list, false, "open", None).1),
        Err("unable to open temporary security list data/.f.part".to_owned())
    );
}

#[test]
fn downloads_go_to_hidden_files_first() {
    let id = Uuid::from_bytes([0xab; 16]);
    assert_eq!(
        temporary_path_for(Subject::Database, "./data/v4.xdb", &id),
        "./data/.v4.xdb.abababab-abab-abab-abab-abababababab.part"
    );
    assert_eq!(
        temporary_path_for(Subject::List, "tor.txt", &id),
        ".tor.txt.abababababababababababababababab.download"
    );
    let first = temporary_path(Subject::List, "data/tor.txt");
    assert!(first.starts_with("data/.tor.txt."));
    assert_ne!(first, temporary_path(Subject::List, "data/tor.txt"));
    assert_eq!(Subject::Database.max_download_size(), 536870912);
    assert_eq!(Subject::List.name(), "security list");
}

#[test]
fn files_are_compared_part_by_part() {
    assert_eq!(compare_parts(b"ab", b"ab"), PartVerdict::More);
    assert_eq!(compare_parts(b"ab", b"ac"), PartVerdict::Differ);
    assert_eq!(compare_parts(b"ab", b"a"), PartVerdict::Differ);
    assert_eq!(compare_parts(b"", b""), PartVerdict::End);
}

fn new_name(step: &NewStep) -> &'static str {
    match step {
        NewStep::MakeDirectory(_) => "directory",
        NewStep::Create => "create",
        NewStep::Write => "write",
        NewStep::Flush => "flush",
        NewStep::Sync => "sync",
        NewStep::End(_) => "end",
    }
}

fn make(file: &NewFile, broken: &str, exists: bool) -> (Vec<&'static str>, Result<bool, String>) {
    let mut names = Vec::new();
    let mut step = file.start();
    loop {
        names.push(new_name(&step));
        let reply = if new_name(&step) != broken {
            NewReply::Done
        } else if exists {
            NewReply::Exists
        } else {
            NewReply::Failed(problem("broken"))
        };
        step = match step {
            NewStep::End(outcome) => return (names, outcome.map_err(|problem| problem.message)),
            step => file.advance(step, reply),
        };
    }
}

#[test]
fn first_runs_write_what_is_missing() {
    let file = config_file("gw/config.toml");
    assert_eq!(file.kind, FileKind::Configuration);
    assert_eq!(file.contents, DEFAULT_CONFIG_TEMPLATE);
    assert_eq!(
        make(&file, "", false),
        (
            vec!["directory", "create", "write", "flush", "sync", "end"],
            Ok(true)
        )
    );
    assert_eq!(
        make(&file, "create", true),
        (vec!["directory", "create", "end"], Ok(false))
    );
    assert_eq!(
        make(&file, "sync", false).1,
        Err("unable to sync configuration file gw/config.toml".to_owned())
    );
    assert_eq!(
        make(&file, "directory", false).1,
        Err("unable to create configuration directory gw".to_owned())
    );
    assert_eq!(make(&config_file("config.toml"), "", false).0[0], "create");
    assert_eq!(
        make(&language_file("l/x.toml", "x"), "flush", false).1,
        Err("unable to flush language file l/x.toml".to_owned())
    );
}

#[test]
fn first_runs_bring_hosts_and_languages() {
    let hosts = vhost_files("gw/config.toml");
    assert_eq!(hosts.len(), DEFAULT_VHOST_TEMPLATES.len());
    for (file, (name, contents)) in hosts.iter().zip(DEFAULT_VHOST_TEMPLATES) {
        assert_eq!(file.path, format!("gw/vhosts/{name}.toml"));
        assert_eq!(file.contents, contents);
        assert_eq!(file.kind, FileKind::Vhost);
    }
    let languages = language_files("gw/config.toml");
    assert_eq!(languages[0].path, "gw/./lang/zh-CN.toml");
    assert_eq!(languages[0].contents, BUILTIN_ZH_CN);
    assert_eq!(languages[1].path, "gw/./lang/en-US.toml");
    assert_eq!(languages[1].contents, BUILTIN_EN_US);
    assert_eq!(first_run_language_directory("gw/config.toml"), "gw/./lang");
    assert_eq!(
        first_run_message(&Language::builtin("en-US").unwrap(), "config.toml"),
        "created config.toml and the language directory ././lang; edit them and start again"
    );
}

#[test]
fn changes_to_toml_files_call_for_a_reload() {
    let changed = |kind: ChangeKind, path: &str| {
        is_config_event(
            kind,
            &vec!["x/readme.txt".to_owned(), path.to_owned()],
            "gateway.conf",
        )
    };
    assert!(changed(ChangeKind::Modify, "gw/vhosts/alpha.toml"));
    assert!(changed(ChangeKind::Remove, "gw/gateway.conf"));
    assert!(changed(ChangeKind::Any, "a.toml"));
    assert!(changed(ChangeKind::Create, ".toml"));
    assert!(!changed(ChangeKind::Other, "gw/gateway.conf"));
    assert!(!changed(ChangeKind::Modify, "gw/a.tom"));
    assert!(!changed(ChangeKind::Modify, "gw/a.toml/.."));
    let target = watch_target("gw/config.toml").unwrap();
    assert_eq!(
        (target.directory.as_str(), target.file_name.as_str()),
        ("gw", "config.toml")
    );
    assert_eq!(watch_target("config.toml").unwrap().directory, ".");
    assert_eq!(
        watch_target("..").unwrap_err().message,
        "configuration path has no file name"
    );
}

#[test]
fn the_watcher_acts_on_what_wakes_it_up() {
    let both = Timers {
        databases: true,
        lists: true,
    };
    let none = Timers {
        databases: false,
        lists: false,
    };
    let (action, timers) = on_watch_event(WatchEvent::Changed);
    assert!(matches!(action, WatchAction::Reload));
    assert_eq!(timers, both);
    let (action, timers) = on_watch_event(WatchEvent::Failed("gone".to_owned()));
    assert!(matches!(action, WatchAction::Warn(words) if words == "gone"));
    assert_eq!(timers, none);
    let (action, timers) = on_watch_event(WatchEvent::Closed);
    assert!(matches!(action, WatchAction::Stop));
    assert_eq!(timers, none);
    let (action, timers) = on_watch_event(WatchEvent::DatabasesDue);
    assert!(matches!(action, WatchAction::UpdateDatabases));
    assert_eq!((timers.databases, timers.lists), (true, false));
    let (action, timers) = on_watch_event(WatchEvent::ListsDue);
    assert!(matches!(action, WatchAction::UpdateLists));
    assert_eq!((timers.databases, timers.lists), (false, true));
}

fn config() -> AppConfig {
    AppConfig {
        server: ServerConfig {
            bind: default_bind(),
            max_connections: default_max_connections(),
            login_timeout_ms: default_login_timeout_ms(),
            max_frame_length: default_max_frame_length(),
            supported_protocols: Vec::new(),
            status_version_name: default_status_version_name(),
            status_protocol: default_status_protocol(),
            max_players: default_max_players(),
            motd: default_motd(),
            strict_error_handling: false,
        },
        ip2region: Ip2RegionConfig {
            auto_update: true,
            ..Ip2RegionConfig::default()
        },
        security: SecurityConfig {
            auto_update: true,
            ..SecurityConfig::default()
        },
        routing: Some(RoutingConfig::from_single_target(LineTarget {
            host: "h".to_owned(),
            port: 1,
            resolve_srv: false,
        })),
        vhosts: None,
        language: LanguageConfig {
            locale: "en-US".to_owned(),
            directory: "lang".to_owned(),
        },
        logging: LoggingConfig { file: None },
    }
}

fn lists(tor: Option<Result<String, String>>) -> ListTexts {
    ListTexts {
        vpn_ipv4: None,
        vpn_ipv6: None,
        tor,
        spam: None,
    }
}

fn texts(lines: &[LogLine]) -> Vec<&str> {
    lines.iter().map(|line| line.text.as_str()).collect()
}

fn loaded() -> RuntimeState {
    let loading = begin_load(config(), "gw/config.toml");
    let (speaking, _) = loading
        .on_language(Ok(BUILTIN_EN_US.to_owned()), false)
        .unwrap();
    let (_, located) = speaking.on_databases(Ok(Vec::new()), &Some(Ok(())), &None);
    let (_, state) = located
        .unwrap()
        .on_lists(Ok(Vec::new()), &lists(Some(Ok("203.0.113.8\n".to_owned()))));
    match state {
        Ok(state) => state,
        Err(problem) => panic!("{problem:?}"),
    }
}

#[test]
fn states_are_loaded_step_by_step() {
    let loading = begin_load(config(), "gw/config.toml");
    assert_eq!(loading.language_path, "gw/lang/en-US.toml");
    assert_eq!(
        loading.config.ip2region.v4_db.as_deref(),
        Some("gw/./data/ip2region_v4.xdb")
    );
    let (speaking, lines) = loading
        .on_language(Ok("[messages]\n".to_owned()), true)
        .unwrap();
    assert_eq!(
        texts(&lines),
        ["created language file gw/lang/en-US.toml"]
    );
    assert_eq!(lines[0].level, Level::Info);
    let fetched = vec![DownloadedDatabase {
        version: "IPv4",
        path: "v4.xdb".to_owned(),
    }];
    let (lines, located) = speaking.on_databases(Ok(fetched), &None, &None);
    assert_eq!(
        texts(&lines),
        [
            "downloaded ip2region IPv4 database to v4.xdb",
            "no ip2region database is available; only the default line can be chosen"
        ]
    );
    assert_eq!(lines[1].level, Level::Warn);
    let (lines, state) = located
        .unwrap()
        .on_lists(Err(problem("no net")), &lists(None));
    assert_eq!(
        texts(&lines),
        [
            "security list download failed: no net",
            "blocking is enabled, but no list is available"
        ]
    );
    assert_eq!(lines[0].level, Level::Error);
    assert!(state.is_ok());
}

#[test]
fn states_with_broken_parts_are_not_loaded() {
    let problem = begin_load(config(), "gw/config.toml")
        .on_language(Err("denied".to_owned()), false)
        .unwrap_err();
    assert_eq!(
        problem.message,
        "unable to read language file gw/lang/en-US.toml"
    );
    let problem = begin_load(config(), "gw/config.toml")
        .on_language(Ok("messages = 1".to_owned()), false)
        .unwrap_err();
    assert_eq!(problem.message, "invalid language file gw/lang/en-US.toml");
    let speaking = |config: AppConfig| {
        begin_load(config, "gw/config.toml")
            .on_language(Ok(String::new()), false)
            .unwrap()
            .0
    };
    let (lines, located) = speaking(config()).on_databases(
        Err(Problem {
            message: "no net".to_owned(),
            cause: None,
        }),
        &Some(Err("short".to_owned())),
        &None,
    );
    assert_eq!(texts(&lines), ["ip2region database download failed: no net"]);
    assert_eq!(
        located.unwrap_err().message,
        "unable to open ip2region IPv4 database gw/./data/ip2region_v4.xdb"
    );
    let (_, located) = speaking(config()).on_databases(Ok(Vec::new()), &None, &None);
    let fetched = vec![DownloadedList {
        kind: "Tor exit",
        path: "tor.txt".to_owned(),
    }];
    let (lines, state) = located
        .unwrap()
        .on_lists(Ok(fetched), &lists(Some(Err("denied".to_owned()))));
    assert_eq!(
        texts(&lines),
        ["downloaded security list Tor exit to tor.txt"]
    );
    match state {
        Err(problem) => assert_eq!(
            problem.message,
            "unable to read Tor exit list gw/./data/tor-exit-list.txt"
        ),
        Ok(_) => panic!("the list cannot be read"),
    }
}

#[test]
fn failed_reloads_keep_the_previous_state() {
    let previous = Arc::new(loaded());
    let (kept, line) = settle_reload(previous.clone(), Err(problem("bad config")));
    assert!(Arc::ptr_eq(&kept, &previous));
    assert_eq!(line.level, Level::Error);
    assert_eq!(
        line.text,
        "configuration reload failed, the previous one stays in use: bad config"
    );
    let (next, line) = settle_reload(previous.clone(), Ok(loaded()));
    assert!(!Arc::ptr_eq(&next, &previous));
    assert_eq!(line.level, Level::Info);
    assert_eq!(line.text, "configuration reloaded");
}

#[test]
fn updated_databases_are_taken_up() {
    let current = loaded();
    assert_eq!(current.next_ip2region_update_delay(), 86400);
    let report = |updated: bool| UpdateReport {
        updated: if updated {
            vec![UpdatedDatabase {
                version: "IPv6",
                path: "v6.xdb".to_owned(),
            }]
        } else {
            Vec::new()
        },
        errors: vec!["IPv4: no net".to_owned()],
    };
    let (next, lines) =
        settle_ip2region_update(&current, Ok(report(true)), &Some(Ok(())), &Some(Ok(())));
    assert_eq!(
        texts(&lines),
        [
            "ip2region database update failed: IPv4: no net",
            "updated ip2region IPv6 database v6.xdb"
        ]
    );
    let next = next.unwrap();
    assert!(next.ip2region.v6.is_some());
    assert!(Arc::ptr_eq(&next.security, &current.security));
    let (next, lines) = settle_ip2region_update(&current, Ok(report(false)), &None, &None);
    assert!(next.is_none());
    assert_eq!(lines.len(), 1);
    let (next, lines) = settle_ip2region_update(
        &current,
        Ok(report(true)),
        &Some(Err("short".to_owned())),
        &None,
    );
    assert!(next.is_none());
    assert_eq!(
        lines[1].text,
        "ip2region database update failed: unable to open ip2region IPv4 database gw/./data/ip2region_v4.xdb"
    );
    let (next, lines) = settle_ip2region_update(&current, Err(problem("no net")), &None, &None);
    assert!(next.is_none());
    assert_eq!(
        texts(&lines),
        ["ip2region database update failed: no net"]
    );
}

#[test]
fn updated_lists_are_taken_up() {
    let current = loaded();
    let place = |text: &str| IpLocation::empty(IpAddr::parse(text).unwrap());
    assert_eq!(current.next_security_update_delay(), 86400);
    assert_eq!(
        current.security.check(&place("203.0.113.8")),
        Some(BlockReason::Tor)
    );
    let report = || ListUpdateReport {
        updated: vec![UpdatedList {
            kind: "Tor exit",
            path: "tor.txt".to_owned(),
        }],
        errors: Vec::new(),
    };
    let (next, lines) = settle_security_update(
        &current,
        Ok(report()),
        &lists(Some(Ok("198.51.100.1\n".to_owned()))),
    );
    assert_eq!(texts(&lines), ["updated security list Tor exit tor.txt"]);
    let next = next.unwrap();
    assert_eq!(next.security.check(&place("203.0.113.8")), None);
    assert_eq!(
        next.security.check(&place("198.51.100.1")),
        Some(BlockReason::Tor)
    );
    assert!(Arc::ptr_eq(&next.ip2region, &current.ip2region));
    let (next, lines) = settle_security_update(
        &current,
        Ok(report()),
        &lists(Some(Ok("nonsense\n".to_owned()))),
    );
    assert!(next.is_none());
    assert_eq!(lines[0].level, Level::Error);
    let (next, lines) = settle_security_update(&current, Err(problem("no net")), &lists(None));
    assert!(next.is_none());
    assert_eq!(texts(&lines), ["security list update failed: no net"]);
}

#[test]
fn updates_can_be_switched_off() {
    let mut state = loaded();
    let mut off = config();
    off.ip2region.auto_update = false;
    off.security.auto_update = false;
    state.config = Arc::new(off);
    assert_eq!(state.next_ip2region_update_delay(), 3600);
    assert_eq!(state.next_security_update_delay(), 3600);
    let (next, lines) = settle_ip2region_update(&state, Err(problem("x")), &None, &None);
    assert!(next.is_none() && lines.is_empty());
    let (next, lines) = settle_security_update(&state, Err(problem("x")), &lists(None));
    assert!(next.is_none() && lines.is_empty());
}

/// The places that a round tries, where the files at the places `bad` fail.
fn tried(count: usize, stops: bool, bad: &[usize]) -> Vec<usize> {
    let mut places = Vec::new();
    let mut round = Round::new(count, stops);
    while let Some(place) = round.next() {
        places.push(place);
        round.on_outcome(if bad.contains(&place) {
            Err(problem("bad"))
        } else {
            Ok(true)
        });
    }
    assert_eq!(round.outcomes.len(), places.len());
    places
}

#[test]
fn a_failure_stops_only_rounds_that_stop_at_failures() {
    assert_eq!(tried(4, false, &[0, 2]), [0, 1, 2, 3]);
    assert_eq!(tried(4, true, &[]), [0, 1, 2, 3]);
    assert_eq!(tried(4, true, &[1, 2]), [0, 1]);
    assert_eq!(tried(4, true, &[3]), [0, 1, 2, 3]);
    assert_eq!(tried(0, true, &[]), Vec::<usize>::new());
}

/// Makes a file on a disk of texts, whose writes fail where `full` is set.
fn make_on(
    disk: &mut std::collections::BTreeMap<String, String>,
    file: &NewFile,
    full: bool,
) -> Result<bool, String> {
    let mut step = file.start();
    loop {
        let reply = match &step {
            NewStep::Create if disk.contains_key(&file.path) => NewReply::Exists,
            NewStep::Create => {
                disk.insert(file.path.clone(), String::new());
                NewReply::Done
            }
            NewStep::Write if full => NewReply::Failed(problem("full")),
            NewStep::Write => {
                disk.insert(file.path.clone(), file.contents.to_owned());
                NewReply::Done
            }
            _ => NewReply::Done,
        };
        step = match step {
            NewStep::End(outcome) => return outcome.map_err(|problem| problem.message),
            step => file.advance(step, reply),
        };
    }
}

#[test]
fn first_runs_fill_gaps_and_second_runs_change_nothing() {
    let mut disk = std::collections::BTreeMap::new();
    disk.insert("gw/vhosts/beta.toml".to_owned(), "mine".to_owned());
    disk.insert("gw/other".to_owned(), "other".to_owned());
    let files = vhost_files("gw/config.toml");
    let outcomes: Vec<_> = files
        .iter()
        .map(|file| make_on(&mut disk, file, false))
        .collect();
    assert_eq!(outcomes, [Ok(true), Ok(false)]);
    assert_eq!(disk["gw/vhosts/alpha.toml"], DEFAULT_VHOST_TEMPLATES[0].1);
    assert_eq!(disk["gw/vhosts/beta.toml"], "mine");
    assert_eq!(disk["gw/other"], "other");
    assert_eq!(disk.len(), 3);
    let before = disk.clone();
    for file in &files {
        assert_eq!(make_on(&mut disk, file, true), Ok(false));
    }
    assert_eq!(disk, before);
    let config = config_file("gw/config.toml");
    assert_eq!(
        make_on(&mut disk, &config, true),
        Err("unable to write configuration file gw/config.toml".to_owned())
    );
    assert_eq!(disk["gw/other"], "other");
}

//! The state that connections are served from, and how it is loaded, reloaded and kept up
//! to date.
use crate::config::{AppConfig, Ip2RegionConfig};
use crate::document;
use crate::ip2region::{self, DatabaseFile, DownloadedDatabase, Ip2Region, UpdateReport, UpdatedDatabase};
use crate::language::{self, Language};
use crate::path;
use crate::problem::{self, Problem, Report};
use crate::security::{self, DownloadedList, ListTexts, ListUpdateReport, Security, UpdatedList};
use crate::templates::BUILTIN_EN_US;
use crate::text::{self, cat2};
use std::sync::Arc;
use vstd::prelude::*;
use vstd::string::*;

verus! {

/// How long a burst of changes to the configuration is waited out, in milliseconds.
pub const CONFIG_DEBOUNCE_MS: u64 = 250;

/// How long the gateway waits before it looks again whether updates were switched on, in
/// seconds.
pub const DISABLED_UPDATE_RETRY_SECS: u64 = 3600;

/// How loud a line of the log is.
#[derive(Debug, Clone, Copy, PartialEq, Eq, Structural)]
pub enum Level {
    Info,
    Warn,
    Error,
}

/// A line for the log.
#[derive(Debug)]
pub struct LogLine {
    pub level: Level,
    pub text: String,
}

/// The level and the text of a line.
pub type LineView = (Level, Seq<char>);

pub open spec fn line_view(line: LogLine) -> LineView {
    (line.level, line.text@)
}

pub open spec fn line_views(lines: Seq<LogLine>) -> Seq<LineView> {
    lines.map_values(|line: LogLine| line_view(line))
}

/// A message with one value.
pub open spec fn with_one(
    language: Language,
    key: Seq<char>,
    name: Seq<char>,
    value: Seq<char>,
) -> Seq<char> {
    language.rendered(key, seq![(name, value)])
}

/// A message with two values.
pub open spec fn with_two(
    language: Language,
    key: Seq<char>,
    first: (Seq<char>, Seq<char>),
    second: (Seq<char>, Seq<char>),
) -> Seq<char> {
    language.rendered(key, seq![first, second])
}

fn plain_line(level: Level, language: &Language, key: &str) -> (line: LogLine)
    ensures
        line_view(line) == (level, language.rendered(key@, Seq::empty())),
{
    let values: [(&str, &str); 0] = [];
    let text = language.render(key, &values);
    LogLine { level, text }
}

fn line_with_one(level: Level, language: &Language, key: &str, name: &str, value: &str) -> (line:
    LogLine)
    ensures
        line_view(line) == (level, with_one(*language, key@, name@, value@)),
{
    let values = [(name, value)];
    let text = language.render(key, &values);
    assert(language::value_texts(values@) =~= seq![(name@, value@)]);
    LogLine { level, text }
}

fn line_with_two(
    level: Level,
    language: &Language,
    key: &str,
    first: (&str, &str),
    second: (&str, &str),
) -> (line: LogLine)
    ensures
        line_view(line) == (
            level,
            with_two(*language, key@, (first.0@, first.1@), (second.0@, second.1@)),
        ),
{
    let values = [first, second];
    let text = language.render(key, &values);
    assert(language::value_texts(values@) =~= seq![(first.0@, first.1@), (second.0@, second.1@)]);
    LogLine { level, text }
}

/// The lines about files that were fetched or replaced, one each.
pub open spec fn file_lines(
    language: Language,
    key: Seq<char>,
    label: Seq<char>,
    files: Seq<crate::download::Named>,
) -> Seq<LineView> {
    files.map_values(
        |file: crate::download::Named|
            (Level::Info, with_two(language, key, (label, file.0), ("path"@, file.1))),
    )
}

/// The line about something that went wrong.
pub open spec fn error_line(language: Language, key: Seq<char>, words: Seq<char>) -> LineView {
    (Level::Error, with_one(language, key, "error"@, words))
}

/// The lines about several things that went wrong.
pub open spec fn error_lines(
    language: Language,
    key: Seq<char>,
    errors: Seq<Seq<char>>,
) -> Seq<LineView> {
    errors.map_values(|words: Seq<char>| error_line(language, key, words))
}

/// What connections are served from.
#[derive(Clone)]
pub struct RuntimeState {
    pub config: Arc<AppConfig>,
    pub ip2region: Arc<Ip2Region>,
    pub security: Arc<Security>,
    pub language: Arc<Language>,
}

impl RuntimeState {
    /// The state with other databases.
    pub fn with_ip2region(&self, ip2region: Ip2Region) -> (state: Self)
        ensures
            *state.ip2region == ip2region,
            state.config == self.config,
            state.security == self.security,
            state.language == self.language,
    {
        RuntimeState {
            config: self.config.clone(),
            ip2region: Arc::new(ip2region),
            security: self.security.clone(),
            language: self.language.clone(),
        }
    }

    /// The state with other lists.
    pub fn with_security(&self, security: Security) -> (state: Self)
        ensures
            *state.security == security,
            state.config == self.config,
            state.ip2region == self.ip2region,
            state.language == self.language,
    {
        RuntimeState {
            config: self.config.clone(),
            ip2region: self.ip2region.clone(),
            security: Arc::new(security),
            language: self.language.clone(),
        }
    }

    /// How long to wait before newer databases are looked for, in seconds.
    pub fn next_ip2region_update_delay(&self) -> (seconds: u64)
        ensures
            seconds == if self.config.ip2region.auto_update {
                self.config.ip2region.update_interval_secs
            } else {
                DISABLED_UPDATE_RETRY_SECS
            },
    {
        if self.config.ip2region.auto_update {
            self.config.ip2region.update_interval_secs
        } else {
            DISABLED_UPDATE_RETRY_SECS
        }
    }

    /// How long to wait before newer lists are looked for, in seconds.
    pub fn next_security_update_delay(&self) -> (seconds: u64)
        ensures
            seconds == if self.config.security.auto_update {
                self.config.security.update_interval_secs
            } else {
                DISABLED_UPDATE_RETRY_SECS
            },
    {
        if self.config.security.auto_update {
            self.config.security.update_interval_secs
        } else {
            DISABLED_UPDATE_RETRY_SECS
        }
    }
}

/// A state whose paths are known; its language file is awaited.
#[derive(Debug)]
pub struct Loading {
    pub config: AppConfig,
    pub language_path: String,
}

/// Begins to load a state.
pub fn begin_load(config: AppConfig, config_path: &str) -> (loading: Loading)
    ensures
        loading.config.is_resolved(config, config_path@),
        loading.language_path@ == path::joined(
            path::resolved(config_path@, config.language.directory@),
            config.language.locale@ + ".toml"@,
        ),
{
    let mut config = config;
    config.resolve_paths(config_path);
    let language_path = config.language.file_path(config_path);
    Loading { config, language_path }
}

/// A state whose language is known; its databases are awaited.
#[derive(Debug)]
pub struct Speaking {
    pub config: AppConfig,
    pub language: Language,
}

/// A state whose databases are known; its lists are awaited.
#[derive(Debug)]
pub struct Located {
    pub config: AppConfig,
    pub language: Language,
    pub ip2region: Ip2Region,
}

impl Loading {
    /// What is wrong with the language file, whose text is `source`.
    pub open spec fn language_problem(self, source: Result<String, String>) -> Option<Report> {
        match source {
            Err(cause) => Some(
                Report {
                    message: "unable to read language file "@ + self.language_path@,
                    cause: Some(cause@),
                },
            ),
            Ok(source) => match language::language_report(
                document::values_of(source@),
                document::values_of(BUILTIN_EN_US@),
            ) {
                Some(report) => Some(
                    problem::inside("invalid language file "@ + self.language_path@, report),
                ),
                None => None,
            },
        }
    }

    /// Takes up the language file, given its text, and whether it was just created.
    pub fn on_language(self, source: Result<String, String>, created: bool) -> (outcome: Result<
        (Speaking, Vec<LogLine>),
        Problem,
    >)
        ensures
            problem::failure(outcome) == self.language_problem(source),
            outcome matches Ok((speaking, lines)) ==> {
                &&& speaking.config == self.config
                &&& speaking.language.locale@ == self.config.language.locale@
                &&& speaking.language.has_messages_of(source->Ok_0@)
                &&& line_views(lines@) == if created {
                    seq![
                        (
                            Level::Info,
                            with_one(
                                speaking.language,
                                "log.language_created"@,
                                "path"@,
                                self.language_path@,
                            ),
                        ),
                    ]
                } else {
                    Seq::empty()
                }
            },
    {
        let text = match source {
            Ok(text) => text,
            Err(cause) => {
                return Err(
                    Problem::caused_by(
                        cat2("unable to read language file ", self.language_path.as_str()),
                        cause,
                    ),
                );
            },
        };
        let language = match Language::load(
            self.language_path.as_str(),
            self.config.language.locale.as_str(),
            text.as_str(),
        ) {
            Ok(language) => language,
            Err(problem) => {
                return Err(problem);
            },
        };
        let mut lines: Vec<LogLine> = Vec::new();
        if created {
            lines.push(
                line_with_one(
                    Level::Info,
                    &language,
                    "log.language_created",
                    "path",
                    self.language_path.as_str(),
                ),
            );
        }
        Ok((Speaking { config: self.config, language }, lines))
    }
}

/// The lines about databases that were fetched.
pub open spec fn database_lines(
    language: Language,
    downloaded: Result<Vec<DownloadedDatabase>, Problem>,
) -> Seq<LineView> {
    match downloaded {
        Ok(databases) => file_lines(
            language,
            "log.ip2region_downloaded"@,
            "version"@,
            crate::ip2region::downloaded_names(databases@),
        ),
        Err(problem) => seq![
            error_line(language, "log.ip2region_download_failed"@, problem@.message),
        ],
    }
}

fn log_databases(language: &Language, downloaded: &Result<Vec<DownloadedDatabase>, Problem>) -> (
    lines: Vec<LogLine>)
    ensures
        line_views(lines@) == database_lines(*language, *downloaded),
{
    let mut lines: Vec<LogLine> = Vec::new();
    match downloaded {
        Ok(databases) => {
            let ghost wanted = database_lines(*language, *downloaded);
            let mut i: usize = 0;
            while i < databases.len()
                invariant
                    i <= databases.len(),
                    wanted.len() == databases.len(),
                    wanted == file_lines(
                        *language,
                        "log.ip2region_downloaded"@,
                        "version"@,
                        crate::ip2region::downloaded_names(databases@),
                    ),
                    line_views(lines@) == wanted.take(i as int),
                decreases databases.len() - i,
            {
                let database = &databases[i];
                lines.push(
                    line_with_two(
                        Level::Info,
                        language,
                        "log.ip2region_downloaded",
                        ("version", database.version),
                        ("path", database.path.as_str()),
                    ),
                );
                assert(wanted.take(i + 1) =~= wanted.take(i as int).push(wanted[i as int]));
                i += 1;
            }
        },
        Err(problem) => {
            lines.push(
                line_with_one(
                    Level::Error,
                    language,
                    "log.ip2region_download_failed",
                    "error",
                    problem.message.as_str(),
                ),
            );
        },
    }
    lines
}

/// The report on databases that cannot be used.
pub open spec fn databases_problem(
    config: Ip2RegionConfig,
    v4: DatabaseFile,
    v6: DatabaseFile,
) -> Option<Report> {
    match ip2region::opened(crate::text::text_of(config.v4_db), "IPv4"@, v4) {
        Err(report) => Some(report),
        Ok(_) => match ip2region::opened(crate::text::text_of(config.v6_db), "IPv6"@, v6) {
            Err(report) => Some(report),
            Ok(_) => None,
        },
    }
}

/// Whether databases are those of a configuration.
pub open spec fn are_databases(
    databases: Ip2Region,
    config: Ip2RegionConfig,
    v4: DatabaseFile,
    v6: DatabaseFile,
) -> bool {
    &&& Ok::<Option<Seq<char>>, Report>(crate::text::text_of(databases.v4)) == ip2region::opened(
        crate::text::text_of(config.v4_db),
        "IPv4"@,
        v4,
    )
    &&& Ok::<Option<Seq<char>>, Report>(crate::text::text_of(databases.v6)) == ip2region::opened(
        crate::text::text_of(config.v6_db),
        "IPv6"@,
        v6,
    )
}

impl Speaking {
    /// Takes up the databases, given what came of fetching the missing ones and what was
    /// found of their files. What is to be logged comes first.
    pub fn on_databases(
        self,
        downloaded: Result<Vec<DownloadedDatabase>, Problem>,
        v4: &DatabaseFile,
        v6: &DatabaseFile,
    ) -> (outcome: (Vec<LogLine>, Result<Located, Problem>))
        ensures
            problem::failure(outcome.1) == databases_problem(self.config.ip2region, *v4, *v6),
            outcome.1 matches Ok(located) ==> {
                &&& located.config == self.config
                &&& located.language == self.language
                &&& are_databases(located.ip2region, self.config.ip2region, *v4, *v6)
            },
            line_views(outcome.0@) == database_lines(self.language, downloaded) + match outcome.1 {
                Ok(located) if located.ip2region.v4 is None && located.ip2region.v6 is None => seq![
                    (Level::Warn, self.language.rendered("log.no_ip2region"@, Seq::empty())),
                ],
                _ => Seq::empty(),
            },
    {
        let mut lines = log_databases(&self.language, &downloaded);
        let ip2region = match Ip2Region::open(&self.config.ip2region, v4, v6) {
            Ok(ip2region) => ip2region,
            Err(problem) => {
                return (lines, Err(problem));
            },
        };
        if !ip2region.is_configured() {
            lines.push(plain_line(Level::Warn, &self.language, "log.no_ip2region"));
        }
        (lines, Ok(Located { config: self.config, language: self.language, ip2region }))
    }
}

/// The lines about lists that were fetched.
pub open spec fn list_lines(
    language: Language,
    downloaded: Result<Vec<DownloadedList>, Problem>,
) -> Seq<LineView> {
    match downloaded {
        Ok(lists) => file_lines(
            language,
            "log.security_list_downloaded"@,
            "kind"@,
            crate::security::downloaded_lists_names(lists@),
        ),
        Err(problem) => seq![
            error_line(language, "log.security_list_download_failed"@, problem@.message),
        ],
    }
}

fn log_lists(language: &Language, downloaded: &Result<Vec<DownloadedList>, Problem>) -> (lines: Vec<
    LogLine,
>)
    ensures
        line_views(lines@) == list_lines(*language, *downloaded),
{
    let mut lines: Vec<LogLine> = Vec::new();
    match downloaded {
        Ok(lists) => {
            let ghost wanted = list_lines(*language, *downloaded);
            let mut i: usize = 0;
            while i < lists.len()
                invariant
                    i <= lists.len(),
                    wanted.len() == lists.len(),
                    wanted == file_lines(
                        *language,
                        "log.security_list_downloaded"@,
                        "kind"@,
                        crate::security::downloaded_lists_names(lists@),
                    ),
                    line_views(lines@) == wanted.take(i as int),
                decreases lists.len() - i,
            {
                let list = &lists[i];
                lines.push(
                    line_with_two(
                        Level::Info,
                        language,
                        "log.security_list_downloaded",
                        ("kind", list.kind),
                        ("path", list.path.as_str()),
                    ),
                );
                assert(wanted.take(i + 1) =~= wanted.take(i as int).push(wanted[i as int]));
                i += 1;
            }
        },
        Err(problem) => {
            lines.push(
                line_with_one(
                    Level::Error,
                    language,
                    "log.security_list_download_failed",
                    "error",
                    problem.message.as_str(),
                ),
            );
        },
    }
    lines
}

impl Located {
    /// Takes up the lists, given what came of fetching the missing ones and what was found
    /// of their files. What is to be logged comes first.
    pub fn on_lists(
        self,
        downloaded: Result<Vec<DownloadedList>, Problem>,
        found: &ListTexts,
    ) -> (outcome: (Vec<LogLine>, Result<RuntimeState, Problem>))
        ensures
            match (outcome.1, security::all_blocks(self.config.security, *found)) {
                (Err(problem), Err(report)) => problem@ == report && line_views(outcome.0@)
                    == list_lines(self.language, downloaded),
                (Ok(state), Ok(blocks)) => {
                    &&& *state.config == self.config
                    &&& *state.language == self.language
                    &&& *state.ip2region == self.ip2region
                    &&& security::guards(state.security.guard(), self.config.security, blocks)
                    &&& line_views(outcome.0@) == list_lines(self.language, downloaded)
                        + if state.security.guard().active()
                        && !state.security.guard().has_material() {
                        seq![
                            (
                                Level::Warn,
                                self.language.rendered("log.no_security_data"@, Seq::empty()),
                            ),
                        ]
                    } else {
                        Seq::empty()
                    }
                },
                _ => false,
            },
    {
        let mut lines = log_lists(&self.language, &downloaded);
        let security = match Security::open(&self.config.security, found) {
            Ok(security) => security,
            Err(problem) => {
                return (lines, Err(problem));
            },
        };
        if security.is_enabled() && !security.has_data() {
            lines.push(plain_line(Level::Warn, &self.language, "log.no_security_data"));
        }
        let state = RuntimeState {
            config: Arc::new(self.config),
            ip2region: Arc::new(self.ip2region),
            security: Arc::new(security),
            language: Arc::new(self.language),
        };
        (lines, Ok(state))
    }
}

/// Settles a reload, given what came of it: a configuration that cannot be used leaves the
/// previous state in place.
pub fn settle_reload(previous: Arc<RuntimeState>, loaded: Result<RuntimeState, Problem>) -> (
    settled: (Arc<RuntimeState>, LogLine))
    ensures
        match loaded {
            Err(problem) => {
                &&& settled.0 == previous
                &&& line_view(settled.1) == error_line(
                    *previous.language,
                    "log.config_reload_failed"@,
                    problem@.message,
                )
            },
            Ok(next) => {
                &&& *settled.0 == next
                &&& line_view(settled.1) == (
                    Level::Info,
                    next.language.rendered("log.config_reloaded"@, Seq::empty()),
                )
            },
        },
{
    match loaded {
        Err(problem) => {
            let line = line_with_one(
                Level::Error,
                &previous.language,
                "log.config_reload_failed",
                "error",
                problem.message.as_str(),
            );
            (previous, line)
        },
        Ok(next) => {
            let line = plain_line(Level::Info, &next.language, "log.config_reloaded");
            (Arc::new(next), line)
        },
    }
}

fn log_errors(language: &Language, key: &str, errors: &Vec<String>) -> (lines: Vec<LogLine>)
    ensures
        line_views(lines@) == error_lines(*language, key@, text::texts(errors@)),
{
    let ghost wanted = error_lines(*language, key@, text::texts(errors@));
    let mut lines: Vec<LogLine> = Vec::new();
    let mut i: usize = 0;
    while i < errors.len()
        invariant
            i <= errors.len(),
            wanted.len() == errors.len(),
            wanted == error_lines(*language, key@, text::texts(errors@)),
            line_views(lines@) == wanted.take(i as int),
        decreases errors.len() - i,
    {
        lines.push(
            line_with_one(Level::Error, language, key, "error", errors[i].as_str()),
        );
        assert(wanted.take(i + 1) =~= wanted.take(i as int).push(wanted[i as int]));
        i += 1;
    }
    lines
}

/// The lines about databases that were replaced.
fn log_updated_databases(
    lines: &mut Vec<LogLine>,
    language: &Language,
    updated: &Vec<UpdatedDatabase>,
)
    ensures
        line_views(final(lines)@) == line_views(old(lines)@) + file_lines(
            *language,
            "log.ip2region_updated"@,
            "version"@,
            crate::ip2region::updated_names(updated@),
        ),
{
    let ghost first = line_views(lines@);
    let ghost wanted = file_lines(
        *language,
        "log.ip2region_updated"@,
        "version"@,
        crate::ip2region::updated_names(updated@),
    );
    let mut i: usize = 0;
    while i < updated.len()
        invariant
            i <= updated.len(),
            wanted.len() == updated.len(),
            wanted == file_lines(
                *language,
                "log.ip2region_updated"@,
                "version"@,
                crate::ip2region::updated_names(updated@),
            ),
            line_views(lines@) == first + wanted.take(i as int),
        decreases updated.len() - i,
    {
        lines.push(
            line_with_two(
                Level::Info,
                language,
                "log.ip2region_updated",
                ("version", updated[i].version),
                ("path", updated[i].path.as_str()),
            ),
        );
        assert(first + wanted.take(i + 1) =~= (first + wanted.take(i as int)).push(
            wanted[i as int],
        ));
        i += 1;
    }
}

/// The lines about lists that were replaced.
fn log_updated_lists(lines: &mut Vec<LogLine>, language: &Language, updated: &Vec<UpdatedList>)
    ensures
        line_views(final(lines)@) == line_views(old(lines)@) + file_lines(
            *language,
            "log.security_list_updated"@,
            "kind"@,
            crate::security::updated_lists_names(updated@),
        ),
{
    let ghost first = line_views(lines@);
    let ghost wanted = file_lines(
        *language,
        "log.security_list_updated"@,
        "kind"@,
        crate::security::updated_lists_names(updated@),
    );
    let mut i: usize = 0;
    while i < updated.len()
        invariant
            i <= updated.len(),
            wanted.len() == updated.len(),
            wanted == file_lines(
                *language,
                "log.security_list_updated"@,
                "kind"@,
                crate::security::updated_lists_names(updated@),
            ),
            line_views(lines@) == first + wanted.take(i as int),
        decreases updated.len() - i,
    {
        lines.push(
            line_with_two(
                Level::Info,
                language,
                "log.security_list_updated",
                ("kind", updated[i].kind),
                ("path", updated[i].path.as_str()),
            ),
        );
        assert(first + wanted.take(i + 1) =~= (first + wanted.take(i as int)).push(
            wanted[i as int],
        ));
        i += 1;
    }
}

/// Settles an update of the databases, given what came of it and what was then found of
/// their files. Says which state takes the place of the current one, if any.
pub fn settle_ip2region_update(
    current: &RuntimeState,
    report: Result<UpdateReport, Problem>,
    v4: &DatabaseFile,
    v6: &DatabaseFile,
) -> (settled: (Option<RuntimeState>, Vec<LogLine>))
    ensures
        ({
            let key = "log.ip2region_update_failed"@;
            let language = *current.language;
            let problem = databases_problem(current.config.ip2region, *v4, *v6);
            if !current.config.ip2region.auto_update {
                settled.0 is None && settled.1@.len() == 0
            } else {
                match report {
                    Err(error) => settled.0 is None && line_views(settled.1@) == seq![
                        error_line(language, key, error@.message),
                    ],
                    Ok(report) => {
                        let errors = error_lines(language, key, text::texts(report.errors@));
                        if report.updated@.len() == 0 {
                            settled.0 is None && line_views(settled.1@) == errors
                        } else if problem is Some {
                            settled.0 is None && line_views(settled.1@) == errors.push(
                                error_line(language, key, problem->0.message),
                            )
                        } else {
                            &&& settled.0 matches Some(next)
                            &&& next.config == current.config
                            &&& next.security == current.security
                            &&& next.language == current.language
                            &&& are_databases(
                                *next.ip2region,
                                current.config.ip2region,
                                *v4,
                                *v6,
                            )
                            &&& line_views(settled.1@) == errors + file_lines(
                                language,
                                "log.ip2region_updated"@,
                                "version"@,
                                crate::ip2region::updated_names(report.updated@),
                            )
                        }
                    },
                }
            }
        }),
{
    if !current.config.ip2region.auto_update {
        return (None, Vec::new());
    }
    let report = match report {
        Ok(report) => report,
        Err(error) => {
            let mut lines: Vec<LogLine> = Vec::new();
            lines.push(
                line_with_one(
                    Level::Error,
                    &current.language,
                    "log.ip2region_update_failed",
                    "error",
                    error.message.as_str(),
                ),
            );
            return (None, lines);
        },
    };
    let mut lines = log_errors(&current.language, "log.ip2region_update_failed", &report.errors);
    if report.updated.is_empty() {
        return (None, lines);
    }
    let database = match Ip2Region::open(&current.config.ip2region, v4, v6) {
        Ok(database) => database,
        Err(problem) => {
            lines.push(
                line_with_one(
                    Level::Error,
                    &current.language,
                    "log.ip2region_update_failed",
                    "error",
                    problem.message.as_str(),
                ),
            );
            return (None, lines);
        },
    };
    log_updated_databases(&mut lines, &current.language, &report.updated);
    (Some(current.with_ip2region(database)), lines)
}

/// Settles an update of the lists, given what came of it and what was then found of their
/// files. Says which state takes the place of the current one, if any.
pub fn settle_security_update(
    current: &RuntimeState,
    report: Result<ListUpdateReport, Problem>,
    found: &ListTexts,
) -> (settled: (Option<RuntimeState>, Vec<LogLine>))
    ensures
        ({
            let key = "log.security_list_update_failed"@;
            let language = *current.language;
            if !current.config.security.auto_update {
                settled.0 is None && settled.1@.len() == 0
            } else {
                match report {
                    Err(error) => settled.0 is None && line_views(settled.1@) == seq![
                        error_line(language, key, error@.message),
                    ],
                    Ok(report) => {
                        let errors = error_lines(language, key, text::texts(report.errors@));
                        if report.updated@.len() == 0 {
                            settled.0 is None && line_views(settled.1@) == errors
                        } else {
                            match security::all_blocks(current.config.security, *found) {
                                Err(problem) => settled.0 is None && line_views(settled.1@)
                                    == errors.push(error_line(language, key, problem.message)),
                                Ok(blocks) => {
                                    &&& settled.0 matches Some(next)
                                    &&& next.config == current.config
                                    &&& next.ip2region == current.ip2region
                                    &&& next.language == current.language
                                    &&& security::guards(
                                        next.security.guard(),
                                        current.config.security,
                                        blocks,
                                    )
                                    &&& line_views(settled.1@) == errors + file_lines(
                                        language,
                                        "log.security_list_updated"@,
                                        "kind"@,
                                        crate::security::updated_lists_names(report.updated@),
                                    )
                                },
                            }
                        }
                    },
                }
            }
        }),
{
    if !current.config.security.auto_update {
        return (None, Vec::new());
    }
    let report = match report {
        Ok(report) => report,
        Err(error) => {
            let mut lines: Vec<LogLine> = Vec::new();
            lines.push(
                line_with_one(
                    Level::Error,
                    &current.language,
                    "log.security_list_update_failed",
                    "error",
                    error.message.as_str(),
                ),
            );
            return (None, lines);
        },
    };
    let mut lines = log_errors(
        &current.language,
        "log.security_list_update_failed",
        &report.errors,
    );
    if report.updated.is_empty() {
        return (None, lines);
    }
    let security = match Security::open(&current.config.security, found) {
        Ok(security) => security,
        Err(problem) => {
            lines.push(
                line_with_one(
                    Level::Error,
                    &current.language,
                    "log.security_list_update_failed",
                    "error",
                    problem.message.as_str(),
                ),
            );
            return (None, lines);
        },
    };
    log_updated_lists(&mut lines, &current.language, &report.updated);
    (Some(current.with_security(security)), lines)
}

/// A configuration that was loaded takes over; one that could not be loaded leaves all as it
/// was.
pub proof fn lemma_bad_reload_changes_nothing(
    previous: Arc<RuntimeState>,
    loaded: Result<RuntimeState, Problem>,
    settled: (Arc<RuntimeState>, LogLine),
)
    requires
        call_ensures(settle_reload, (previous, loaded), settled),
    ensures
        loaded is Err ==> *settled.0 == *previous,
        loaded is Ok ==> *settled.0 == loaded->Ok_0,
{
}

/// An update of the databases changes nothing but the databases, and those only where
/// databases are updated, at least one was replaced, and they can be opened.
pub proof fn lemma_database_update_changes_databases_only(
    current: RuntimeState,
    report: Result<UpdateReport, Problem>,
    v4: DatabaseFile,
    v6: DatabaseFile,
    opened: Result<Ip2Region, Problem>,
    settled: (Option<RuntimeState>, Vec<LogLine>),
)
    requires
        call_ensures(settle_ip2region_update, (&current, report, &v4, &v6), settled),
        call_ensures(Ip2Region::open, (&current.config.ip2region, &v4, &v6), opened),
    ensures
        settled.0 is Some <==> current.config.ip2region.auto_update && report is Ok
            && report->Ok_0.updated@.len() > 0 && opened is Ok,
        settled.0 is Some ==> {
            let next = settled.0->0;
            &&& *next.config == *current.config
            &&& *next.security == *current.security
            &&& *next.language == *current.language
            &&& crate::text::text_of(next.ip2region.v4) == crate::text::text_of(opened->Ok_0.v4)
            &&& crate::text::text_of(next.ip2region.v6) == crate::text::text_of(opened->Ok_0.v6)
        },
{
}

/// An update of the lists changes nothing but the lists, and those only where lists are
/// updated, at least one was replaced, and they can be read.
pub proof fn lemma_list_update_changes_lists_only(
    current: RuntimeState,
    report: Result<ListUpdateReport, Problem>,
    found: ListTexts,
    opened: Result<Security, Problem>,
    settled: (Option<RuntimeState>, Vec<LogLine>),
)
    requires
        call_ensures(settle_security_update, (&current, report, &found), settled),
        call_ensures(Security::open, (&current.config.security, &found), opened),
    ensures
        settled.0 is Some <==> current.config.security.auto_update && report is Ok
            && report->Ok_0.updated@.len() > 0 && opened is Ok,
        settled.0 is Some ==> {
            let next = settled.0->0;
            &&& *next.config == *current.config
            &&& *next.ip2region == *current.ip2region
            &&& *next.language == *current.language
            &&& forall|ip: crate::address::IpAddr| #[trigger]
                next.security.guard().vpn.has(ip) == opened->Ok_0.guard().vpn.has(ip)
            &&& forall|ip: crate::address::IpAddr| #[trigger]
                next.security.guard().tor.has(ip) == opened->Ok_0.guard().tor.has(ip)
            &&& forall|ip: crate::address::IpAddr| #[trigger]
                next.security.guard().spam.has(ip) == opened->Ok_0.guard().spam.has(ip)
            &&& forall|ip: crate::address::IpAddr| #[trigger]
                next.security.guard().allowlist.has(ip) == opened->Ok_0.guard().allowlist.has(ip)
            &&& next.security.guard().needles == opened->Ok_0.guard().needles
            &&& next.security.guard().enabled == current.config.security.enabled
        },
{
}

/// A state that was loaded is made of the configuration, the language and the databases that
/// it was loaded with, and of the lists of the configuration; it fails exactly where these
/// cannot be read.
pub proof fn lemma_loaded_state_is_what_was_read(
    located: Located,
    downloaded: Result<Vec<DownloadedList>, Problem>,
    found: ListTexts,
    opened: Result<Security, Problem>,
    outcome: (Vec<LogLine>, Result<RuntimeState, Problem>),
)
    requires
        call_ensures(Located::on_lists, (located, downloaded, &found), outcome),
        call_ensures(Security::open, (&located.config.security, &found), opened),
    ensures
        outcome.1 is Ok <==> opened is Ok,
        outcome.1 is Err ==> outcome.1->Err_0@ == opened->Err_0@,
        outcome.1 is Ok ==> {
            let state = outcome.1->Ok_0;
            &&& *state.config == located.config
            &&& *state.language == located.language
            &&& *state.ip2region == located.ip2region
            &&& forall|ip: crate::address::IpAddr| #[trigger]
                state.security.guard().vpn.has(ip) == opened->Ok_0.guard().vpn.has(ip)
            &&& forall|ip: crate::address::IpAddr| #[trigger]
                state.security.guard().tor.has(ip) == opened->Ok_0.guard().tor.has(ip)
            &&& forall|ip: crate::address::IpAddr| #[trigger]
                state.security.guard().spam.has(ip) == opened->Ok_0.guard().spam.has(ip)
            &&& forall|ip: crate::address::IpAddr| #[trigger]
                state.security.guard().allowlist.has(ip) == opened->Ok_0.guard().allowlist.has(ip)
        },
{
}

/// A state is loaded with the paths of its data files seen from the configuration file; a path
/// that is empty or not set stays so, and nothing else is changed. The language file has the
/// name of the locale.
pub proof fn lemma_paths_of_a_loaded_state(
    config: AppConfig,
    config_path: &str,
    loading: Loading,
    path: Option<String>,
    whole: Option<String>,
)
    requires
        call_ensures(begin_load, (config, config_path), loading),
        (path == config.ip2region.v4_db && whole == loading.config.ip2region.v4_db) || (path
            == config.ip2region.v6_db && whole == loading.config.ip2region.v6_db) || (path
            == config.security.tor_exit_list && whole == loading.config.security.tor_exit_list) || (
        path == config.security.spam_list && whole == loading.config.security.spam_list) || (path
            == config.security.vpn_ipv4_list && whole == loading.config.security.vpn_ipv4_list) || (
        path == config.security.vpn_ipv6_list && whole == loading.config.security.vpn_ipv6_list),
    ensures
        path is None ==> whole is None,
        path is Some && path->0@.len() == 0 ==> whole is Some && whole->0@.len() == 0,
        path is Some && path->0@.len() > 0 ==> whole is Some && whole->0@ == path::resolved(
            config_path@,
            path->0@,
        ),
        loading.config.server == config.server,
        loading.config.routing == config.routing,
        loading.config.vhosts == config.vhosts,
        loading.config.language == config.language,
        loading.config.logging == config.logging,
        loading.config.security.enabled == config.security.enabled,
        loading.config.security.allowlist == config.security.allowlist,
        loading.language_path@ == path::joined(
            path::resolved(config_path@, config.language.directory@),
            config.language.locale@ + ".toml"@,
        ),
{
}

} // verus!

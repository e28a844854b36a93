//! The configuration of the gateway: what it holds, its defaults, and when it is accepted.
pub use crate::routing::{LineTarget, RouteRule, RoutingConfig, RoutingGroup};
pub use crate::templates::{DEFAULT_CONFIG_TEMPLATE, DEFAULT_VHOST_TEMPLATES};
pub use crate::vhosts::VhostsConfig;

use crate::ip2region::IpLocation;
use crate::language::{DEFAULT_LANGUAGE_DIRECTORY, DEFAULT_LOCALE};
use crate::path::{self, configured_path, directory, join, resolve_if_set, resolve_relative_path};
use crate::problem::{self, Problem, Report};
use crate::protocol::{self, is_supported_protocol, LATEST_SNAPSHOT_PROTOCOL, SUPPORTED_VERSION_RANGE};
use crate::routing::{self, Choice, Visit};
use crate::security::Security;
use crate::text::{self, blank, cat2, cat4, is_ascii_alphanumeric, signed_to_text, to_chars};
use crate::url::{self, validate_http_url};
use vstd::prelude::*;
use vstd::string::*;

verus! {

/// The configuration of the gateway.
#[derive(Debug, Clone)]
pub struct AppConfig {
    pub server: ServerConfig,
    pub ip2region: Ip2RegionConfig,
    pub security: SecurityConfig,
    pub routing: Option<RoutingConfig>,
    pub vhosts: Option<VhostsConfig>,
    pub language: LanguageConfig,
    pub logging: LoggingConfig,
}

impl AppConfig {
    /// What is wrong with the lines of the configuration: they stand either in `routing` or
    /// in the files of `vhosts`.
    pub open spec fn lines_problem(self) -> Option<Report> {
        match (self.routing, self.vhosts) {
            (Some(_), Some(_)) => Some(problem::plain("configure either routing or vhosts, not both"@)),
            (Some(routing), None) => routing.problem(),
            (None, Some(vhosts)) => vhosts.problem(),
            (None, None) => Some(problem::plain("routing or vhosts must be configured"@)),
        }
    }

    /// What is wrong with the configuration: its parts are looked at in a fixed order.
    pub open spec fn problem(self) -> Option<Report> {
        if self.server.problem() is Some {
            self.server.problem()
        } else if self.ip2region.problem() is Some {
            self.ip2region.problem()
        } else if self.security.problem() is Some {
            self.security.problem()
        } else if self.lines_problem() is Some {
            self.lines_problem()
        } else {
            self.language.problem()
        }
    }

    pub fn validate(&self) -> (outcome: Result<(), Problem>)
        ensures
            problem::failure(outcome) == self.problem(),
    {
        match self.server.validate() {
            Ok(_) => {},
            Err(problem) => {
                return Err(problem);
            },
        }
        match self.ip2region.validate() {
            Ok(_) => {},
            Err(problem) => {
                return Err(problem);
            },
        }
        match self.security.validate() {
            Ok(_) => {},
            Err(problem) => {
                return Err(problem);
            },
        }
        let lines = match (&self.routing, &self.vhosts) {
            (Some(_), Some(_)) => Err(
                Problem::new("configure either routing or vhosts, not both".to_owned()),
            ),
            (Some(routing), None) => routing.validate(),
            (None, Some(vhosts)) => vhosts.validate(),
            (None, None) => Err(Problem::new("routing or vhosts must be configured".to_owned())),
        };
        match lines {
            Ok(_) => {},
            Err(problem) => {
                return Err(problem);
            },
        }
        self.language.validate()
    }

    /// What is wrong with reading the files of the hosts.
    pub open spec fn files_problem(
        self,
        config_path: Seq<char>,
        found: Seq<Result<RoutingConfig, Problem>>,
    ) -> Option<Report> {
        match self.vhosts {
            Some(vhosts) => problem::first_problem(vhosts.load_findings(config_path, found)),
            None => None,
        }
    }

    /// How many host files the configuration names.
    pub open spec fn file_count(self) -> nat {
        match self.vhosts {
            Some(vhosts) => vhosts.files.names().len(),
            None => 0,
        }
    }

    /// Completes a configuration that was just read: takes up the routing of its hosts, where
    /// `found` holds, file by file, the routing in the file or why it cannot be read; and
    /// checks the whole.
    pub fn load(
        config: AppConfig,
        config_path: &str,
        found: Vec<Result<RoutingConfig, Problem>>,
    ) -> (outcome: Result<AppConfig, Problem>)
        requires
            found@.len() == config.file_count(),
        ensures
            match outcome {
                Ok(complete) => {
                    &&& config.files_problem(config_path@, found@) is None
                    &&& config.completed_by(complete, found@)
                    &&& complete.problem() is None
                    &&& complete.groups_have_hosts()
                },
                Err(problem) => match config.files_problem(config_path@, found@) {
                    Some(report) => problem@ == report,
                    None => config.completes_badly(found@, problem@),
                },
            },
    {
        let AppConfig { server, ip2region, security, routing, vhosts, language, logging } = config;
        let vhosts = match vhosts {
            Some(mut vhosts) => {
                match vhosts.load(config_path, found) {
                    Ok(_) => {},
                    Err(problem) => {
                        return Err(problem);
                    },
                }
                Some(vhosts)
            },
            None => None,
        };
        let complete = AppConfig { server, ip2region, security, routing, vhosts, language, logging };
        assert(config.completed_by(complete, found@));
        match complete.validate() {
            Ok(_) => {
                proof {
                    lemma_complete_config_has_hosts(config, complete, found@);
                }
                Ok(complete)
            },
            Err(problem) => Err(problem),
        }
    }

    /// Whether the configuration with the routing that was found in its host files has a
    /// problem.
    pub open spec fn completes_badly(
        self,
        found: Seq<Result<RoutingConfig, Problem>>,
        report: Report,
    ) -> bool {
        exists|complete: AppConfig| #[trigger]
            self.completed_by(complete, found) && complete.problem() == Some(report)
    }

    /// Whether a configuration is `self` with the routing that was found in its host files.
    pub open spec fn completed_by(
        self,
        complete: AppConfig,
        found: Seq<Result<RoutingConfig, Problem>>,
    ) -> bool {
        &&& complete == (AppConfig { vhosts: complete.vhosts, ..self })
        &&& match (self.vhosts, complete.vhosts) {
            (Some(before), Some(after)) => {
                &&& after.default == before.default
                &&& after.files == before.files
                &&& after.routes.well_formed()
                &&& forall|i: int|
                    0 <= i < found.len() ==> after.routes.find(#[trigger] before.files.names()[i])
                        == Some(found[i]->Ok_0)
                &&& forall|name: Seq<char>|
                    !before.files.names().contains(name) ==> #[trigger] after.routes.find(name)
                        is None
            },
            (None, None) => true,
            _ => false,
        }
    }

    /// Whether `self` is `before` with the paths of its data files seen from the
    /// configuration file.
    pub open spec fn is_resolved(self, before: Self, config_path: Seq<char>) -> bool {
        &&& self.ip2region.is_resolved(before.ip2region, config_path)
        &&& self.security.is_resolved(before.security, config_path)
        &&& self == (AppConfig { ip2region: self.ip2region, security: self.security, ..before })
    }

    pub fn resolve_paths(&mut self, config_path: &str)
        ensures
            final(self).is_resolved(*old(self), config_path@),
    {
        self.ip2region.resolve_paths(config_path);
        self.security.resolve_paths(config_path);
    }

    /// Whether every group of the routing in use has a host.
    pub open spec fn groups_have_hosts(self) -> bool {
        match (self.vhosts, self.routing) {
            (Some(vhosts), _) => vhosts.groups_have_hosts(),
            (None, Some(routing)) => routing.groups_have_hosts(),
            (None, None) => true,
        }
    }

    /// Whether the names of all lines are in order, as they are in any map.
    pub open spec fn lines_well_formed(self) -> bool {
        &&& self.routing matches Some(routing) ==> routing.lines.well_formed()
        &&& self.vhosts matches Some(vhosts) ==> forall|i: int|
            0 <= i < vhosts.routes.names().len() ==> (
            #[trigger] vhosts.routes.values()[i]).lines.well_formed()
    }

    /// Whether no rule of any host names a condition on the player.
    pub open spec fn takes_any_player(self) -> bool {
        match (self.vhosts, self.routing) {
            (Some(vhosts), _) => forall|i: int|
                0 <= i < vhosts.routes.names().len() ==> (
                #[trigger] vhosts.routes.values()[i]).takes_any_player(),
            (None, Some(routing)) => routing.takes_any_player(),
            (None, None) => true,
        }
    }

    /// Where a connection is sent.
    pub open spec fn choice(self, visit: Visit) -> Choice {
        match (self.vhosts, self.routing) {
            (Some(vhosts), _) => vhosts.choice(visit),
            (None, Some(routing)) => routing.choice(visit),
            (None, None) => Choice::Nowhere,
        }
    }

    /// The route for a connection.
    pub fn select_route_with_host_context(
        &self,
        location: &IpLocation,
        player: Option<&str>,
        request_host: Option<&str>,
        security: &Security,
        balance_key: &str,
    ) -> (route: Option<(String, LineTarget)>)
        requires
            self.groups_have_hosts(),
        ensures
            routing::routed(
                self.choice(routing::visit_of(*location, player, request_host, Some(security))),
                balance_key@,
                route,
            ),
    {
        match &self.vhosts {
            Some(vhosts) => {
                return vhosts.select_route_with_context(
                    location,
                    player,
                    request_host,
                    security,
                    balance_key,
                );
            },
            None => {},
        }
        match &self.routing {
            Some(routing) => routing.select_route_with_host_context(
                location,
                player,
                request_host,
                security,
                balance_key,
            ),
            None => None,
        }
    }
}

/// A configuration that was completed and has no problems can be used for routing: every
/// group has a host.
pub proof fn lemma_complete_config_has_hosts(
    config: AppConfig,
    complete: AppConfig,
    found: Seq<Result<RoutingConfig, Problem>>,
)
    requires
        config.completed_by(complete, found),
        complete.problem() is None,
    ensures
        complete.groups_have_hosts(),
{
    match (complete.vhosts, complete.routing) {
        (Some(vhosts), None) => {
            let visit: Visit = arbitrary();
            crate::vhosts::lemma_valid_vhosts_answer(vhosts, visit);
        },
        (None, Some(routing)) => {
            crate::routing::lemma_valid_groups_have_hosts(routing);
        },
        _ => {},
    }
}

/// A configuration that was completed and has no problems leads to hosts that are named, fit
/// in a packet, and have a port.
pub proof fn lemma_complete_config_leads_to_usable_hosts(
    config: AppConfig,
    complete: AppConfig,
    found: Seq<Result<RoutingConfig, Problem>>,
    visit: Visit,
    key: Seq<char>,
    target: LineTarget,
)
    requires
        config.completed_by(complete, found),
        complete.problem() is None,
        complete.lines_well_formed(),
        routing::can_come_to(complete.choice(visit), key, target),
    ensures
        !text::is_blank(target.host@),
        routing::byte_length(target.host@) <= 255,
        target.port > 0,
{
    match (complete.vhosts, complete.routing) {
        (Some(vhosts), None) => {
            crate::vhosts::lemma_valid_vhosts_answer(vhosts, visit);
            let i = vhosts.answers(visit)->0;
            let routing = vhosts.routes.values()[i];
            routing::lemma_valid_route_is_usable(routing, visit, key, target);
        },
        (None, Some(routing)) => {
            routing::lemma_valid_route_is_usable(routing, visit, key, target);
        },
        _ => {},
    }
}

/// The settings of the listener and of the status answer.
#[derive(Debug, Clone)]
pub struct ServerConfig {
    pub bind: String,
    pub max_connections: usize,
    pub login_timeout_ms: u64,
    pub max_frame_length: usize,
    pub supported_protocols: Vec<i32>,
    pub status_version_name: String,
    pub status_protocol: i32,
    pub max_players: u32,
    pub motd: String,
    pub strict_error_handling: bool,
}

/// The first protocol number of a list that is not supported.
pub open spec fn first_unsupported(versions: Seq<i32>) -> Option<i32>
    decreases versions.len(),
{
    if versions.len() == 0 {
        None
    } else if first_unsupported(versions.drop_last()) is Some {
        first_unsupported(versions.drop_last())
    } else if !protocol::is_supported(versions.last()) {
        Some(versions.last())
    } else {
        None
    }
}

/// A list has an unsupported number exactly when one of its numbers is not supported.
pub proof fn lemma_first_unsupported(versions: Seq<i32>)
    ensures
        first_unsupported(versions) is None <==> forall|i: int|
            0 <= i < versions.len() ==> protocol::is_supported(#[trigger] versions[i]),
    decreases versions.len(),
{
    if versions.len() > 0 {
        lemma_first_unsupported(versions.drop_last());
        if first_unsupported(versions) is None {
            assert forall|i: int| 0 <= i < versions.len() implies protocol::is_supported(
                #[trigger] versions[i],
            ) by {
                if i < versions.len() - 1 {
                    assert(versions.drop_last()[i] == versions[i]);
                }
            }
        }
    }
}

impl ServerConfig {
    /// What is wrong with the settings.
    pub open spec fn problem(self) -> Option<Report> {
        if text::is_blank(self.bind@) {
            Some(problem::plain("server.bind must not be empty"@))
        } else if self.max_connections == 0 {
            Some(problem::plain("server.max_connections must be greater than zero"@))
        } else if self.login_timeout_ms == 0 {
            Some(problem::plain("server.login_timeout_ms must be greater than zero"@))
        } else if !(1024 <= self.max_frame_length <= 16777216) {
            Some(problem::plain("server.max_frame_length must be between 1024 and 16777216"@))
        } else if first_unsupported(self.supported_protocols@) is Some {
            Some(
                problem::plain(
                    "server.supported_protocols contains unsupported protocol "@ + text::signed_decimal(
                        first_unsupported(self.supported_protocols@)->0 as int,
                    ) + "; supported range is "@ + SUPPORTED_VERSION_RANGE@,
                ),
            )
        } else if self.status_protocol < 0 {
            Some(problem::plain("server.status_protocol must not be negative"@))
        } else {
            None
        }
    }

    pub fn validate(&self) -> (outcome: Result<(), Problem>)
        ensures
            problem::failure(outcome) == self.problem(),
    {
        if blank(self.bind.as_str()) {
            return Err(Problem::new("server.bind must not be empty".to_owned()));
        }
        if self.max_connections == 0 {
            return Err(
                Problem::new("server.max_connections must be greater than zero".to_owned()),
            );
        }
        if self.login_timeout_ms == 0 {
            return Err(
                Problem::new("server.login_timeout_ms must be greater than zero".to_owned()),
            );
        }
        if self.max_frame_length < 1024 || self.max_frame_length > 16777216 {
            return Err(
                Problem::new(
                    "server.max_frame_length must be between 1024 and 16777216".to_owned(),
                ),
            );
        }
        let ghost versions = self.supported_protocols@;
        let mut i: usize = 0;
        while i < self.supported_protocols.len()
            invariant
                versions == self.supported_protocols@,
                i <= versions.len(),
                first_unsupported(versions.take(i as int)) is None,
                !text::is_blank(self.bind@),
                self.max_connections != 0,
                self.login_timeout_ms != 0,
                1024 <= self.max_frame_length <= 16777216,
            decreases versions.len() - i,
        {
            let version: i32 = self.supported_protocols[i];
            assert(versions.take(i + 1).drop_last() =~= versions.take(i as int));
            if !is_supported_protocol(version) {
                proof {
                    lemma_first_unsupported_stays(versions, i + 1);
                }
                return Err(
                    Problem::new(
                        cat4(
                            "server.supported_protocols contains unsupported protocol ",
                            signed_to_text(version as i64).as_str(),
                            "; supported range is ",
                            SUPPORTED_VERSION_RANGE,
                        ),
                    ),
                );
            }
            i += 1;
        }
        assert(versions.take(versions.len() as int) =~= versions);
        if self.status_protocol < 0 {
            return Err(Problem::new("server.status_protocol must not be negative".to_owned()));
        }
        Ok(())
    }
}

proof fn lemma_first_unsupported_stays(versions: Seq<i32>, n: int)
    requires
        0 <= n <= versions.len(),
        first_unsupported(versions.take(n)) is Some,
    ensures
        first_unsupported(versions) == first_unsupported(versions.take(n)),
    decreases versions.len() - n,
{
    if n < versions.len() {
        assert(versions.take(n + 1).drop_last() =~= versions.take(n));
        lemma_first_unsupported_stays(versions, n + 1);
    } else {
        assert(versions.take(n) =~= versions);
    }
}

/// Where the location databases lie and how they are kept up to date.
#[derive(Debug, Clone)]
pub struct Ip2RegionConfig {
    pub v4_db: Option<String>,
    pub v6_db: Option<String>,
    pub auto_download: bool,
    pub auto_update: bool,
    pub update_interval_secs: u64,
    pub download_base_url: String,
}

/// An optional path as seen from the directory of a configuration file.
pub open spec fn resolved_option(config_path: Seq<char>, path: Option<Seq<char>>) -> Option<
    Seq<char>,
> {
    match path {
        Some(path) => Some(path::resolved_if_set(config_path, path)),
        None => None,
    }
}

fn resolve_option(config_path: &str, path: &Option<String>) -> (whole: Option<String>)
    ensures
        text::text_of(whole) == resolved_option(config_path@, text::text_of(*path)),
{
    match path {
        Some(path) => Some(resolve_if_set(config_path, path.as_str())),
        None => None,
    }
}

impl Ip2RegionConfig {
    /// What is wrong with the settings.
    pub open spec fn problem(self) -> Option<Report> {
        let url = url::url_problem("ip2region.download_base_url"@, self.download_base_url@);
        if (self.auto_download || self.auto_update) && url is Some {
            url
        } else if self.auto_update && self.update_interval_secs == 0 {
            Some(problem::plain("ip2region.update_interval_secs must be greater than zero"@))
        } else {
            None
        }
    }

    pub fn validate(&self) -> (outcome: Result<(), Problem>)
        ensures
            problem::failure(outcome) == self.problem(),
    {
        if self.auto_download || self.auto_update {
            match validate_http_url(
                "ip2region.download_base_url",
                self.download_base_url.as_str(),
            ) {
                Ok(_) => {},
                Err(problem) => {
                    return Err(problem);
                },
            }
        }
        if self.auto_update && self.update_interval_secs == 0 {
            return Err(
                Problem::new("ip2region.update_interval_secs must be greater than zero".to_owned()),
            );
        }
        Ok(())
    }

    /// Whether `self` is `before` with its paths seen from the configuration file.
    pub open spec fn is_resolved(self, before: Self, config_path: Seq<char>) -> bool {
        &&& text::text_of(self.v4_db) == resolved_option(config_path, text::text_of(before.v4_db))
        &&& text::text_of(self.v6_db) == resolved_option(config_path, text::text_of(before.v6_db))
        &&& self == (Ip2RegionConfig { v4_db: self.v4_db, v6_db: self.v6_db, ..before })
    }

    pub fn resolve_paths(&mut self, config_path: &str)
        ensures
            final(self).is_resolved(*old(self), config_path@),
    {
        let v4_db = resolve_option(config_path, &self.v4_db);
        let v6_db = resolve_option(config_path, &self.v6_db);
        self.v4_db = v4_db;
        self.v6_db = v6_db;
    }
}

impl Default for Ip2RegionConfig {
    fn default() -> (config: Self)
        ensures
            text::text_of(config.v4_db) == Some("./data/ip2region_v4.xdb"@),
            text::text_of(config.v6_db) == Some("./data/ip2region_v6.xdb"@),
            config.auto_download,
            !config.auto_update,
            config.update_interval_secs == 86400,
            config.download_base_url@
                == "https://raw.githubusercontent.com/lionsoul2014/ip2region/master/data"@,
    {
        Ip2RegionConfig {
            v4_db: default_ip2region_v4_db(),
            v6_db: default_ip2region_v6_db(),
            auto_download: default_ip2region_auto_download(),
            auto_update: default_ip2region_auto_update(),
            update_interval_secs: default_ip2region_update_interval_secs(),
            download_base_url: default_ip2region_download_base_url(),
        }
    }
}

/// Which connections are blocked, and where the lists for that come from.
#[derive(Debug, Clone)]
pub struct SecurityConfig {
    pub enabled: bool,
    pub block_vpn: bool,
    pub block_tor: bool,
    pub block_spam: bool,
    pub auto_download: bool,
    pub auto_update: bool,
    pub update_interval_secs: u64,
    pub tor_exit_list: Option<String>,
    pub tor_exit_list_url: String,
    pub spam_list: Option<String>,
    pub spam_list_url: String,
    pub vpn_ipv4_list: Option<String>,
    pub vpn_ipv4_list_url: String,
    pub vpn_ipv6_list: Option<String>,
    pub vpn_ipv6_list_url: String,
    pub allowlist: Vec<String>,
    pub vpn_isp_contains: Vec<String>,
}

/// What is wrong with the URL of a list, if the list is maintained at all.
pub open spec fn list_url_problem(
    blocked: bool,
    path: Option<Seq<char>>,
    field: Seq<char>,
    url: Seq<char>,
) -> Option<Report> {
    if blocked && path::is_set(path) {
        url::url_problem(field, url)
    } else {
        None
    }
}

fn validate_list_url(blocked: bool, path: &Option<String>, field: &str, url: &str) -> (outcome:
    Result<(), Problem>)
    ensures
        problem::failure(outcome) == list_url_problem(blocked, text::text_of(*path), field@, url@),
{
    if blocked && configured_path(path).is_some() {
        validate_http_url(field, url)
    } else {
        Ok(())
    }
}

impl SecurityConfig {
    /// What is wrong with the settings: the URLs of the lists that are maintained are
    /// looked at in a fixed order, then the update interval.
    pub open spec fn problem(self) -> Option<Report> {
        let maintained = (self.auto_download || self.auto_update) && self.enabled;
        let tor = list_url_problem(
            maintained && self.block_tor,
            text::text_of(self.tor_exit_list),
            "security.tor_exit_list_url"@,
            self.tor_exit_list_url@,
        );
        let spam = list_url_problem(
            maintained && self.block_spam,
            text::text_of(self.spam_list),
            "security.spam_list_url"@,
            self.spam_list_url@,
        );
        let vpn4 = list_url_problem(
            maintained && self.block_vpn,
            text::text_of(self.vpn_ipv4_list),
            "security.vpn_ipv4_list_url"@,
            self.vpn_ipv4_list_url@,
        );
        let vpn6 = list_url_problem(
            maintained && self.block_vpn,
            text::text_of(self.vpn_ipv6_list),
            "security.vpn_ipv6_list_url"@,
            self.vpn_ipv6_list_url@,
        );
        if tor is Some {
            tor
        } else if spam is Some {
            spam
        } else if vpn4 is Some {
            vpn4
        } else if vpn6 is Some {
            vpn6
        } else if self.auto_update && self.update_interval_secs == 0 {
            Some(problem::plain("security.update_interval_secs must be greater than zero"@))
        } else {
            None
        }
    }

    pub fn validate(&self) -> (outcome: Result<(), Problem>)
        ensures
            problem::failure(outcome) == self.problem(),
    {
        let maintained = (self.auto_download || self.auto_update) && self.enabled;
        match validate_list_url(
            maintained && self.block_tor,
            &self.tor_exit_list,
            "security.tor_exit_list_url",
            self.tor_exit_list_url.as_str(),
        ) {
            Ok(_) => {},
            Err(problem) => {
                return Err(problem);
            },
        }
        match validate_list_url(
            maintained && self.block_spam,
            &self.spam_list,
            "security.spam_list_url",
            self.spam_list_url.as_str(),
        ) {
            Ok(_) => {},
            Err(problem) => {
                return Err(problem);
            },
        }
        match validate_list_url(
            maintained && self.block_vpn,
            &self.vpn_ipv4_list,
            "security.vpn_ipv4_list_url",
            self.vpn_ipv4_list_url.as_str(),
        ) {
            Ok(_) => {},
            Err(problem) => {
                return Err(problem);
            },
        }
        match validate_list_url(
            maintained && self.block_vpn,
            &self.vpn_ipv6_list,
            "security.vpn_ipv6_list_url",
            self.vpn_ipv6_list_url.as_str(),
        ) {
            Ok(_) => {},
            Err(problem) => {
                return Err(problem);
            },
        }
        if self.auto_update && self.update_interval_secs == 0 {
            return Err(
                Problem::new("security.update_interval_secs must be greater than zero".to_owned()),
            );
        }
        Ok(())
    }

    /// Whether `self` is `before` with its paths seen from the configuration file.
    pub open spec fn is_resolved(self, before: Self, config_path: Seq<char>) -> bool {
        &&& text::text_of(self.tor_exit_list) == resolved_option(
            config_path,
            text::text_of(before.tor_exit_list),
        )
        &&& text::text_of(self.spam_list) == resolved_option(config_path, text::text_of(before.spam_list))
        &&& text::text_of(self.vpn_ipv4_list) == resolved_option(
            config_path,
            text::text_of(before.vpn_ipv4_list),
        )
        &&& text::text_of(self.vpn_ipv6_list) == resolved_option(
            config_path,
            text::text_of(before.vpn_ipv6_list),
        )
        &&& self == (SecurityConfig {
            tor_exit_list: self.tor_exit_list,
            spam_list: self.spam_list,
            vpn_ipv4_list: self.vpn_ipv4_list,
            vpn_ipv6_list: self.vpn_ipv6_list,
            ..before
        })
    }

    pub fn resolve_paths(&mut self, config_path: &str)
        ensures
            final(self).is_resolved(*old(self), config_path@),
    {
        let tor_exit_list = resolve_option(config_path, &self.tor_exit_list);
        let spam_list = resolve_option(config_path, &self.spam_list);
        let vpn_ipv4_list = resolve_option(config_path, &self.vpn_ipv4_list);
        let vpn_ipv6_list = resolve_option(config_path, &self.vpn_ipv6_list);
        self.tor_exit_list = tor_exit_list;
        self.spam_list = spam_list;
        self.vpn_ipv4_list = vpn_ipv4_list;
        self.vpn_ipv6_list = vpn_ipv6_list;
    }
}

impl Default for SecurityConfig {
    fn default() -> (config: Self)
        ensures
            config.enabled && config.block_vpn && config.block_tor && config.block_spam,
            config.auto_download && !config.auto_update,
            config.update_interval_secs == 86400,
            text::text_of(config.tor_exit_list) == Some("./data/tor-exit-list.txt"@),
            config.tor_exit_list_url@ == "https://check.torproject.org/torbulkexitlist"@,
            text::text_of(config.spam_list) == Some("./data/spam-ip-list.txt"@),
            config.spam_list_url@ == "https://blackip.ustc.edu.cn/list.php?txt"@,
            text::text_of(config.vpn_ipv4_list) == Some("./data/vpn-ipv4.txt"@),
            config.vpn_ipv4_list_url@
                == "https://raw.githubusercontent.com/X4BNet/lists_vpn/main/output/vpn/ipv4.txt"@,
            text::text_of(config.vpn_ipv6_list) == Some("./data/vpn-ipv6.txt"@),
            config.vpn_ipv6_list_url@
                == "https://raw.githubusercontent.com/X4BNet/lists_vpn/main/output/vpn/ipv6.txt"@,
            config.allowlist@.len() == 0,
            config.vpn_isp_contains@.len() == 0,
    {
        SecurityConfig {
            enabled: default_security_enabled(),
            block_vpn: default_security_block_vpn(),
            block_tor: default_security_block_tor(),
            block_spam: default_security_block_spam(),
            auto_download: default_security_auto_download(),
            auto_update: default_security_auto_update(),
            update_interval_secs: default_security_update_interval_secs(),
            tor_exit_list: default_tor_exit_list(),
            tor_exit_list_url: default_tor_exit_list_url(),
            spam_list: default_spam_list(),
            spam_list_url: default_spam_list_url(),
            vpn_ipv4_list: default_vpn_ipv4_list(),
            vpn_ipv4_list_url: default_vpn_ipv4_list_url(),
            vpn_ipv6_list: default_vpn_ipv6_list(),
            vpn_ipv6_list_url: default_vpn_ipv6_list_url(),
            allowlist: Vec::new(),
            vpn_isp_contains: Vec::new(),
        }
    }
}

/// Which language file is used.
#[derive(Debug, Clone)]
pub struct LanguageConfig {
    pub locale: String,
    pub directory: String,
}

pub open spec fn is_locale_char(c: char) -> bool {
    text::is_alphanumeric_ascii(c) || c == '.' || c == '-' || c == '_'
}

/// Whether a text can name a language file.
pub open spec fn is_locale(text: Seq<char>) -> bool {
    text.len() > 0 && forall|i: int| 0 <= i < text.len() ==> is_locale_char(#[trigger] text[i])
}

fn valid_locale(text: &str) -> (yes: bool)
    ensures
        yes == is_locale(text@),
{
    let chars = to_chars(text);
    let mut i: usize = 0;
    while i < chars.len()
        invariant
            chars@ == text@,
            i <= chars.len(),
            forall|k: int| 0 <= k < i ==> is_locale_char(#[trigger] text@[k]),
        decreases chars.len() - i,
    {
        let c = chars[i];
        if !(is_ascii_alphanumeric(c) || c == '.' || c == '-' || c == '_') {
            return false;
        }
        i += 1;
    }
    chars.len() > 0
}

impl LanguageConfig {
    /// What is wrong with the settings.
    pub open spec fn problem(self) -> Option<Report> {
        if !is_locale(self.locale@) {
            Some(
                problem::plain(
                    "language.locale must contain only ASCII letters, digits, '.', '-' or '_'"@,
                ),
            )
        } else if self.directory@.len() == 0 {
            Some(problem::plain("language.directory must not be empty"@))
        } else {
            None
        }
    }

    pub fn validate(&self) -> (outcome: Result<(), Problem>)
        ensures
            problem::failure(outcome) == self.problem(),
    {
        if !valid_locale(self.locale.as_str()) {
            return Err(
                Problem::new(
                    "language.locale must contain only ASCII letters, digits, '.', '-' or '_'".to_owned(),
                ),
            );
        }
        if self.directory.as_str().is_empty() {
            return Err(Problem::new("language.directory must not be empty".to_owned()));
        }
        Ok(())
    }

    /// The path of the language file.
    pub fn file_path(&self, config_path: &str) -> (path: String)
        ensures
            path@ == path::joined(path::resolved(config_path@, self.directory@), self.locale@ + ".toml"@),
    {
        let directory = resolve_relative_path(config_path, self.directory.as_str());
        let name = cat2(self.locale.as_str(), ".toml");
        join(directory.as_str(), name.as_str())
    }
}

impl Default for LanguageConfig {
    fn default() -> (config: Self)
        ensures
            config.locale@ == DEFAULT_LOCALE@,
            config.directory@ == DEFAULT_LANGUAGE_DIRECTORY@,
    {
        LanguageConfig { locale: default_locale(), directory: default_language_directory() }
    }
}

/// Where the log is written to.
#[derive(Debug, Clone)]
pub struct LoggingConfig {
    pub file: Option<String>,
}

impl LoggingConfig {
    /// The path of the log file; none if it is not set, or set to the empty text.
    pub fn file_path(&self, config_path: &str) -> (path: Option<String>)
        ensures
            text::text_of(path) == if path::is_set(text::text_of(self.file)) {
                Some(path::resolved(config_path@, text::text_of(self.file)->0))
            } else {
                None
            },
    {
        match configured_path(&self.file) {
            Some(path) => Some(resolve_relative_path(config_path, path)),
            None => None,
        }
    }
}

impl Default for LoggingConfig {
    fn default() -> (config: Self)
        ensures
            text::text_of(config.file) == Some("./logs/gateway.log"@),
    {
        LoggingConfig { file: default_log_file() }
    }
}

/// The directory of a configuration file.
pub fn config_directory(path: &str) -> (parent: &str)
    ensures
        parent@ == path::directory_of(path@),
{
    directory(path)
}

pub fn default_bind() -> (value: String)
    ensures
        value@ == "0.0.0.0:25565"@,
{
    "0.0.0.0:25565".to_owned()
}

pub fn default_max_connections() -> (value: usize)
    ensures
        value == 4096,
{
    4096
}

pub fn default_login_timeout_ms() -> (value: u64)
    ensures
        value == 10_000,
{
    10_000
}

pub fn default_max_frame_length() -> (value: usize)
    ensures
        value == 2 * 1024 * 1024,
{
    2 * 1024 * 1024
}

pub fn default_supported_protocols() -> (value: Vec<i32>)
    ensures
        value@.len() == 0,
{
    Vec::new()
}

pub fn default_status_version_name() -> (value: String)
    ensures
        value@ == SUPPORTED_VERSION_RANGE@,
{
    SUPPORTED_VERSION_RANGE.to_owned()
}

pub fn default_status_protocol() -> (value: i32)
    ensures
        value == LATEST_SNAPSHOT_PROTOCOL,
{
    LATEST_SNAPSHOT_PROTOCOL
}

pub fn default_max_players() -> (value: u32)
    ensures
        value == 100,
{
    100
}

pub fn default_motd() -> (value: String)
    ensures
        value@ == "Transfer Gateway"@,
{
    "Transfer Gateway".to_owned()
}

pub fn default_ip2region_v4_db() -> (value: Option<String>)
    ensures
        text::text_of(value) == Some("./data/ip2region_v4.xdb"@),
{
    Some("./data/ip2region_v4.xdb".to_owned())
}

pub fn default_ip2region_v6_db() -> (value: Option<String>)
    ensures
        text::text_of(value) == Some("./data/ip2region_v6.xdb"@),
{
    Some("./data/ip2region_v6.xdb".to_owned())
}

pub fn default_ip2region_auto_download() -> (value: bool)
    ensures
        value,
{
    true
}

pub fn default_ip2region_auto_update() -> (value: bool)
    ensures
        !value,
{
    false
}

pub fn default_ip2region_update_interval_secs() -> (value: u64)
    ensures
        value == 24 * 60 * 60,
{
    24 * 60 * 60
}

pub fn default_ip2region_download_base_url() -> (value: String)
    ensures
        value@ == "https://raw.githubusercontent.com/lionsoul2014/ip2region/master/data"@,
{
    "https://raw.githubusercontent.com/lionsoul2014/ip2region/master/data".to_owned()
}

pub fn default_security_enabled() -> (value: bool)
    ensures
        value,
{
    true
}

pub fn default_security_block_vpn() -> (value: bool)
    ensures
        value,
{
    true
}

pub fn default_security_block_tor() -> (value: bool)
    ensures
        value,
{
    true
}

pub fn default_security_block_spam() -> (value: bool)
    ensures
        value,
{
    true
}

pub fn default_security_auto_download() -> (value: bool)
    ensures
        value,
{
    true
}

pub fn default_security_auto_update() -> (value: bool)
    ensures
        !value,
{
    false
}

pub fn default_security_update_interval_secs() -> (value: u64)
    ensures
        value == 24 * 60 * 60,
{
    24 * 60 * 60
}

pub fn default_tor_exit_list() -> (value: Option<String>)
    ensures
        text::text_of(value) == Some("./data/tor-exit-list.txt"@),
{
    Some("./data/tor-exit-list.txt".to_owned())
}

pub fn default_tor_exit_list_url() -> (value: String)
    ensures
        value@ == "https://check.torproject.org/torbulkexitlist"@,
{
    "https://check.torproject.org/torbulkexitlist".to_owned()
}

pub fn default_spam_list() -> (value: Option<String>)
    ensures
        text::text_of(value) == Some("./data/spam-ip-list.txt"@),
{
    Some("./data/spam-ip-list.txt".to_owned())
}

pub fn default_spam_list_url() -> (value: String)
    ensures
        value@ == "https://blackip.ustc.edu.cn/list.php?txt"@,
{
    "https://blackip.ustc.edu.cn/list.php?txt".to_owned()
}

pub fn default_vpn_ipv4_list() -> (value: Option<String>)
    ensures
        text::text_of(value) == Some("./data/vpn-ipv4.txt"@),
{
    Some("./data/vpn-ipv4.txt".to_owned())
}

pub fn default_vpn_ipv4_list_url() -> (value: String)
    ensures
        value@ == "https://raw.githubusercontent.com/X4BNet/lists_vpn/main/output/vpn/ipv4.txt"@,
{
    "https://raw.githubusercontent.com/X4BNet/lists_vpn/main/output/vpn/ipv4.txt".to_owned()
}

pub fn default_vpn_ipv6_list() -> (value: Option<String>)
    ensures
        text::text_of(value) == Some("./data/vpn-ipv6.txt"@),
{
    Some("./data/vpn-ipv6.txt".to_owned())
}

pub fn default_vpn_ipv6_list_url() -> (value: String)
    ensures
        value@ == "https://raw.githubusercontent.com/X4BNet/lists_vpn/main/output/vpn/ipv6.txt"@,
{
    "https://raw.githubusercontent.com/X4BNet/lists_vpn/main/output/vpn/ipv6.txt".to_owned()
}

pub fn default_line() -> (value: String)
    ensures
        value@ == "default"@,
{
    "default".to_owned()
}

pub fn default_group_mode() -> (value: String)
    ensures
        value@ == "round_robin"@,
{
    "round_robin".to_owned()
}

pub fn default_group_port() -> (value: u16)
    ensures
        value == 25565,
{
    25565
}

pub fn default_line_port() -> (value: u16)
    ensures
        value == 25565,
{
    25565
}

pub fn default_resolve_srv() -> (value: bool)
    ensures
        !value,
{
    false
}

pub fn default_locale() -> (value: String)
    ensures
        value@ == DEFAULT_LOCALE@,
{
    DEFAULT_LOCALE.to_owned()
}

pub fn default_language_directory() -> (value: String)
    ensures
        value@ == DEFAULT_LANGUAGE_DIRECTORY@,
{
    DEFAULT_LANGUAGE_DIRECTORY.to_owned()
}

pub fn default_log_file() -> (value: Option<String>)
    ensures
        text::text_of(value) == Some("./logs/gateway.log"@),
{
    Some("./logs/gateway.log".to_owned())
}

/// A client that asks for the state of the server is led where a player from the same
/// address with the same request is led, as long as no rule names a condition on the player.
pub proof fn lemma_status_follows_the_routes_of_logins(
    config: AppConfig,
    visit: Visit,
    other: Visit,
)
    requires
        config.takes_any_player(),
        other == (Visit { player: other.player, ..visit }),
    ensures
        config.choice(visit) == config.choice(other),
{
    match (config.vhosts, config.routing) {
        (Some(vhosts), _) => {
            match vhosts.answers(visit) {
                Some(i) => {
                    match visit.host {
                        Some(host) => {
                            crate::vhosts::lemma_first_named(vhosts.routes.names(), host);
                        },
                        None => {},
                    }
                    crate::vhosts::lemma_first_named(vhosts.routes.names(), vhosts.default@);
                    routing::lemma_player_makes_no_difference(
                        vhosts.routes.values()[i],
                        visit,
                        other,
                    );
                },
                None => {},
            }
        },
        (None, Some(routing)) => {
            routing::lemma_player_makes_no_difference(routing, visit, other);
        },
        (None, None) => {},
    }
}

/// A connection is routed by the hosts of the configuration, with all that is known of it;
/// without hosts by its `routing`; without either not at all. What comes back is what they
/// give when they are asked alone.
pub proof fn lemma_configuration_hands_the_connection_on(
    config: AppConfig,
    location: IpLocation,
    player: Option<&str>,
    host: Option<&str>,
    security: &Security,
    key: &str,
    route: Option<(String, LineTarget)>,
    alone: Option<(String, LineTarget)>,
)
    requires
        config.groups_have_hosts(),
        call_ensures(
            AppConfig::select_route_with_host_context,
            (&config, &location, player, host, security, key),
            route,
        ),
        config.vhosts is Some ==> call_ensures(
            VhostsConfig::select_route_with_context,
            (&config.vhosts->0, &location, player, host, security, key),
            alone,
        ),
        config.vhosts is None && config.routing is Some ==> call_ensures(
            RoutingConfig::select_route_with_host_context,
            (&config.routing->0, &location, player, host, security, key),
            alone,
        ),
    ensures
        config.routing is None && config.vhosts is None ==> route is None,
        config.routing is Some || config.vhosts is Some ==> {
            &&& route is Some <==> alone is Some
            &&& route is Some ==> (route->0).0@ == (alone->0).0@
            &&& route is Some && config.vhosts is None ==> (route->0).1 == (alone->0).1 || exists|
                g: int,
            |
                0 <= g < config.routing->0.group@.len() && (
                #[trigger] config.routing->0.group@[g]).may_hand_out(key@, (route->0).1)
                    && config.routing->0.group@[g].may_hand_out(key@, (alone->0).1)
            &&& route is Some && config.vhosts is Some ==> (route->0).1 == (alone->0).1 || exists|
                i: int,
                g: int,
            |
                0 <= i < config.vhosts->0.routes.names().len() && 0 <= g
                    < config.vhosts->0.routes.values()[i].group@.len() && (
                #[trigger] config.vhosts->0.routes.values()[i].group@[g]).may_hand_out(
                    key@,
                    (route->0).1,
                ) && config.vhosts->0.routes.values()[i].group@[g].may_hand_out(
                    key@,
                    (alone->0).1,
                )
        },
{
    let visit = routing::visit_of(location, player, host, Some(security));
    match config.choice(visit) {
        Choice::Group(name, group) => {
            if config.vhosts is Some {
                let vhosts = config.vhosts->0;
                crate::vhosts::lemma_first_named(vhosts.routes.names(), vhosts.default@);
                if host is Some {
                    crate::vhosts::lemma_first_named(vhosts.routes.names(), host->0@);
                }
                let i = vhosts.answers(visit)->0;
                let routing = vhosts.routes.values()[i];
                let own = crate::routing::chosen_name(routing.choice(visit))->0;
                crate::routing::lemma_found_group(routing.group@, own);
                let g = routing.group@.index_of(group);
                assert(config.vhosts->0.routes.values()[i].group@[g] == group);
            } else {
                let routing = config.routing->0;
                crate::routing::lemma_found_group(routing.group@, name);
                let g = routing.group@.index_of(group);
                assert(config.routing->0.group@[g] == group);
            }
        },
        _ => {},
    }
}

/// The settings of the listener are accepted exactly when there is an address to listen on,
/// connections, time to log in and room for frames are allowed, all protocols that are listed
/// are supported, and the protocol that is shown is not negative.
pub proof fn lemma_accepted_server_settings(server: ServerConfig, outcome: Result<(), Problem>)
    requires
        call_ensures(ServerConfig::validate, (&server,), outcome),
    ensures
        outcome is Ok <==> {
            &&& exists|i: int| 0 <= i < server.bind@.len()
                && !text::is_space(#[trigger] server.bind@[i])
            &&& server.max_connections > 0
            &&& server.login_timeout_ms > 0
            &&& 1024 <= server.max_frame_length <= 16 * 1024 * 1024
            &&& forall|i: int|
                0 <= i < server.supported_protocols@.len() ==> protocol::is_supported(
                    #[trigger] server.supported_protocols@[i],
                )
            &&& server.status_protocol >= 0
        },
{
    lemma_first_unsupported(server.supported_protocols@);
}

/// The settings of the location databases are accepted exactly when the address to download
/// from is an HTTP one, if anything is downloaded, and there is time between updates, if there
/// are any.
pub proof fn lemma_accepted_database_settings(
    config: Ip2RegionConfig,
    outcome: Result<(), Problem>,
)
    requires
        call_ensures(Ip2RegionConfig::validate, (&config,), outcome),
    ensures
        outcome is Ok <==> {
            &&& config.auto_download || config.auto_update
                ==> url::parsed_scheme(config.download_base_url@) is Ok
                && (url::parsed_scheme(config.download_base_url@)->Ok_0 == "http"@
                || url::parsed_scheme(config.download_base_url@)->Ok_0 == "https"@)
            &&& config.auto_update ==> config.update_interval_secs > 0
        },
{
}

/// The settings of the lists are accepted exactly when the address of every list that is
/// maintained is an HTTP one, and there is time between updates, if there are any. A list is
/// maintained if it has a file, its own blocking and blocking as a whole are switched on, and
/// lists are downloaded or updated.
pub proof fn lemma_accepted_security_settings(config: SecurityConfig, outcome: Result<(), Problem>)
    requires
        call_ensures(SecurityConfig::validate, (&config,), outcome),
    ensures
        outcome is Ok <==> {
            let on = config.enabled && (config.auto_download || config.auto_update);
            &&& on && config.block_tor && config.tor_exit_list is Some
                && config.tor_exit_list->0@.len()
                > 0 ==> url::parsed_scheme(config.tor_exit_list_url@) is Ok
                    && (url::parsed_scheme(config.tor_exit_list_url@)->Ok_0 == "http"@
                    || url::parsed_scheme(config.tor_exit_list_url@)->Ok_0 == "https"@)
            &&& on && config.block_spam && config.spam_list is Some
                && config.spam_list->0@.len() > 0
                ==> url::parsed_scheme(config.spam_list_url@) is Ok
                    && (url::parsed_scheme(config.spam_list_url@)->Ok_0 == "http"@
                    || url::parsed_scheme(config.spam_list_url@)->Ok_0 == "https"@)
            &&& on && config.block_vpn && config.vpn_ipv4_list is Some
                && config.vpn_ipv4_list->0@.len() > 0
                    ==> url::parsed_scheme(config.vpn_ipv4_list_url@) is Ok
                    && (url::parsed_scheme(config.vpn_ipv4_list_url@)->Ok_0 == "http"@
                    || url::parsed_scheme(config.vpn_ipv4_list_url@)->Ok_0 == "https"@)
            &&& on && config.block_vpn && config.vpn_ipv6_list is Some
                && config.vpn_ipv6_list->0@.len() > 0
                    ==> url::parsed_scheme(config.vpn_ipv6_list_url@) is Ok
                    && (url::parsed_scheme(config.vpn_ipv6_list_url@)->Ok_0 == "http"@
                    || url::parsed_scheme(config.vpn_ipv6_list_url@)->Ok_0 == "https"@)
            &&& config.auto_update ==> config.update_interval_secs > 0
        },
{
}

/// The settings of the language are accepted exactly when the locale is a name made of ASCII
/// letters, digits, dots, dashes and underscores, and there is a directory.
pub proof fn lemma_accepted_language_settings(config: LanguageConfig, outcome: Result<(), Problem>)
    requires
        call_ensures(LanguageConfig::validate, (&config,), outcome),
    ensures
        outcome is Ok <==> {
            &&& config.locale@.len() > 0
            &&& config.directory@.len() > 0
            &&& forall|i: int|
                0 <= i < config.locale@.len() ==> {
                    let c = #[trigger] config.locale@[i];
                    'a' <= c <= 'z' || 'A' <= c <= 'Z' || '0' <= c <= '9' || c == '.' || c == '-'
                        || c
                        == '_'
                }
        },
{
}

/// A configuration is accepted exactly when all its parts are, and its lines stand either in
/// `routing` or in the files of its hosts, but not in both.
pub proof fn lemma_accepted_configuration(
    config: AppConfig,
    outcome: Result<(), Problem>,
    server: Result<(), Problem>,
    databases: Result<(), Problem>,
    security: Result<(), Problem>,
    lines: Result<(), Problem>,
    language: Result<(), Problem>,
)
    requires
        call_ensures(AppConfig::validate, (&config,), outcome),
        call_ensures(ServerConfig::validate, (&config.server,), server),
        call_ensures(Ip2RegionConfig::validate, (&config.ip2region,), databases),
        call_ensures(SecurityConfig::validate, (&config.security,), security),
        call_ensures(LanguageConfig::validate, (&config.language,), language),
        config.routing is Some && config.vhosts is None ==> call_ensures(
            RoutingConfig::validate,
            (&config.routing->0,),
            lines,
        ),
        config.vhosts is Some && config.routing is None ==> call_ensures(
            VhostsConfig::validate,
            (&config.vhosts->0,),
            lines,
        ),
    ensures
        outcome is Ok <==> {
            &&& server is Ok && databases is Ok && security is Ok && language is Ok
            &&& config.routing is Some <==> config.vhosts is None
            &&& lines is Ok
        },
        server is Err ==> outcome is Err && outcome->Err_0@ == server->Err_0@,
{
}

/// A configuration that was loaded is the one that was read, with the routing of its hosts,
/// and is accepted.
pub proof fn lemma_loaded_configuration_is_accepted(
    config: AppConfig,
    config_path: &str,
    found: Vec<Result<RoutingConfig, Problem>>,
    complete: AppConfig,
    judged: Result<(), Problem>,
    k: int,
)
    requires
        found@.len() == config.file_count(),
        call_ensures(
            AppConfig::load,
            (config, config_path, found),
            Ok::<AppConfig, Problem>(complete),
        ),
        call_ensures(AppConfig::validate, (&complete,), judged),
    ensures
        judged is Ok,
        complete.server == config.server,
        complete.ip2region == config.ip2region,
        complete.security == config.security,
        complete.language == config.language,
        complete.logging == config.logging,
        complete.routing == config.routing,
        complete.vhosts is Some <==> config.vhosts is Some,
        config.vhosts is Some && 0 <= k < found@.len() ==> found@[k] is Ok
            && complete.vhosts->0.routes.find(
            config.vhosts->0.files.names()[k],
        ) == Some(found@[k]->Ok_0),
{
    if config.vhosts is Some {
        let findings = config.vhosts->0.load_findings(config_path@, found@);
        problem::lemma_no_problem(findings);
        if 0 <= k < found@.len() {
            assert(findings[k] is None);
        }
    }
}

} // verus!

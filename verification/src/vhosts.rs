//! One routing for each host that players ask for.
use crate::document::{self, entry, parse_document, TomlView};
use crate::ip2region::IpLocation;
use crate::matching::{self, normalize_host};
use crate::names::NameMap;
use crate::path::{self, resolve_relative_path};
use crate::problem::{self, Problem, Report};
use crate::routing::{self, longer_than_255, Choice, LineTarget, RoutingConfig, Visit};
use crate::security::Security;
use crate::text::{self, blank, cat2, cat3, cat4, eq_ignore_ascii_case};
use vstd::prelude::*;
use vstd::string::*;

verus! {

/// The hosts that players ask for, the files with their routing, and the routing once it
/// has been read.
#[derive(Debug, Clone)]
pub struct VhostsConfig {
    pub default: String,
    pub files: NameMap<String>,
    pub routes: NameMap<RoutingConfig>,
}

/// Whether two names mean the same host.
pub open spec fn same_host(a: Seq<char>, b: Seq<char>) -> bool {
    text::same_ignoring_case(matching::host_form(a), matching::host_form(b))
}

/// The first of the names that means a host.
pub open spec fn first_named(names: Seq<Seq<char>>, host: Seq<char>) -> Option<int>
    decreases names.len(),
{
    if names.len() == 0 {
        None
    } else {
        match first_named(names.drop_last(), host) {
            Some(i) => Some(i),
            None => if same_host(names.last(), host) {
                Some(names.len() - 1)
            } else {
                None
            },
        }
    }
}

/// The first of the names that means a host is such a name, and none before it is.
pub proof fn lemma_first_named(names: Seq<Seq<char>>, host: Seq<char>)
    ensures
        match first_named(names, host) {
            Some(i) => {
                &&& 0 <= i < names.len()
                &&& same_host(names[i], host)
                &&& forall|k: int| 0 <= k < i ==> !same_host(#[trigger] names[k], host)
            },
            None => forall|k: int|
                0 <= k < names.len() ==> !same_host(#[trigger] names[k], host),
        },
    decreases names.len(),
{
    if names.len() > 0 {
        let rest = names.drop_last();
        lemma_first_named(rest, host);
        assert(forall|k: int| 0 <= k < rest.len() ==> rest[k] == names[k]);
    }
}

proof fn lemma_first_named_at(names: Seq<Seq<char>>, host: Seq<char>, i: int)
    requires
        0 <= i <= names.len(),
        forall|k: int| 0 <= k < i ==> !same_host(#[trigger] names[k], host),
        i < names.len() ==> same_host(names[i], host),
    ensures
        first_named(names, host) == if i < names.len() {
            Some(i)
        } else {
            None
        },
{
    lemma_first_named(names, host);
}

/// The host that answers for a request: the one that was asked for, or else the default.
pub open spec fn answering(
    names: Seq<Seq<char>>,
    default: Seq<char>,
    request: Option<Seq<char>>,
) -> Option<int> {
    match request {
        Some(host) if first_named(names, host) is Some => first_named(names, host),
        _ => first_named(names, default),
    }
}

/// A choice, under the name of the host that it was made for.
pub open spec fn choice_at(host: Seq<char>, choice: Choice) -> Choice {
    match choice {
        Choice::Line(name, target) => Choice::Line(host + "/"@ + name, target),
        Choice::Group(name, group) => Choice::Group(host + "/"@ + name, group),
        Choice::Nowhere => Choice::Nowhere,
    }
}

fn find_host<V>(map: &NameMap<V>, host: &str) -> (index: Option<usize>)
    ensures
        match index {
            Some(i) => first_named(map.names(), host@) == Some(i as int) && i < map.names().len(),
            None => first_named(map.names(), host@) is None,
        },
{
    let form = normalize_host(host);
    let count = map.len();
    let mut i: usize = 0;
    while i < count
        invariant
            i <= count == map.names().len(),
            form@ == matching::host_form(host@),
            forall|k: int| 0 <= k < i ==> !same_host(#[trigger] map.names()[k], host@),
        decreases count - i,
    {
        if eq_ignore_ascii_case(normalize_host(map.name_at(i)), form) {
            proof {
                lemma_first_named_at(map.names(), host@, i as int);
            }
            return Some(i);
        }
        i += 1;
    }
    proof {
        lemma_first_named_at(map.names(), host@, i as int);
    }
    None
}

impl VhostsConfig {
    /// Whether every group of every routing has a host.
    pub open spec fn groups_have_hosts(self) -> bool {
        forall|i: int|
            0 <= i < self.routes.names().len() ==> (
            #[trigger] self.routes.values()[i]).groups_have_hosts()
    }

    /// What is wrong with reading the file of the host at a position, where `found` is the
    /// routing in that file or why it cannot be read.
    pub open spec fn load_problem(
        self,
        config_path: Seq<char>,
        i: int,
        found: Result<RoutingConfig, Problem>,
    ) -> Option<Report> {
        let name = self.files.names()[i];
        let path = self.files.values()[i]@;
        if path.len() == 0 {
            Some(problem::plain("vhosts."@ + name + " must contain a configuration file path"@))
        } else {
            match found {
                Ok(_) => None,
                Err(problem) => Some(
                    problem::inside(
                        "unable to load vhost '"@ + name + "' from "@ + path::resolved(config_path, path),
                        problem@,
                    ),
                ),
            }
        }
    }

    /// What is wrong with reading the files, file by file.
    pub open spec fn load_findings(
        self,
        config_path: Seq<char>,
        found: Seq<Result<RoutingConfig, Problem>>,
    ) -> Seq<Option<Report>> {
        Seq::new(found.len(), |i: int| self.load_problem(config_path, i, found[i]))
    }

    /// The path of the file of the host at a position.
    pub fn file_at(&self, config_path: &str, index: usize) -> (path: Result<String, Problem>)
        requires
            index < self.files.names().len(),
        ensures
            match path {
                Ok(path) => self.files.values()[index as int]@.len() > 0 && path@ == path::resolved(
                    config_path@,
                    self.files.values()[index as int]@,
                ),
                Err(problem) => self.files.values()[index as int]@.len() == 0 && problem@ == problem::plain(
                    "vhosts."@ + self.files.names()[index as int]
                        + " must contain a configuration file path"@,
                ),
            },
    {
        let path = self.files.value_at(index).as_str();
        if path.is_empty() {
            return Err(
                Problem::new(
                    cat3(
                        "vhosts.",
                        self.files.name_at(index),
                        " must contain a configuration file path",
                    ),
                ),
            );
        }
        Ok(resolve_relative_path(config_path, path))
    }

    /// Takes up the routing of every host, where `found` holds, file by file, the routing
    /// in the file or why it cannot be read. Stops at the first file that is no good.
    pub fn load(&mut self, config_path: &str, found: Vec<Result<RoutingConfig, Problem>>) -> (
        outcome: Result<(), Problem>)
        requires
            found@.len() == old(self).files.names().len(),
        ensures
            final(self).default == old(self).default,
            final(self).files == old(self).files,
            problem::failure(outcome) == problem::first_problem(old(self).load_findings(config_path@, found@)),
            outcome is Ok ==> {
                &&& final(self).routes.well_formed()
                &&& forall|i: int|
                    0 <= i < found@.len() ==> final(self).routes.find(
                        #[trigger] old(self).files.names()[i],
                    ) == Some(found@[i]->Ok_0)
                &&& forall|name: Seq<char>|
                    !old(self).files.names().contains(name)
                        ==> #[trigger] final(self).routes.find(name) is None
            },
    {
        let ghost before = *self;
        let ghost all = found@;
        let ghost findings = self.load_findings(config_path@, all);
        let ghost names = self.files.names();
        let mut rest = found;
        let count = self.files.len();
        self.routes = NameMap::new();
        let mut i: usize = 0;
        while i < count
            invariant
                i <= count == names.len() == all.len(),
                names == self.files.names(),
                self.files.well_formed(),
                before == *old(self),
                self.routes.well_formed(),
                self.files == before.files,
                self.default == before.default,
                all == found@,
                rest@ == all.skip(i as int),
                findings == before.load_findings(config_path@, all),
                forall|k: int| 0 <= k < i ==> (#[trigger] findings[k]) is None,
                forall|k: int|
                    0 <= k < i ==> self.routes.find(#[trigger] names[k]) == Some(all[k]->Ok_0),
                forall|name: Seq<char>|
                    !names.contains(name) ==> #[trigger] self.routes.find(name) is None,
            decreases count - i,
        {
            let path = match self.file_at(config_path, i) {
                Ok(path) => path,
                Err(problem) => {
                    proof {
                        problem::lemma_first_problem(findings, i as int);
                    }
                    return Err(problem);
                },
            };
            let name = self.files.name_at(i).to_owned();
            match rest.remove(0) {
                Ok(routing) => {
                    let ghost routes = self.routes;
                    proof {
                        assert forall|k: int| 0 <= k < i implies names[k] != names[i as int] by {
                            crate::names::lemma_index_of_name(self.files, k);
                            crate::names::lemma_index_of_name(self.files, i as int);
                        }
                    }
                    self.routes.insert(name, routing);
                },
                Err(problem) => {
                    proof {
                        problem::lemma_first_problem(findings, i as int);
                    }
                    return Err(
                        problem.within(
                            cat4(
                                "unable to load vhost '",
                                name.as_str(),
                                "' from ",
                                path.as_str(),
                            ),
                        ),
                    );
                },
            }
            i += 1;
        }
        proof {
            problem::lemma_no_problem(findings);
        }
        Ok(())
    }

    /// What is wrong with the host at a position.
    pub open spec fn host_problem(self, i: int) -> Option<Report> {
        let name = self.files.names()[i];
        if matching::host_form(name).len() == 0 {
            Some(problem::plain("vhosts contains an empty host name"@))
        } else if routing::byte_length(matching::host_form(name)) > 255 {
            Some(problem::plain("vhosts host name '"@ + name + "' must be at most 255 bytes"@))
        } else if exists|j: int| 0 <= j < i && same_host(#[trigger] self.files.names()[j], name) {
            Some(problem::plain("vhosts host name '"@ + name + "' is duplicated"@))
        } else {
            match self.routes.find(name) {
                None => Some(
                    problem::plain(
                        "vhosts."@ + name + " has not been loaded from its configuration file"@,
                    ),
                ),
                Some(routing) => match routing.problem() {
                    None => None,
                    Some(report) => Some(
                        problem::inside(
                            "invalid routing configuration for vhost '"@ + name + "'"@,
                            report,
                        ),
                    ),
                },
            }
        }
    }

    /// What is wrong with the hosts, host by host.
    pub open spec fn host_findings(self) -> Seq<Option<Report>> {
        Seq::new(self.files.names().len(), |i: int| self.host_problem(i))
    }

    /// What is wrong with the configuration.
    pub open spec fn problem(self) -> Option<Report> {
        if self.files.names().len() == 0 {
            Some(problem::plain("vhosts must contain at least one host mapping"@))
        } else if text::is_blank(self.default@) {
            Some(problem::plain("vhosts.default must not be empty"@))
        } else if first_named(self.files.names(), self.default@) is None {
            Some(problem::plain("vhosts.default '"@ + self.default@ + "' is not present in vhosts"@))
        } else {
            problem::first_problem(self.host_findings())
        }
    }

    pub fn validate(&self) -> (outcome: Result<(), Problem>)
        ensures
            problem::failure(outcome) == self.problem(),
    {
        if self.files.is_empty() {
            return Err(Problem::new("vhosts must contain at least one host mapping".to_owned()));
        }
        if blank(self.default.as_str()) {
            return Err(Problem::new("vhosts.default must not be empty".to_owned()));
        }
        if find_host(&self.files, self.default.as_str()).is_none() {
            return Err(
                Problem::new(
                    cat3(
                        "vhosts.default '",
                        self.default.as_str(),
                        "' is not present in vhosts",
                    ),
                ),
            );
        }
        self.validate_hosts()
    }

    fn validate_hosts(&self) -> (outcome: Result<(), Problem>)
        ensures
            problem::failure(outcome) == problem::first_problem(self.host_findings()),
    {
        let ghost findings = self.host_findings();
        let count = self.files.len();
        let mut i: usize = 0;
        while i < count
            invariant
                i <= count == self.files.names().len(),
                findings == self.host_findings(),
                forall|k: int| 0 <= k < i ==> (#[trigger] findings[k]) is None,
            decreases count - i,
        {
            match self.validate_host(i) {
                Ok(_) => {},
                Err(problem) => {
                    proof {
                        problem::lemma_first_problem(findings, i as int);
                    }
                    return Err(problem);
                },
            }
            i += 1;
        }
        proof {
            problem::lemma_no_problem(findings);
        }
        Ok(())
    }

    fn validate_host(&self, index: usize) -> (outcome: Result<(), Problem>)
        requires
            index < self.files.names().len(),
        ensures
            problem::failure(outcome) == self.host_problem(index as int),
    {
        let name = self.files.name_at(index);
        let form = normalize_host(name);
        if form.is_empty() {
            return Err(Problem::new("vhosts contains an empty host name".to_owned()));
        }
        if longer_than_255(form) {
            return Err(
                Problem::new(cat3("vhosts host name '", name, "' must be at most 255 bytes")),
            );
        }
        let mut j: usize = 0;
        while j < index
            invariant
                j <= index < self.files.names().len(),
                form@ == matching::host_form(name@),
                name@ == self.files.names()[index as int],
                form@.len() > 0,
                routing::byte_length(form@) <= 255,
                forall|k: int| 0 <= k < j ==> !same_host(#[trigger] self.files.names()[k], name@),
            decreases index - j,
        {
            if eq_ignore_ascii_case(normalize_host(self.files.name_at(j)), form) {
                return Err(Problem::new(cat3("vhosts host name '", name, "' is duplicated")));
            }
            j += 1;
        }
        match self.routes.get(name) {
            None => Err(
                Problem::new(
                    cat3("vhosts.", name, " has not been loaded from its configuration file"),
                ),
            ),
            Some(routing) => match routing.validate() {
                Ok(_) => Ok(()),
                Err(problem) => Err(
                    problem.within(
                        cat3("invalid routing configuration for vhost '", name, "'"),
                    ),
                ),
            },
        }
    }

    /// The host that answers for a connection.
    pub open spec fn answers(self, visit: Visit) -> Option<int> {
        answering(self.routes.names(), self.default@, visit.host)
    }

    /// Where a connection is sent.
    pub open spec fn choice(self, visit: Visit) -> Choice {
        match self.answers(visit) {
            Some(i) => choice_at(self.routes.names()[i], self.routes.values()[i].choice(visit)),
            None => Choice::Nowhere,
        }
    }

    /// The routing that answers for a request: that of the host that was asked for, or
    /// else that of the default host.
    pub fn select_routing(&self, request_host: Option<&str>) -> (found: Option<
        (&str, &RoutingConfig),
    >)
        ensures
            match (
                answering(self.routes.names(), self.default@, text::str_text(request_host)),
                found,
            ) {
                (Some(i), Some((name, routing))) => {
                    &&& 0 <= i < self.routes.names().len()
                    &&& name@ == self.routes.names()[i]
                    &&& *routing == self.routes.values()[i]
                },
                (None, None) => true,
                _ => false,
            },
    {
        match request_host {
            Some(host) => match find_host(&self.routes, host) {
                Some(i) => {
                    return Some((self.routes.name_at(i), self.routes.value_at(i)));
                },
                None => {},
            },
            None => {},
        }
        match find_host(&self.routes, self.default.as_str()) {
            Some(i) => Some((self.routes.name_at(i), self.routes.value_at(i))),
            None => None,
        }
    }

    /// The route for a connection.
    pub fn select_route_with_context(
        &self,
        location: &IpLocation,
        player: Option<&str>,
        request_host: Option<&str>,
        security: &Security,
        balance_key: &str,
    ) -> (route: Option<(String, LineTarget)>)
        requires
            self.groups_have_hosts(),
        ensures
            routing::routed(
                self.choice(routing::visit_of(*location, player, request_host, Some(security))),
                balance_key@,
                route,
            ),
    {
        let (host, routing) = match self.select_routing(request_host) {
            Some(found) => found,
            None => {
                return None;
            },
        };
        match routing.select_route_with_host_context(
            location,
            player,
            request_host,
            security,
            balance_key,
        ) {
            Some((line, target)) => Some((cat3(host, "/", line.as_str()), target)),
            None => None,
        }
    }
}

/// How the file of a host is laid out: whether the routing stands in a table of its own,
/// and whether it is a single target.
#[derive(Debug, Clone, Copy, PartialEq, Eq, Structural)]
pub struct VhostLayout {
    pub nested: bool,
    pub single: bool,
}

pub open spec fn has_entry(document: TomlView, key: Seq<char>) -> bool {
    document is Table && document->Table_0.dom().contains(key)
}

/// The routing in the document of a host's file.
pub open spec fn routing_part(document: TomlView) -> TomlView {
    if has_entry(document, "routing"@) {
        document->Table_0["routing"@]
    } else {
        document
    }
}

/// Whether a routing is written as a single target: it has a host, and nothing that only a
/// full routing has.
pub open spec fn is_single_target(part: TomlView) -> bool {
    &&& has_entry(part, "host"@)
    &&& !has_entry(part, "default_line"@)
    &&& !has_entry(part, "lines"@)
    &&& !has_entry(part, "rules"@)
    &&& !has_entry(part, "group"@)
    &&& !has_entry(part, "groups"@)
}

pub open spec fn layout_of(document: TomlView) -> VhostLayout {
    VhostLayout {
        nested: has_entry(document, "routing"@),
        single: is_single_target(routing_part(document)),
    }
}

/// How a document is laid out as the file of a host.
pub fn document_layout(document: &toml::Value) -> (layout: VhostLayout)
    ensures
        layout == layout_of(document::toml_contents(*document)),
{
    let (nested, part) = match entry(document, "routing") {
        Some(part) => (true, part),
        None => (false, document),
    };
    let single = entry(part, "host").is_some() && entry(part, "default_line").is_none() && entry(
        part,
        "lines",
    ).is_none() && entry(part, "rules").is_none() && entry(part, "group").is_none() && entry(
        part,
        "groups",
    ).is_none();
    VhostLayout { nested, single }
}

/// How the text of a host's file that lies at `path` is laid out.
pub fn vhost_layout(path: &str, source: &str) -> (outcome: Result<VhostLayout, Problem>)
    ensures
        match (outcome, document::document_of(source@)) {
            (Ok(layout), Ok(document)) => layout == layout_of(document),
            (Err(problem), Err(words)) => problem@ == (Report {
                message: "invalid TOML in vhost configuration file "@ + path@,
                cause: Some(words),
            }),
            _ => false,
        },
{
    match parse_document(source) {
        Ok(document) => Ok(document_layout(&document)),
        Err(words) => Err(
            Problem::caused_by(cat2("invalid TOML in vhost configuration file ", path), words),
        ),
    }
}

/// A host that is not configured is answered by the default host, and so is a request that
/// names no host.
pub proof fn lemma_unknown_host_uses_default(
    names: Seq<Seq<char>>,
    default: Seq<char>,
    host: Seq<char>,
)
    requires
        forall|i: int| 0 <= i < names.len() ==> !same_host(#[trigger] names[i], host),
    ensures
        answering(names, default, Some(host)) == answering(names, default, None),
        answering(names, default, None) == first_named(names, default),
{
    lemma_first_named(names, host);
}

/// A host that is configured answers for itself, in whatever case it is written and with
/// or without dots at its end.
pub proof fn lemma_configured_host_answers(
    names: Seq<Seq<char>>,
    default: Seq<char>,
    host: Seq<char>,
    i: int,
)
    requires
        0 <= i < names.len(),
        same_host(names[i], host),
        forall|j: int|
            0 <= j < names.len() && j != i ==> !same_host(#[trigger] names[j], names[i]),
    ensures
        answering(names, default, Some(host)) == Some(i),
{
    lemma_first_named(names, host);
}

/// In a configuration without problems, whose routing was read from its files, every
/// connection is answered by a host, and every group has a host.
pub proof fn lemma_valid_vhosts_answer(config: VhostsConfig, visit: Visit)
    requires
        config.problem() is None,
        config.routes.well_formed(),
        forall|name: Seq<char>| #[trigger]
            config.routes.find(name) is Some ==> config.files.names().contains(name),
    ensures
        config.answers(visit) matches Some(i) && 0 <= i < config.routes.names().len(),
        config.groups_have_hosts(),
        forall|i: int|
            0 <= i < config.routes.names().len() ==> (#[trigger] config.routes.values()[i]).problem()
                is None,
{
    let names = config.routes.names();
    let files = config.files.names();
    problem::lemma_no_problem(config.host_findings());
    lemma_first_named(files, config.default@);
    let j = first_named(files, config.default@)->0;
    assert(config.host_findings()[j] is None);
    lemma_first_named(names, config.default@);
    if visit.host is Some {
        lemma_first_named(names, visit.host->0);
    }
    assert forall|i: int| 0 <= i < names.len() implies {
        &&& (#[trigger] config.routes.values()[i]).groups_have_hosts()
        &&& config.routes.values()[i].problem() is None
    } by {
        crate::names::lemma_index_of_name(config.routes, i);
        let f = files.index_of(names[i]);
        assert(config.host_findings()[f] is None);
        crate::routing::lemma_valid_groups_have_hosts(config.routes.values()[i]);
    }
}

/// A host that was asked for is answered by the first configured host with that name, up to
/// case and dots at the end. Where there is none, or no host was asked for, the first with the
/// name of the default answers. The host that answers sends a connection exactly where its own
/// routing sends the very same connection when it is asked alone: to the same line with the
/// same target, or to the same group; only the name gets the host and a slash in front.
pub proof fn lemma_host_routes_as_if_alone(
    vhosts: VhostsConfig,
    location: IpLocation,
    player: Option<&str>,
    host: Option<&str>,
    security: &Security,
    key: &str,
    route: Option<(String, LineTarget)>,
    alone: Option<(String, LineTarget)>,
    i: int,
)
    requires
        vhosts.groups_have_hosts(),
        0 <= i < vhosts.routes.names().len(),
        ({
            let names = vhosts.routes.names();
            let asked_for = host is Some && exists|k: int|
                0 <= k < names.len()
                    && text::same_ignoring_case(matching::host_form(#[trigger] names[k]), matching::host_form(host->0@));
            let wanted = if asked_for {
                host->0@
            } else {
                vhosts.default@
            };
            &&& text::same_ignoring_case(matching::host_form(names[i]), matching::host_form(wanted))
            &&& forall|k: int|
                0 <= k < i
                    ==> !text::same_ignoring_case(matching::host_form(#[trigger] names[k]), matching::host_form(wanted))
        }),
        call_ensures(
            VhostsConfig::select_route_with_context,
            (&vhosts, &location, player, host, security, key),
            route,
        ),
        call_ensures(
            RoutingConfig::select_route_with_host_context,
            (&vhosts.routes.values()[i], &location, player, host, security, key),
            alone,
        ),
    ensures
        route is Some <==> alone is Some,
        route is Some ==> (route->0).0@ == vhosts.routes.names()[i] + "/"@ + (alone->0).0@,
        route is Some ==> (route->0).1 == (alone->0).1 || exists|g: int|
            0 <= g < vhosts.routes.values()[i].group@.len() && (
            #[trigger] vhosts.routes.values()[i].group@[g]).group_name@ == (alone->0).0@
                && vhosts.routes.values()[i].group@[g].may_hand_out(key@, (route->0).1)
                && vhosts.routes.values()[i].group@[g].may_hand_out(key@, (alone->0).1),
{
    let names = vhosts.routes.names();
    let routing = vhosts.routes.values()[i];
    let visit = routing::visit_of(location, player, host, Some(security));
    if host is Some {
        lemma_first_named(names, host->0@);
    }
    lemma_first_named(names, vhosts.default@);
    assert(vhosts.answers(visit) == Some(i)) by {
        if host is Some && first_named(names, host->0@) is Some {
            let k = first_named(names, host->0@)->0;
            assert(same_host(names[k], host->0@));
            assert(same_host(names[i], host->0@));
        } else {
            if host is Some {
                assert(forall|k: int| 0 <= k < names.len() ==> !same_host(names[k], host->0@));
            }
            let k = first_named(names, vhosts.default@)->0;
            assert(same_host(names[i], vhosts.default@));
            assert(same_host(names[k], vhosts.default@));
        }
    }
    match routing.choice(visit) {
        Choice::Group(name, group) => {
            routing::lemma_found_group(routing.group@, name);
            let g = routing.group@.index_of(group);
            assert(routing.group@[g] == group);
            reveal_strlit("/");
            if alone is Some {
                assert((route->0).0@ == names[i] + "/"@ + name);
            }
        },
        _ => {},
    }
}

/// Where neither the host that was asked for nor the default is configured, nobody answers.
pub proof fn lemma_nobody_answers_without_a_host(
    vhosts: VhostsConfig,
    location: IpLocation,
    player: Option<&str>,
    host: Option<&str>,
    security: &Security,
    key: &str,
    route: Option<(String, LineTarget)>,
)
    requires
        vhosts.groups_have_hosts(),
        forall|k: int|
            0 <= k < vhosts.routes.names().len()
                ==> !text::same_ignoring_case(matching::host_form(#[trigger] vhosts.routes.names()[k]), matching::host_form(vhosts.default@))
                && (host is Some
                    ==> !text::same_ignoring_case(matching::host_form(vhosts.routes.names()[k]), matching::host_form(host->0@))),
        call_ensures(
            VhostsConfig::select_route_with_context,
            (&vhosts, &location, player, host, security, key),
            route,
        ),
    ensures
        route is None,
{
    let names = vhosts.routes.names();
    if host is Some {
        lemma_first_named(names, host->0@);
    }
    lemma_first_named(names, vhosts.default@);
    let visit = routing::visit_of(location, player, host, Some(security));
    assert(vhosts.answers(visit) is None);
}

/// How the file of a host is read: from its `routing` table if it has one, or else from the
/// document itself; as a single target if there is a `host` and neither a default line nor
/// lines, rules or groups.
pub proof fn lemma_layout_goes_by_the_keys(document: toml::Value, layout: VhostLayout)
    requires
        call_ensures(document_layout, (&document,), layout),
        document::toml_contents(document) is Table,
    ensures
        ({
            let top = document::toml_contents(document)->Table_0;
            let part = if top.dom().contains("routing"@) {
                top["routing"@]
            } else {
                document::toml_contents(document)
            };
            &&& layout.nested == top.dom().contains("routing"@)
            &&& layout.single <==> part is Table && part->Table_0.dom().contains("host"@)
                && !part->Table_0.dom().contains("default_line"@)
                && !part->Table_0.dom().contains("lines"@) && !part->Table_0.dom().contains(
                "rules"@,
            ) && !part->Table_0.dom().contains("group"@) && !part->Table_0.dom().contains(
                "groups"@,
            )
        }),
{
}

/// The hosts are accepted exactly when there are any; the default is one of them; every name,
/// without dots at its end, is not empty, fits in a packet and differs from those of the other
/// hosts, up to case; and every host has a routing that is accepted.
pub proof fn lemma_accepted_hosts(vhosts: VhostsConfig, outcome: Result<(), Problem>)
    requires
        call_ensures(VhostsConfig::validate, (&vhosts,), outcome),
    ensures
        outcome is Ok <==> {
            let names = vhosts.files.names();
            &&& names.len() > 0
            &&& !text::is_blank(vhosts.default@)
            &&& exists|i: int|
                0 <= i < names.len() && text::same_ignoring_case(
                    matching::host_form(#[trigger] names[i]),
                    matching::host_form(vhosts.default@),
                )
            &&& forall|i: int|
                0 <= i < names.len() ==> {
                    &&& matching::host_form(#[trigger] names[i]).len() > 0
                    &&& routing::byte_length(matching::host_form(names[i])) <= 255
                    &&& forall|j: int|
                        0 <= j < i ==> !text::same_ignoring_case(
                            matching::host_form(#[trigger] names[j]),
                            matching::host_form(names[i]),
                        )
                    &&& vhosts.routes.find(names[i]) is Some
                    &&& vhosts.routes.find(names[i])->0.problem() is None
                }
        },
{
    let names = vhosts.files.names();
    lemma_first_named(names, vhosts.default@);
    problem::lemma_no_problem(vhosts.host_findings());
    if first_named(names, vhosts.default@) is Some {
        let i = first_named(names, vhosts.default@)->0;
        assert(same_host(names[i], vhosts.default@));
    }
    assert forall|i: int| 0 <= i < names.len() implies ((#[trigger] vhosts.host_findings()[i])
        is None <==> ({
        &&& matching::host_form(names[i]).len() > 0
        &&& routing::byte_length(matching::host_form(names[i])) <= 255
        &&& forall|j: int| 0 <= j < i ==> !same_host(#[trigger] names[j], names[i])
        &&& vhosts.routes.find(names[i]) is Some
        &&& vhosts.routes.find(names[i])->0.problem() is None
    })) by {}
    if outcome is Ok {
        assert forall|i: int| 0 <= i < names.len() implies ({
            &&& matching::host_form(#[trigger] names[i]).len() > 0
            &&& routing::byte_length(matching::host_form(names[i])) <= 255
            &&& forall|j: int| 0 <= j < i ==> !same_host(#[trigger] names[j], names[i])
            &&& vhosts.routes.find(names[i]) is Some
            &&& vhosts.routes.find(names[i])->0.problem() is None
        }) by {
            assert(vhosts.host_findings()[i] is None);
        }
    }
}

} // verus!

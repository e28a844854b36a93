//! Lines, groups of hosts, and the rules that choose between them.
use crate::balance::{self, parse_group_mode, pick_place_for_key, GroupMode};
use crate::ip2region::{IpLocation, Place};
use crate::matching::{self, matches_bool, matches_list, Comparison};
use crate::names::NameMap;
use crate::problem::{self, Problem, Report};
use crate::security::{Guard, Security};
use crate::text::{self, as_str_option, blank, cat3, cat5, same_text, unsigned_to_text};
use std::collections::hash_map::DefaultHasher;
use std::sync::Arc;
use std::sync::atomic::{AtomicUsize, Ordering};
use vstd::prelude::*;
use vstd::std_specs::hash::DefaultHasherAdditionalSpecFns;
use vstd::string::*;
use vstd::utf8;

verus! {

/// The address that players are sent to.
#[derive(Debug, PartialEq, Eq)]
pub struct LineTarget {
    pub host: String,
    pub port: u16,
    pub resolve_srv: bool,
}

impl Clone for LineTarget {
    fn clone(&self) -> (copy: Self)
        ensures
            copy == *self,
    {
        LineTarget { host: self.host.clone(), port: self.port, resolve_srv: self.resolve_srv }
    }
}

/// How many bytes a text takes.
pub open spec fn byte_length(text: Seq<char>) -> nat {
    utf8::encode_utf8(text).len()
}

pub(crate) fn longer_than_255(text: &str) -> (yes: bool)
    ensures
        yes == (byte_length(text@) > 255),
{
    text.as_bytes().len() > 255
}

impl LineTarget {
    /// What is wrong with the target of a line.
    pub open spec fn problem(self, name: Seq<char>) -> Option<Report> {
        if text::is_blank(self.host@) {
            Some(problem::plain("routing.lines."@ + name + ".host must not be empty"@))
        } else if byte_length(self.host@) > 255 {
            Some(problem::plain("routing.lines."@ + name + ".host must be at most 255 bytes"@))
        } else if self.port == 0 {
            Some(problem::plain("routing.lines."@ + name + ".port must be greater than zero"@))
        } else {
            None
        }
    }

    pub fn validate(&self, name: &str) -> (outcome: Result<(), Problem>)
        ensures
            problem::failure(outcome) == self.problem(name@),
    {
        if blank(self.host.as_str()) {
            return Err(Problem::new(cat3("routing.lines.", name, ".host must not be empty")));
        }
        if longer_than_255(self.host.as_str()) {
            return Err(
                Problem::new(cat3("routing.lines.", name, ".host must be at most 255 bytes")),
            );
        }
        if self.port == 0 {
            return Err(
                Problem::new(cat3("routing.lines.", name, ".port must be greater than zero")),
            );
        }
        Ok(())
    }
}

/// Several hosts that share the players sent to the group.
#[derive(Debug, Clone)]
pub struct RoutingGroup {
    pub priority: i32,
    pub group_name: String,
    pub mode: String,
    pub port: u16,
    pub resolve_srv: bool,
    pub hosts: Vec<String>,
    /// How many players the group was picked for, in the modes that go by that number.
    pub counter: Arc<AtomicUsize>,
}

/// What is wrong with a host of the group at a position of the configuration.
pub open spec fn host_problem(index: nat, host_index: nat, host: Seq<char>) -> Option<Report> {
    let place = "routing.group["@ + text::decimal(index) + "].hosts["@ + text::decimal(host_index);
    if text::is_blank(host) {
        Some(problem::plain(place + "] must not be empty"@))
    } else if byte_length(host) > 255 {
        Some(problem::plain(place + "] must be at most 255 bytes"@))
    } else {
        None
    }
}

/// What is wrong with the hosts of a group, host by host.
pub open spec fn host_findings(index: nat, hosts: Seq<Seq<char>>) -> Seq<Option<Report>> {
    Seq::new(hosts.len(), |i: int| host_problem(index, i as nat, hosts[i]))
}

fn validate_host(index: usize, host_index: usize, host: &str) -> (outcome: Result<(), Problem>)
    ensures
        problem::failure(outcome) == host_problem(index as nat, host_index as nat, host@),
{
    let index = unsigned_to_text(index as u64);
    let host_index = unsigned_to_text(host_index as u64);
    if blank(host) {
        return Err(
            Problem::new(
                cat5(
                    "routing.group[",
                    index.as_str(),
                    "].hosts[",
                    host_index.as_str(),
                    "] must not be empty",
                ),
            ),
        );
    }
    if longer_than_255(host) {
        return Err(
            Problem::new(
                cat5(
                    "routing.group[",
                    index.as_str(),
                    "].hosts[",
                    host_index.as_str(),
                    "] must be at most 255 bytes",
                ),
            ),
        );
    }
    Ok(())
}

/// The mode of a group; a name that stands for no mode counts as round robin.
pub open spec fn group_mode(mode: Seq<char>) -> GroupMode {
    match balance::mode_of(mode) {
        Some(mode) => mode,
        None => GroupMode::RoundRobin,
    }
}

/// Makes a counter that stands at zero with the given operation.
fn from_zero<F: Fn(usize) -> AtomicUsize>(make: F) -> (counter: AtomicUsize)
    requires
        call_requires(make, (0usize,)),
    ensures
        call_ensures(make, (0usize,), counter),
{
    make(0)
}

/// Raises a counter by one with the given operation, and returns what the operation does.
fn raised<F: Fn(&AtomicUsize, usize, Ordering) -> usize>(raise: F, counter: &AtomicUsize) -> (before:
    usize)
    requires
        call_requires(raise, (counter, 1usize, Ordering::Relaxed)),
    ensures
        call_ensures(raise, (counter, 1usize, Ordering::Relaxed), before),
{
    raise(counter, 1, Ordering::Relaxed)
}

impl RoutingGroup {
    /// A group that no player has been sent to yet.
    pub fn new(
        priority: i32,
        group_name: String,
        mode: String,
        port: u16,
        resolve_srv: bool,
        hosts: Vec<String>,
    ) -> (group: Self)
        ensures
            group.priority == priority,
            group.group_name == group_name,
            group.mode == mode,
            group.port == port,
            group.resolve_srv == resolve_srv,
            group.hosts == hosts,
            call_ensures(AtomicUsize::new, (0usize,), *group.counter),
    {
        RoutingGroup {
            priority,
            group_name,
            mode,
            port,
            resolve_srv,
            hosts,
            counter: Arc::new(from_zero(AtomicUsize::new)),
        }
    }

    /// What is wrong with the group at a position of the configuration.
    pub open spec fn problem(self, index: nat) -> Option<Report> {
        let place = "routing.group["@ + text::decimal(index);
        if text::is_blank(self.group_name@) {
            Some(problem::plain(place + "].group_name must not be empty"@))
        } else if self.hosts@.len() == 0 {
            Some(problem::plain(place + "].hosts must contain at least one host"@))
        } else if self.port == 0 {
            Some(problem::plain(place + "].port must be greater than zero"@))
        } else if balance::mode_of(self.mode@) is None {
            Some(
                problem::plain(
                    place + "].mode '"@ + self.mode@
                        + "' is unsupported; use round_robin, random or ip_hash"@,
                ),
            )
        } else {
            problem::first_problem(host_findings(index, text::texts(self.hosts@)))
        }
    }

    pub fn validate(&self, index: usize) -> (outcome: Result<(), Problem>)
        ensures
            problem::failure(outcome) == self.problem(index as nat),
    {
        let shown = unsigned_to_text(index as u64);
        if blank(self.group_name.as_str()) {
            return Err(
                Problem::new(
                    cat3("routing.group[", shown.as_str(), "].group_name must not be empty"),
                ),
            );
        }
        if self.hosts.is_empty() {
            return Err(
                Problem::new(
                    cat3(
                        "routing.group[",
                        shown.as_str(),
                        "].hosts must contain at least one host",
                    ),
                ),
            );
        }
        if self.port == 0 {
            return Err(
                Problem::new(
                    cat3("routing.group[", shown.as_str(), "].port must be greater than zero"),
                ),
            );
        }
        if parse_group_mode(self.mode.as_str()).is_none() {
            return Err(
                Problem::new(
                    cat5(
                        "routing.group[",
                        shown.as_str(),
                        "].mode '",
                        self.mode.as_str(),
                        "' is unsupported; use round_robin, random or ip_hash",
                    ),
                ),
            );
        }
        self.validate_hosts(index)
    }

    fn validate_hosts(&self, index: usize) -> (outcome: Result<(), Problem>)
        ensures
            problem::failure(outcome) == problem::first_problem(host_findings(index as nat, text::texts(self.hosts@))),
    {
        let ghost findings = host_findings(index as nat, text::texts(self.hosts@));
        let mut i: usize = 0;
        while i < self.hosts.len()
            invariant
                i <= self.hosts.len(),
                findings == host_findings(index as nat, text::texts(self.hosts@)),
                findings.len() == self.hosts.len(),
                forall|k: int| 0 <= k < i ==> (#[trigger] findings[k]) is None,
            decreases self.hosts.len() - i,
        {
            let host = self.hosts[i].as_str();
            match validate_host(index, i, host) {
                Ok(_) => {},
                Err(problem) => {
                    proof {
                        problem::lemma_first_problem(findings, i as int);
                    }
                    return Err(problem);
                },
            }
            i += 1;
        }
        proof {
            problem::lemma_no_problem(findings);
        }
        Ok(())
    }

    /// The host for the player with the given number and balance key.
    pub open spec fn host_for(self, sequence: usize, key: Seq<char>) -> Seq<char> {
        self.hosts@[balance::place_for(
            group_mode(self.mode@),
            sequence,
            balance::key_hash(key),
            self.hosts@.len(),
        )]@
    }

    /// Whether a target is what the group hands to the player with the given number.
    pub open spec fn hands_out(self, sequence: usize, key: Seq<char>, target: LineTarget) -> bool {
        &&& target.host@ == self.host_for(sequence, key)
        &&& target.port == self.port
        &&& target.resolve_srv == self.resolve_srv
    }

    /// Whether a target is what the group hands to a player. In the modes that go by the
    /// number of players, the number is one that the counter can have had.
    pub open spec fn may_hand_out(self, key: Seq<char>, target: LineTarget) -> bool {
        exists|sequence: usize|
            (group_mode(self.mode@) == GroupMode::IpHash || self.counts(sequence))
                && #[trigger] self.hands_out(sequence, key, target)
    }

    /// The target for the player with the given number and balance key.
    pub fn target_at(&self, sequence: usize, balance_key: &str) -> (target: LineTarget)
        requires
            self.hosts@.len() > 0,
        ensures
            self.hands_out(sequence, balance_key@, target),
    {
        let mode = match parse_group_mode(self.mode.as_str()) {
            Some(mode) => mode,
            None => GroupMode::RoundRobin,
        };
        let index = pick_place_for_key(mode, sequence, balance_key, self.hosts.len());
        LineTarget {
            host: self.hosts[index].clone(),
            port: self.port,
            resolve_srv: self.resolve_srv,
        }
    }

    /// Whether a number is one that the counter of the group can have had when it was raised
    /// by one.
    pub open spec fn counts(self, sequence: usize) -> bool {
        call_ensures(
            AtomicUsize::fetch_add,
            (&*self.counter, 1usize, Ordering::Relaxed),
            sequence,
        )
    }

    /// Counts a player with `AtomicUsize::fetch_add`, and returns the number that the counter
    /// had. The counter is shared between threads and wraps around: which number comes back
    /// is left open, and `target_at` is exact for each.
    fn next_sequence(&self) -> (sequence: usize)
        ensures
            self.counts(sequence),
    {
        raised(AtomicUsize::fetch_add, &*self.counter)
    }

    /// Counts a player in the modes that go by the number of players, and picks the host.
    /// The number is the one that the shared counter had when it was raised by one.
    pub fn select_target(&self, balance_key: &str) -> (target: LineTarget)
        requires
            self.hosts@.len() > 0,
        ensures
            self.may_hand_out(balance_key@, target),
    {
        let by_key = match parse_group_mode(self.mode.as_str()) {
            Some(GroupMode::IpHash) => true,
            _ => false,
        };
        let sequence: usize = if by_key {
            0
        } else {
            self.next_sequence()
        };
        self.target_at(sequence, balance_key)
    }
}

/// Whatever the number of the call, a group hands out one of its hosts, with its own port
/// and its own choice on service records.
pub proof fn lemma_group_hands_out_its_hosts(
    group: RoutingGroup,
    key: Seq<char>,
    target: LineTarget,
) -> (place: int)
    requires
        group.hosts@.len() > 0,
        group.may_hand_out(key, target),
    ensures
        0 <= place < group.hosts@.len(),
        target.host@ == group.hosts@[place]@,
        target.port == group.port,
        target.resolve_srv == group.resolve_srv,
{
    let sequence = choose|sequence: usize| #[trigger] group.hands_out(sequence, key, target);
    balance::place_for(
        group_mode(group.mode@),
        sequence,
        balance::key_hash(key),
        group.hosts@.len(),
    )
}

/// A group that goes by the balance key hands out the same host to all calls with the same
/// key, however many calls lie between them.
pub proof fn lemma_key_keeps_its_host(
    group: RoutingGroup,
    key: Seq<char>,
    first: LineTarget,
    second: LineTarget,
)
    requires
        group_mode(group.mode@) == GroupMode::IpHash,
        group.may_hand_out(key, first),
        group.may_hand_out(key, second),
    ensures
        first.host@ == second.host@,
        first.port == second.port,
        first.resolve_srv == second.resolve_srv,
{
}

/// A group that goes round, and whose calls are counted from zero on, hands out its hosts in
/// order, from the first on and over again after the last, whatever the balance keys.
pub proof fn lemma_counted_calls_go_round(
    group: RoutingGroup,
    keys: Seq<Seq<char>>,
    targets: Seq<LineTarget>,
    k: int,
)
    requires
        group.hosts@.len() > 0,
        group_mode(group.mode@) == GroupMode::RoundRobin,
        0 <= k < targets.len() <= usize::MAX,
        keys.len() == targets.len(),
        forall|i: int|
            0 <= i < targets.len() ==> group.hands_out(i as usize, keys[i], #[trigger] targets[i]),
    ensures
        targets[k].host@ == group.hosts@[k % group.hosts@.len() as int]@,
        targets[k].port == group.port,
        targets[k].resolve_srv == group.resolve_srv,
{
    assert(group.hands_out(k as usize, keys[k], targets[k]));
}

/// A condition on connections, and the line or group that they are sent to.
#[derive(Debug, Clone)]
pub struct RouteRule {
    pub priority: i32,
    pub line: String,
    pub group: Option<String>,
    pub hosts: Vec<String>,
    pub not_hosts: Vec<String>,
    pub countries: Vec<String>,
    pub provinces: Vec<String>,
    pub not_provinces: Vec<String>,
    pub cities: Vec<String>,
    pub not_countries: Vec<String>,
    pub not_cities: Vec<String>,
    pub isp_contains: Vec<String>,
    pub not_isp_contains: Vec<String>,
    pub players: Vec<String>,
    pub not_players: Vec<String>,
    pub vpn: Option<bool>,
    pub not_vpn: bool,
    pub spam: Option<bool>,
    pub not_spam: bool,
    pub tor: Option<bool>,
    pub not_tor: bool,
}

impl Default for RouteRule {
    fn default() -> (rule: Self)
        ensures
            rule.priority == 0,
            rule.line@ == ""@,
            rule.group is None,
            rule.is_unconditional(),
    {
        RouteRule {
            priority: 0,
            line: "".to_owned(),
            group: None,
            hosts: Vec::new(),
            not_hosts: Vec::new(),
            countries: Vec::new(),
            provinces: Vec::new(),
            not_provinces: Vec::new(),
            cities: Vec::new(),
            not_countries: Vec::new(),
            not_cities: Vec::new(),
            isp_contains: Vec::new(),
            not_isp_contains: Vec::new(),
            players: Vec::new(),
            not_players: Vec::new(),
            vpn: None,
            not_vpn: false,
            spam: None,
            not_spam: false,
            tor: None,
            not_tor: false,
        }
    }
}

/// Which of the lists an address is on.
pub struct Marks {
    pub vpn: bool,
    pub spam: bool,
    pub tor: bool,
}

/// What is known of a connection that a route is sought for.
pub struct Visit {
    pub place: Place,
    pub player: Option<Seq<char>>,
    pub host: Option<Seq<char>>,
    pub marks: Option<Marks>,
}

/// The lists that a place is on.
pub open spec fn marks_of(guard: Guard, place: Place) -> Marks {
    Marks {
        vpn: guard.vpn_hit(place),
        spam: guard.spam.has(place.ip),
        tor: guard.tor.has(place.ip),
    }
}

/// What is known of a connection, with the lists of `security` if there are any.
pub open spec fn visit_of(
    location: IpLocation,
    player: Option<&str>,
    host: Option<&str>,
    security: Option<&Security>,
) -> Visit {
    Visit {
        place: location@,
        player: text::str_text(player),
        host: text::str_text(host),
        marks: match security {
            Some(security) => Some(marks_of(security.guard(), location@)),
            None => None,
        },
    }
}

impl RouteRule {
    /// Whether the rule names no condition on the player.
    pub open spec fn any_player(self) -> bool {
        self.players@.len() == 0 && self.not_players@.len() == 0
    }

    /// Whether the rule names no condition on the lists.
    pub open spec fn any_marks(self) -> bool {
        &&& self.vpn is None && !self.not_vpn
        &&& self.spam is None && !self.not_spam
        &&& self.tor is None && !self.not_tor
    }

    /// Whether the rule names no condition at all.
    pub open spec fn is_unconditional(self) -> bool {
        &&& self.hosts@.len() == 0 && self.not_hosts@.len() == 0
        &&& self.countries@.len() == 0 && self.not_countries@.len() == 0
        &&& self.provinces@.len() == 0 && self.not_provinces@.len() == 0
        &&& self.cities@.len() == 0 && self.not_cities@.len() == 0
        &&& self.isp_contains@.len() == 0 && self.not_isp_contains@.len() == 0
        &&& self.any_player()
        &&& self.any_marks()
    }

    pub open spec fn host_passes(self, visit: Visit) -> bool {
        matching::passes(Comparison::Host, text::texts(self.hosts@), text::texts(self.not_hosts@), visit.host)
    }

    pub open spec fn country_passes(self, visit: Visit) -> bool {
        matching::passes(
            Comparison::Text,
            text::texts(self.countries@),
            text::texts(self.not_countries@),
            visit.place.country_code,
        )
    }

    pub open spec fn province_passes(self, visit: Visit) -> bool {
        matching::passes(
            Comparison::Text,
            text::texts(self.provinces@),
            text::texts(self.not_provinces@),
            visit.place.province,
        )
    }

    pub open spec fn city_passes(self, visit: Visit) -> bool {
        matching::passes(Comparison::Text, text::texts(self.cities@), text::texts(self.not_cities@), visit.place.city)
    }

    pub open spec fn provider_passes(self, visit: Visit) -> bool {
        matching::passes(
            Comparison::Part,
            text::texts(self.isp_contains@),
            text::texts(self.not_isp_contains@),
            visit.place.isp,
        )
    }

    /// A condition on the player needs a player.
    pub open spec fn player_passes(self, visit: Visit) -> bool {
        self.any_player() || (visit.player is Some && matching::passes(
            Comparison::Text,
            text::texts(self.players@),
            text::texts(self.not_players@),
            visit.player,
        ))
    }

    /// A condition on the lists needs the lists.
    pub open spec fn marks_pass(self, visit: Visit) -> bool {
        self.any_marks() || match visit.marks {
            Some(marks) => {
                &&& matching::passes_bool(self.vpn, self.not_vpn, marks.vpn)
                &&& matching::passes_bool(self.spam, self.not_spam, marks.spam)
                &&& matching::passes_bool(self.tor, self.not_tor, marks.tor)
            },
            None => false,
        }
    }

    /// Whether a connection meets every condition of the rule.
    pub open spec fn applies(self, visit: Visit) -> bool {
        &&& self.host_passes(visit)
        &&& self.country_passes(visit)
        &&& self.province_passes(visit)
        &&& self.city_passes(visit)
        &&& self.provider_passes(visit)
        &&& self.player_passes(visit)
        &&& self.marks_pass(visit)
    }

    pub fn matches(
        &self,
        location: &IpLocation,
        player: Option<&str>,
        request_host: Option<&str>,
        security: Option<&Security>,
    ) -> (yes: bool)
        ensures
            yes == self.applies(visit_of(*location, player, request_host, security)),
    {
        matches_list(Comparison::Host, &self.hosts, &self.not_hosts, request_host) && matches_list(
            Comparison::Text,
            &self.countries,
            &self.not_countries,
            as_str_option(&location.country_code),
        ) && matches_list(
            Comparison::Text,
            &self.provinces,
            &self.not_provinces,
            as_str_option(&location.province),
        ) && matches_list(
            Comparison::Text,
            &self.cities,
            &self.not_cities,
            as_str_option(&location.city),
        ) && matches_list(
            Comparison::Part,
            &self.isp_contains,
            &self.not_isp_contains,
            as_str_option(&location.isp),
        ) && self.matches_player(player) && self.matches_security(location, security)
    }

    fn matches_player(&self, player: Option<&str>) -> (yes: bool)
        ensures
            forall|visit: Visit|
                visit.player == text::str_text(player) ==> yes == #[trigger] self.player_passes(visit),
    {
        if self.players.is_empty() && self.not_players.is_empty() {
            return true;
        }
        match player {
            Some(player) => matches_list(
                Comparison::Text,
                &self.players,
                &self.not_players,
                Some(player),
            ),
            None => false,
        }
    }

    fn matches_security(&self, location: &IpLocation, security: Option<&Security>) -> (yes: bool)
        ensures
            forall|player: Option<&str>, host: Option<&str>|
                yes == #[trigger] self.marks_pass(visit_of(*location, player, host, security)),
    {
        if self.vpn.is_none() && !self.not_vpn && self.spam.is_none() && !self.not_spam
            && self.tor.is_none() && !self.not_tor {
            return true;
        }
        match security {
            Some(security) => {
                matches_bool(self.vpn, self.not_vpn, security.matches_vpn(location))
                    && matches_bool(self.spam, self.not_spam, security.matches_spam(location))
                    && matches_bool(self.tor, self.not_tor, security.matches_tor(location))
            },
            None => false,
        }
    }

    /// The line that the rule names, if there is such a line.
    pub open spec fn line_named(self, lines: NameMap<LineTarget>) -> Option<Seq<char>> {
        if !text::is_blank(self.line@) && lines.find(self.line@) is Some {
            Some(self.line@)
        } else {
            None
        }
    }

    /// The group that the rule names: by `group`, or else by `line`.
    pub open spec fn group_named(self) -> Option<Seq<char>> {
        if self.group is Some && !text::is_blank(self.group->0@) {
            Some(self.group->0@)
        } else if !text::is_blank(self.line@) {
            Some(self.line@)
        } else {
            None
        }
    }

    fn line_target_name(&self, lines: &NameMap<LineTarget>) -> (name: Option<&str>)
        ensures
            text::str_text(name) == self.line_named(*lines),
    {
        if !blank(self.line.as_str()) && lines.get(self.line.as_str()).is_some() {
            Some(self.line.as_str())
        } else {
            None
        }
    }

    fn group_target_name(&self) -> (name: Option<&str>)
        ensures
            text::str_text(name) == self.group_named(),
    {
        match &self.group {
            Some(group) => {
                if !blank(group.as_str()) {
                    return Some(group.as_str());
                }
            },
            None => {},
        }
        if !blank(self.line.as_str()) {
            Some(self.line.as_str())
        } else {
            None
        }
    }

    /// The priority of the rule; without one of its own, that of the group it names.
    pub open spec fn rank(self, groups: Seq<RoutingGroup>) -> i32 {
        if self.priority != 0 {
            self.priority
        } else {
            match self.group_named() {
                Some(name) => match find_group(groups, name) {
                    Some(group) => group.priority,
                    None => 0,
                },
                None => 0,
            }
        }
    }

    fn effective_priority(&self, groups: &Vec<RoutingGroup>) -> (priority: i32)
        ensures
            priority == self.rank(groups@),
    {
        if self.priority != 0 {
            return self.priority;
        }
        match self.group_target_name() {
            Some(name) => match named_group(groups, name) {
                Some(group) => group.priority,
                None => 0,
            },
            None => 0,
        }
    }
}

/// The first group with a name.
pub open spec fn find_group(groups: Seq<RoutingGroup>, name: Seq<char>) -> Option<RoutingGroup>
    decreases groups.len(),
{
    if groups.len() == 0 {
        None
    } else if groups[0].group_name@ == name {
        Some(groups[0])
    } else {
        find_group(groups.drop_first(), name)
    }
}

proof fn lemma_find_group(groups: Seq<RoutingGroup>, name: Seq<char>, i: int)
    requires
        0 <= i <= groups.len(),
        forall|k: int| 0 <= k < i ==> (#[trigger] groups[k]).group_name@ != name,
        i < groups.len() ==> groups[i].group_name@ == name,
    ensures
        find_group(groups, name) == if i < groups.len() {
            Some(groups[i])
        } else {
            None
        },
    decreases i,
{
    if i > 0 {
        let rest = groups.drop_first();
        lemma_find_group(rest, name, i - 1);
    }
}

/// A group that is found has the name, and is one of the groups.
pub proof fn lemma_found_group(groups: Seq<RoutingGroup>, name: Seq<char>)
    ensures
        find_group(groups, name) matches Some(group) ==> group.group_name@ == name
            && groups.contains(group),
        find_group(groups, name) is None <==> forall|k: int|
            0 <= k < groups.len() ==> (#[trigger] groups[k]).group_name@ != name,
    decreases groups.len(),
{
    if groups.len() > 0 {
        let rest = groups.drop_first();
        lemma_found_group(rest, name);
        if groups[0].group_name@ != name {
            if find_group(groups, name) is None {
                assert forall|k: int| 0 <= k < groups.len() implies (
                #[trigger] groups[k]).group_name@ != name by {
                    if k > 0 {
                        assert(rest[k - 1] == groups[k]);
                    }
                }
            }
        }
    }
}

fn named_group<'a>(groups: &'a Vec<RoutingGroup>, name: &str) -> (group: Option<&'a RoutingGroup>)
    ensures
        match group {
            Some(group) => find_group(groups@, name@) == Some(*group),
            None => find_group(groups@, name@) is None,
        },
{
    let mut i: usize = 0;
    while i < groups.len()
        invariant
            i <= groups.len(),
            forall|k: int| 0 <= k < i ==> (#[trigger] groups@[k]).group_name@ != name@,
        decreases groups.len() - i,
    {
        if same_text(groups[i].group_name.as_str(), name) {
            proof {
                lemma_find_group(groups@, name@, i as int);
            }
            return Some(&groups[i]);
        }
        i += 1;
    }
    proof {
        lemma_find_group(groups@, name@, i as int);
    }
    None
}

/// The lines and groups of a host, and the rules that choose between them.
#[derive(Debug, Clone)]
pub struct RoutingConfig {
    pub default_line: String,
    pub lines: NameMap<LineTarget>,
    pub rules: Vec<RouteRule>,
    pub group: Vec<RoutingGroup>,
}

/// Where a connection is sent.
pub enum Choice {
    Line(Seq<char>, LineTarget),
    Group(Seq<char>, RoutingGroup),
    Nowhere,
}

/// Whether a choice can come to a target. Of a group it is the target for some number of
/// players before.
pub open spec fn can_come_to(choice: Choice, key: Seq<char>, target: LineTarget) -> bool {
    match choice {
        Choice::Line(_, wanted) => target == wanted,
        Choice::Group(_, group) => group.may_hand_out(key, target),
        Choice::Nowhere => false,
    }
}

/// The name of the line or group that was chosen.
pub open spec fn chosen_name(choice: Choice) -> Option<Seq<char>> {
    match choice {
        Choice::Line(name, _) => Some(name),
        Choice::Group(name, _) => Some(name),
        Choice::Nowhere => None,
    }
}

/// Whether a route is what a choice comes to.
pub open spec fn routed(
    choice: Choice,
    key: Seq<char>,
    route: Option<(String, LineTarget)>,
) -> bool {
    match route {
        None => choice is Nowhere,
        Some((name, target)) => chosen_name(choice) == Some(name@) && can_come_to(
            choice,
            key,
            target,
        ),
    }
}

impl RoutingConfig {
    /// Whether every group has a host.
    pub open spec fn groups_have_hosts(self) -> bool {
        forall|i: int| 0 <= i < self.group@.len() ==> (#[trigger] self.group@[i]).hosts@.len() > 0
    }

    /// Whether no rule names a condition on the player.
    pub open spec fn takes_any_player(self) -> bool {
        forall|i: int| 0 <= i < self.rules@.len() ==> (#[trigger] self.rules@[i]).any_player()
    }

    /// Whether the rule at a position applies.
    pub open spec fn applies_at(self, visit: Visit, i: int) -> bool {
        0 <= i < self.rules@.len() && self.rules@[i].applies(visit)
    }

    pub open spec fn rank_at(self, i: int) -> i32 {
        self.rules@[i].rank(self.group@)
    }

    /// Whether the rule at a position applies, with the highest priority of all that apply
    /// and as the first of those.
    pub open spec fn is_best(self, visit: Visit, i: int) -> bool {
        &&& self.applies_at(visit, i)
        &&& forall|j: int| #[trigger]
            self.applies_at(visit, j) ==> self.rank_at(j) < self.rank_at(i) || (self.rank_at(j)
                == self.rank_at(i) && i <= j)
    }

    /// The rule that decides.
    pub open spec fn deciding_rule(self, visit: Visit) -> Option<RouteRule> {
        if exists|i: int| self.is_best(visit, i) {
            Some(self.rules@[choose|i: int| self.is_best(visit, i)])
        } else {
            None
        }
    }

    /// What the default line comes to.
    pub open spec fn default_choice(self) -> Choice {
        match self.lines.find(self.default_line@) {
            Some(target) => Choice::Line(self.default_line@, target),
            None => match find_group(self.group@, self.default_line@) {
                Some(group) => Choice::Group(self.default_line@, group),
                None => Choice::Nowhere,
            },
        }
    }

    /// What a rule comes to: its line, or else its group, or else the default line.
    pub open spec fn rule_choice(self, rule: RouteRule) -> Choice {
        match rule.line_named(self.lines) {
            Some(name) => Choice::Line(name, self.lines.find(name)->0),
            None => match rule.group_named() {
                Some(name) => match find_group(self.group@, name) {
                    Some(group) => Choice::Group(name, group),
                    None => self.default_choice(),
                },
                None => self.default_choice(),
            },
        }
    }

    /// Where a connection is sent.
    pub open spec fn choice(self, visit: Visit) -> Choice {
        match self.deciding_rule(visit) {
            Some(rule) => self.rule_choice(rule),
            None => self.default_choice(),
        }
    }

    /// The line that a connection is sent to where groups are left aside: that of the
    /// deciding rule, or else the default line.
    pub open spec fn line_choice(self, visit: Visit) -> Seq<char> {
        match self.deciding_rule(visit) {
            Some(rule) => match rule.line_named(self.lines) {
                Some(name) => name,
                None => self.default_line@,
            },
            None => self.default_line@,
        }
    }

    fn select_matching_rule(
        &self,
        location: &IpLocation,
        player: Option<&str>,
        request_host: Option<&str>,
        security: Option<&Security>,
    ) -> (rule: Option<&RouteRule>)
        ensures
            match rule {
                Some(rule) => self.deciding_rule(
                    visit_of(*location, player, request_host, security),
                ) == Some(*rule),
                None => self.deciding_rule(visit_of(*location, player, request_host, security))
                    is None,
            },
    {
        let ghost visit = visit_of(*location, player, request_host, security);
        let mut best: Option<(i32, usize)> = None;
        let mut i: usize = 0;
        while i < self.rules.len()
            invariant
                i <= self.rules.len(),
                visit == visit_of(*location, player, request_host, security),
                match best {
                    None => forall|j: int| 0 <= j < i ==> !#[trigger] self.applies_at(visit, j),
                    Some((priority, at)) => {
                        &&& at < i
                        &&& self.applies_at(visit, at as int)
                        &&& priority == self.rank_at(at as int)
                        &&& forall|j: int|
                            0 <= j < i && #[trigger] self.applies_at(visit, j) ==> self.rank_at(j)
                                < priority || (self.rank_at(j) == priority && at <= j)
                    },
                },
            decreases self.rules.len() - i,
        {
            let rule = &self.rules[i];
            if rule.matches(location, player, request_host, security) {
                let priority = rule.effective_priority(&self.group);
                let replace = match best {
                    Some((best_priority, _)) => priority > best_priority,
                    None => true,
                };
                if replace {
                    best = Some((priority, i));
                }
            }
            i += 1;
        }
        match best {
            None => {
                None
            },
            Some((_, at)) => {
                proof {
                    let other = choose|j: int| self.is_best(visit, j);
                    lemma_best_rule_is_unique(*self, visit, at as int, other);
                }
                Some(&self.rules[at])
            },
        }
    }

    /// Whether there is a line or a group with a name.
    pub open spec fn has_named(self, name: Seq<char>) -> bool {
        self.lines.find(name) is Some || find_group(self.group@, name) is Some
    }

    fn has_target(&self, name: &str) -> (yes: bool)
        ensures
            yes == self.has_named(name@),
    {
        self.lines.get(name).is_some() || named_group(&self.group, name).is_some()
    }

    fn select_default(&self, balance_key: &str) -> (route: Option<(String, LineTarget)>)
        requires
            self.groups_have_hosts(),
        ensures
            routed(self.default_choice(), balance_key@, route),
    {
        match self.lines.get(self.default_line.as_str()) {
            Some(target) => {
                return Some((self.default_line.clone(), target.clone()));
            },
            None => {},
        }
        match named_group(&self.group, self.default_line.as_str()) {
            Some(group) => {
                proof {
                    lemma_found_group(self.group@, self.default_line@);
                }
                let target = group.select_target(balance_key);
                let name = self.default_line.clone();
                Some((name, target))
            },
            None => None,
        }
    }

    /// The line for an address, where groups are left aside.
    pub fn select_route<'a>(&'a self, location: &IpLocation) -> (route: Option<
        (&'a str, &'a LineTarget),
    >)
        ensures
            match route {
                Some((name, target)) => {
                    &&& name@ == self.line_choice(visit_of(*location, None, None, None))
                    &&& self.lines.find(name@) == Some(*target)
                },
                None => self.lines.find(
                    self.line_choice(visit_of(*location, None, None, None)),
                ) is None,
            },
    {
        self.select_route_for_host(location, None)
    }

    /// The line for an address and the host that was asked for, where groups are left aside.
    pub fn select_route_for_host<'a>(
        &'a self,
        location: &IpLocation,
        request_host: Option<&str>,
    ) -> (route: Option<(&'a str, &'a LineTarget)>)
        ensures
            match route {
                Some((name, target)) => {
                    &&& name@ == self.line_choice(visit_of(*location, None, request_host, None))
                    &&& self.lines.find(name@) == Some(*target)
                },
                None => self.lines.find(
                    self.line_choice(visit_of(*location, None, request_host, None)),
                ) is None,
            },
    {
        let name = match self.select_matching_rule(location, None, request_host, None) {
            Some(rule) => match rule.line_target_name(&self.lines) {
                Some(name) => name,
                None => self.default_line.as_str(),
            },
            None => self.default_line.as_str(),
        };
        match self.lines.get(name) {
            Some(target) => Some((name, target)),
            None => None,
        }
    }

    /// The route for a connection, whatever host was asked for.
    pub fn select_route_with_context(
        &self,
        location: &IpLocation,
        player: Option<&str>,
        security: &Security,
        balance_key: &str,
    ) -> (route: Option<(String, LineTarget)>)
        requires
            self.groups_have_hosts(),
        ensures
            routed(
                self.choice(visit_of(*location, player, None, Some(security))),
                balance_key@,
                route,
            ),
    {
        self.select_route_with_host_context(location, player, None, security, balance_key)
    }

    /// The route for a connection.
    pub fn select_route_with_host_context(
        &self,
        location: &IpLocation,
        player: Option<&str>,
        request_host: Option<&str>,
        security: &Security,
        balance_key: &str,
    ) -> (route: Option<(String, LineTarget)>)
        requires
            self.groups_have_hosts(),
        ensures
            routed(
                self.choice(visit_of(*location, player, request_host, Some(security))),
                balance_key@,
                route,
            ),
    {
        match self.select_matching_rule(location, player, request_host, Some(security)) {
            Some(rule) => {
                match rule.line_target_name(&self.lines) {
                    Some(name) => match self.lines.get(name) {
                        Some(target) => {
                            return Some((name.to_owned(), target.clone()));
                        },
                        None => {},
                    },
                    None => {},
                }
                match rule.group_target_name() {
                    Some(name) => match named_group(&self.group, name) {
                        Some(group) => {
                            proof {
                                lemma_found_group(self.group@, name@);
                            }
                            let target = group.select_target(balance_key);
                            return Some((name.to_owned(), target));
                        },
                        None => {},
                    },
                    None => {},
                }
            },
            None => {},
        }
        self.select_default(balance_key)
    }
}

/// No two rules decide: the highest priority and the order settle it.
pub proof fn lemma_best_rule_is_unique(config: RoutingConfig, visit: Visit, i: int, j: int)
    requires
        config.is_best(visit, i),
        config.is_best(visit, j),
    ensures
        i == j,
{
}

impl RoutingConfig {
    /// The routing of a host with a single target.
    pub fn from_single_target(target: LineTarget) -> (config: Self)
        ensures
            config.default_line@ == "default"@,
            config.lines.find("default"@) == Some(target),
            forall|name: Seq<char>| name != "default"@ ==> #[trigger] config.lines.find(name) is None,
            config.rules@.len() == 0,
            config.group@.len() == 0,
    {
        let mut lines: NameMap<LineTarget> = NameMap::new();
        lines.insert("default".to_owned(), target);
        RoutingConfig {
            default_line: "default".to_owned(),
            lines,
            rules: Vec::new(),
            group: Vec::new(),
        }
    }

    /// What is wrong with the lines, line by line.
    pub open spec fn line_findings(self) -> Seq<Option<Report>> {
        Seq::new(
            self.lines.names().len(),
            |i: int| self.lines.values()[i].problem(self.lines.names()[i]),
        )
    }

    /// Whether the name of the group at a position is taken by a line or an earlier group.
    pub open spec fn name_taken(self, i: int) -> bool {
        ||| self.lines.find(self.group@[i].group_name@) is Some
        ||| exists|j: int|
            0 <= j < i && (#[trigger] self.group@[j]).group_name@ == self.group@[i].group_name@
    }

    pub open spec fn group_problem(self, i: int) -> Option<Report> {
        let group = self.group@[i];
        if group.problem(i as nat) is Some {
            group.problem(i as nat)
        } else if self.name_taken(i) {
            Some(
                problem::plain(
                    "routing.group["@ + text::decimal(i as nat) + "].group_name '"@ + group.group_name@
                        + "' is duplicated"@,
                ),
            )
        } else {
            None
        }
    }

    /// What is wrong with the groups, group by group.
    pub open spec fn group_findings(self) -> Seq<Option<Report>> {
        Seq::new(self.group@.len(), |i: int| self.group_problem(i))
    }

    pub open spec fn rule_problem(self, i: int) -> Option<Report> {
        let rule = self.rules@[i];
        let place = "routing.rules["@ + text::decimal(i as nat);
        let has_line = !text::is_blank(rule.line@);
        let has_group = rule.group is Some && !text::is_blank(rule.group->0@);
        if has_line == has_group {
            Some(problem::plain(place + "] must define exactly one of line or group"@))
        } else if has_line && !self.has_named(rule.line@) {
            Some(
                problem::plain(
                    place + "].line '"@ + rule.line@
                        + "' is not present in routing.lines or routing.group"@,
                ),
            )
        } else if has_group && find_group(self.group@, rule.group->0@) is None {
            Some(
                problem::plain(place + "].group '"@ + rule.group->0@ + "' is not present in routing.group"@),
            )
        } else {
            None
        }
    }

    /// What is wrong with the rules, rule by rule.
    pub open spec fn rule_findings(self) -> Seq<Option<Report>> {
        Seq::new(self.rules@.len(), |i: int| self.rule_problem(i))
    }

    /// What is wrong with the configuration.
    pub open spec fn problem(self) -> Option<Report> {
        if self.lines.names().len() == 0 && self.group@.len() == 0 {
            Some(problem::plain("routing.lines or routing.group must contain at least one target"@))
        } else if self.default_line@.len() > 0 && !self.has_named(self.default_line@) {
            Some(
                problem::plain(
                    "routing.default_line '"@ + self.default_line@
                        + "' is not present in routing.lines or routing.group"@,
                ),
            )
        } else if self.default_line@.len() == 0 && self.rules@.len() == 0 {
            Some(
                problem::plain("routing.default_line must not be empty when routing.rules is empty"@),
            )
        } else if problem::first_problem(self.line_findings()) is Some {
            problem::first_problem(self.line_findings())
        } else if problem::first_problem(self.group_findings()) is Some {
            problem::first_problem(self.group_findings())
        } else {
            problem::first_problem(self.rule_findings())
        }
    }

    pub fn validate(&self) -> (outcome: Result<(), Problem>)
        ensures
            problem::failure(outcome) == self.problem(),
    {
        if self.lines.is_empty() && self.group.is_empty() {
            return Err(
                Problem::new(
                    "routing.lines or routing.group must contain at least one target".to_owned(),
                ),
            );
        }
        if !self.default_line.as_str().is_empty() && !self.has_target(self.default_line.as_str()) {
            return Err(
                Problem::new(
                    cat3(
                        "routing.default_line '",
                        self.default_line.as_str(),
                        "' is not present in routing.lines or routing.group",
                    ),
                ),
            );
        }
        if self.default_line.as_str().is_empty() && self.rules.is_empty() {
            return Err(
                Problem::new(
                    "routing.default_line must not be empty when routing.rules is empty".to_owned(),
                ),
            );
        }
        match self.validate_lines() {
            Ok(_) => {},
            Err(problem) => {
                return Err(problem);
            },
        }
        match self.validate_groups() {
            Ok(_) => {},
            Err(problem) => {
                return Err(problem);
            },
        }
        self.validate_rules()
    }

    fn validate_lines(&self) -> (outcome: Result<(), Problem>)
        ensures
            problem::failure(outcome) == problem::first_problem(self.line_findings()),
    {
        let ghost findings = self.line_findings();
        let count = self.lines.len();
        let mut i: usize = 0;
        while i < count
            invariant
                i <= count == self.lines.names().len(),
                findings == self.line_findings(),
                forall|k: int| 0 <= k < i ==> (#[trigger] findings[k]) is None,
            decreases count - i,
        {
            match self.lines.value_at(i).validate(self.lines.name_at(i)) {
                Ok(_) => {},
                Err(problem) => {
                    proof {
                        problem::lemma_first_problem(findings, i as int);
                    }
                    return Err(problem);
                },
            }
            i += 1;
        }
        proof {
            problem::lemma_no_problem(findings);
        }
        Ok(())
    }

    fn is_name_taken(&self, i: usize) -> (yes: bool)
        requires
            i < self.group@.len(),
        ensures
            yes == self.name_taken(i as int),
    {
        let name = self.group[i].group_name.as_str();
        if self.lines.get(name).is_some() {
            return true;
        }
        let mut j: usize = 0;
        while j < i
            invariant
                j <= i < self.group@.len(),
                name@ == self.group@[i as int].group_name@,
                forall|k: int| 0 <= k < j ==> (#[trigger] self.group@[k]).group_name@ != name@,
            decreases i - j,
        {
            if same_text(self.group[j].group_name.as_str(), name) {
                return true;
            }
            j += 1;
        }
        false
    }

    fn validate_groups(&self) -> (outcome: Result<(), Problem>)
        ensures
            problem::failure(outcome) == problem::first_problem(self.group_findings()),
    {
        let ghost findings = self.group_findings();
        let mut i: usize = 0;
        while i < self.group.len()
            invariant
                i <= self.group.len(),
                findings == self.group_findings(),
                forall|k: int| 0 <= k < i ==> (#[trigger] findings[k]) is None,
            decreases self.group.len() - i,
        {
            match self.group[i].validate(i) {
                Ok(_) => {},
                Err(problem) => {
                    proof {
                        problem::lemma_first_problem(findings, i as int);
                    }
                    return Err(problem);
                },
            }
            if self.is_name_taken(i) {
                let index = unsigned_to_text(i as u64);
                proof {
                    problem::lemma_first_problem(findings, i as int);
                }
                return Err(
                    Problem::new(
                        cat5(
                            "routing.group[",
                            index.as_str(),
                            "].group_name '",
                            self.group[i].group_name.as_str(),
                            "' is duplicated",
                        ),
                    ),
                );
            }
            i += 1;
        }
        proof {
            problem::lemma_no_problem(findings);
        }
        Ok(())
    }

    fn validate_rule(&self, i: usize) -> (outcome: Result<(), Problem>)
        requires
            i < self.rules@.len(),
        ensures
            problem::failure(outcome) == self.rule_problem(i as int),
    {
        let rule = &self.rules[i];
        let index = unsigned_to_text(i as u64);
        let has_line = !blank(rule.line.as_str());
        let has_group = match &rule.group {
            Some(group) => !blank(group.as_str()),
            None => false,
        };
        if has_line == has_group {
            return Err(
                Problem::new(
                    cat3(
                        "routing.rules[",
                        index.as_str(),
                        "] must define exactly one of line or group",
                    ),
                ),
            );
        }
        if has_line && !self.has_target(rule.line.as_str()) {
            return Err(
                Problem::new(
                    cat5(
                        "routing.rules[",
                        index.as_str(),
                        "].line '",
                        rule.line.as_str(),
                        "' is not present in routing.lines or routing.group",
                    ),
                ),
            );
        }
        match &rule.group {
            Some(group) => {
                if has_group && named_group(&self.group, group.as_str()).is_none() {
                    return Err(
                        Problem::new(
                            cat5(
                                "routing.rules[",
                                index.as_str(),
                                "].group '",
                                group.as_str(),
                                "' is not present in routing.group",
                            ),
                        ),
                    );
                }
            },
            None => {},
        }
        Ok(())
    }

    fn validate_rules(&self) -> (outcome: Result<(), Problem>)
        ensures
            problem::failure(outcome) == problem::first_problem(self.rule_findings()),
    {
        let ghost findings = self.rule_findings();
        let mut i: usize = 0;
        while i < self.rules.len()
            invariant
                i <= self.rules.len(),
                findings == self.rule_findings(),
                forall|k: int| 0 <= k < i ==> (#[trigger] findings[k]) is None,
            decreases self.rules.len() - i,
        {
            match self.validate_rule(i) {
                Ok(_) => {},
                Err(problem) => {
                    proof {
                        problem::lemma_first_problem(findings, i as int);
                    }
                    return Err(problem);
                },
            }
            i += 1;
        }
        proof {
            problem::lemma_no_problem(findings);
        }
        Ok(())
    }
}

/// In a configuration without problems every group has a host.
pub proof fn lemma_valid_groups_have_hosts(config: RoutingConfig)
    requires
        config.problem() is None,
    ensures
        config.groups_have_hosts(),
{
    problem::lemma_no_problem(config.group_findings());
    assert forall|i: int| 0 <= i < config.group@.len() implies (
    #[trigger] config.group@[i]).hosts@.len() > 0 by {
        assert(config.group_findings()[i] is None);
    }
}

/// In a configuration without problems a rule that decides leads to the line or the group
/// that it names itself.
pub proof fn lemma_valid_rule_leads_somewhere(config: RoutingConfig, i: int)
    requires
        config.problem() is None,
        0 <= i < config.rules@.len(),
    ensures
        match config.rule_choice(config.rules@[i]) {
            Choice::Line(name, target) => name == config.rules@[i].line@,
            Choice::Group(name, group) => config.rules@[i].group_named() == Some(name),
            Choice::Nowhere => false,
        },
{
    problem::lemma_no_problem(config.rule_findings());
    assert(config.rule_findings()[i] is None);
}

/// In a configuration without problems a connection has a route, unless there is no
/// default line and no rule applies.
pub proof fn lemma_valid_config_routes(config: RoutingConfig, visit: Visit)
    requires
        config.problem() is None,
    ensures
        config.choice(visit) is Nowhere ==> config.default_line@.len() == 0 && forall|i: int|
            !config.applies_at(visit, i),
{
    if exists|i: int| config.is_best(visit, i) {
        let i = choose|i: int| config.is_best(visit, i);
        lemma_valid_rule_leads_somewhere(config, i);
    } else {
        if exists|i: int| config.applies_at(visit, i) {
            lemma_some_rule_is_best(config, visit, config.rules@.len() as int);
        }
    }
}

/// Where a rule applies, one is the best.
proof fn lemma_some_rule_is_best(config: RoutingConfig, visit: Visit, n: int)
    requires
        0 <= n <= config.rules@.len(),
        exists|i: int| i < n && #[trigger] config.applies_at(visit, i),
        n == config.rules@.len(),
    ensures
        exists|i: int| config.is_best(visit, i),
{
    lemma_best_before(config, visit, n);
    let i = choose|i: int| best_before(config, visit, n, i);
    assert(config.is_best(visit, i)) by {}
}

spec fn best_before(config: RoutingConfig, visit: Visit, n: int, i: int) -> bool {
    &&& i < n
    &&& config.applies_at(visit, i)
    &&& forall|j: int|
        j < n && #[trigger] config.applies_at(visit, j) ==> config.rank_at(j) < config.rank_at(i)
            || (config.rank_at(j) == config.rank_at(i) && i <= j)
}

proof fn lemma_best_before(config: RoutingConfig, visit: Visit, n: int)
    requires
        0 <= n <= config.rules@.len(),
        exists|i: int| i < n && #[trigger] config.applies_at(visit, i),
    ensures
        exists|i: int| best_before(config, visit, n, i),
    decreases n,
{
    let last = n - 1;
    if exists|i: int| i < last && #[trigger] config.applies_at(visit, i) {
        lemma_best_before(config, visit, last);
        let i = choose|i: int| best_before(config, visit, last, i);
        if config.applies_at(visit, last) && config.rank_at(last) > config.rank_at(i) {
            assert(best_before(config, visit, n, last));
        } else {
            assert(best_before(config, visit, n, i));
        }
    } else {
        assert(best_before(config, visit, n, last));
    }
}

/// In a configuration without problems a route leads to a host that is named, fits in a
/// packet, and has a port.
pub proof fn lemma_valid_route_is_usable(
    config: RoutingConfig,
    visit: Visit,
    key: Seq<char>,
    target: LineTarget,
)
    requires
        config.problem() is None,
        config.lines.well_formed(),
        can_come_to(config.choice(visit), key, target),
    ensures
        !text::is_blank(target.host@),
        byte_length(target.host@) <= 255,
        target.port > 0,
{
    match config.choice(visit) {
        Choice::Line(line, wanted) => {
            let i = config.lines.names().index_of(line);
            assert(config.lines.find(line) == Some(wanted));
            problem::lemma_no_problem(config.line_findings());
            assert(config.line_findings()[i] is None);
        },
        Choice::Group(line, group) => {
            lemma_found_group(config.group@, line);
            let i = config.group@.index_of(group);
            problem::lemma_no_problem(config.group_findings());
            assert(config.group_findings()[i] is None);
            let sequence = choose|sequence: usize| group.hands_out(sequence, key, target);
            let findings = host_findings(i as nat, text::texts(group.hosts@));
            problem::lemma_no_problem(findings);
            let n = group.hosts@.len() as int;
            let place = balance::place_for(group_mode(group.mode@), sequence, balance::key_hash(key), n as nat);
            assert(findings[place] is None);
        },
        Choice::Nowhere => {},
    }
}

/// A rule without conditions applies to every connection.
pub proof fn lemma_unconditional_rule_applies(rule: RouteRule, visit: Visit)
    requires
        rule.is_unconditional(),
    ensures
        rule.applies(visit),
{
}

/// A rule with a higher priority takes precedence over one with a lower priority, and of
/// two rules with the same priority the first in the file does.
pub proof fn lemma_priority_then_order(config: RoutingConfig, visit: Visit, i: int, j: int)
    requires
        config.applies_at(visit, i),
        config.applies_at(visit, j),
        config.rank_at(i) > config.rank_at(j) || (config.rank_at(i) == config.rank_at(j) && i < j),
    ensures
        !config.is_best(visit, j),
{
}

/// Where no rule names a condition on the player, it makes no difference who asks.
pub proof fn lemma_player_makes_no_difference(config: RoutingConfig, visit: Visit, other: Visit)
    requires
        config.takes_any_player(),
        other == (Visit { player: other.player, ..visit }),
    ensures
        config.choice(visit) == config.choice(other),
{
    assert forall|i: int| config.applies_at(visit, i) == #[trigger] config.applies_at(
        other,
        i,
    ) by {
        if 0 <= i < config.rules@.len() {
            assert(config.rules@[i].any_player());
        }
    }
    assert forall|i: int| config.is_best(visit, i) == #[trigger] config.is_best(other, i) by {
        if config.is_best(other, i) {
            assert forall|j: int| #[trigger] config.applies_at(visit, j) implies config.rank_at(j)
                < config.rank_at(i) || (config.rank_at(j) == config.rank_at(i) && i <= j) by {
                assert(config.applies_at(other, j));
            }
        }
    }
    if exists|i: int| config.is_best(visit, i) {
        let i = choose|i: int| config.is_best(visit, i);
        assert(config.is_best(other, i));
        let j = choose|j: int| config.is_best(other, j);
        lemma_best_rule_is_unique(config, other, i, j);
    }
}

/// A rule applies to a connection exactly when all its conditions hold. A list without `!`
/// entries asks for a known value that is one of its entries: the host that was asked for
/// (up to case and dots at the end), the country, the province and the city of the address and
/// the player (up to case), or the provider, of whose name an entry is a part. An entry with
/// `!`, or an entry of a `not_` list, rules its value out. The conditions on the lists ask for
/// the wanted mark.
pub proof fn lemma_rule_applies_exactly_when_its_conditions_hold(rule: RouteRule, visit: Visit)
    ensures
        rule.applies(visit) <==> {
            &&& forall|k: int|
                0 <= k < rule.hosts@.len() && !((#[trigger] rule.hosts@[k])@.len() > 1
                    && rule.hosts@[k]@[0] == '!') ==> visit.host is Some && exists|i: int|
                    0 <= i < rule.hosts@.len() && !((#[trigger] rule.hosts@[i])@.len() > 1
                        && rule.hosts@[i]@[0] == '!')
                        && text::same_ignoring_case(
                            matching::host_form(rule.hosts@[i]@),
                            matching::host_form(visit.host->0),
                        )
            &&& forall|k: int|
                0 <= k < rule.hosts@.len() && ((#[trigger] rule.hosts@[k])@.len() > 1
                    && rule.hosts@[k]@[0] == '!') && visit.host is Some
                    ==> !text::same_ignoring_case(
                        matching::host_form(rule.hosts@[k]@.skip(1)),
                        matching::host_form(visit.host->0),
                    )
            &&& forall|k: int|
                0 <= k < rule.not_hosts@.len() && visit.host is Some ==> {
                    let entry = (#[trigger] rule.not_hosts@[k])@;
                    let value = if entry.len() > 1 && entry[0] == '!' {
                        entry.skip(1)
                    } else {
                        entry
                    };
                    !text::same_ignoring_case(
                        matching::host_form(value),
                        matching::host_form(visit.host->0),
                    )
                }
            &&& forall|k: int|
                0 <= k < rule.countries@.len() && !((#[trigger] rule.countries@[k])@.len() > 1
                    && rule.countries@[k]@[0] == '!') ==> visit.place.country_code is Some
                    && exists|i: int|
                    0 <= i < rule.countries@.len() && !((#[trigger] rule.countries@[i])@.len() > 1
                        && rule.countries@[i]@[0] == '!')
                        && text::same_ignoring_case(rule.countries@[i]@, visit.place.country_code->0)
            &&& forall|k: int|
                0 <= k < rule.countries@.len() && ((#[trigger] rule.countries@[k])@.len() > 1
                    && rule.countries@[k]@[0] == '!') && visit.place.country_code is Some
                    ==> !text::same_ignoring_case(rule.countries@[k]@.skip(1), visit.place.country_code->0)
            &&& forall|k: int|
                0 <= k < rule.not_countries@.len() && visit.place.country_code is Some ==> {
                    let entry = (#[trigger] rule.not_countries@[k])@;
                    let value = if entry.len() > 1 && entry[0] == '!' {
                        entry.skip(1)
                    } else {
                        entry
                    };
                    !text::same_ignoring_case(value, visit.place.country_code->0)
                }
            &&& forall|k: int|
                0 <= k < rule.provinces@.len() && !((#[trigger] rule.provinces@[k])@.len() > 1
                    && rule.provinces@[k]@[0] == '!') ==> visit.place.province is Some
                    && exists|i: int|
                    0 <= i < rule.provinces@.len() && !((#[trigger] rule.provinces@[i])@.len() > 1
                        && rule.provinces@[i]@[0] == '!')
                        && text::same_ignoring_case(rule.provinces@[i]@, visit.place.province->0)
            &&& forall|k: int|
                0 <= k < rule.provinces@.len() && ((#[trigger] rule.provinces@[k])@.len() > 1
                    && rule.provinces@[k]@[0] == '!') && visit.place.province is Some
                    ==> !text::same_ignoring_case(rule.provinces@[k]@.skip(1), visit.place.province->0)
            &&& forall|k: int|
                0 <= k < rule.not_provinces@.len() && visit.place.province is Some ==> {
                    let entry = (#[trigger] rule.not_provinces@[k])@;
                    let value = if entry.len() > 1 && entry[0] == '!' {
                        entry.skip(1)
                    } else {
                        entry
                    };
                    !text::same_ignoring_case(value, visit.place.province->0)
                }
            &&& forall|k: int|
                0 <= k < rule.cities@.len() && !((#[trigger] rule.cities@[k])@.len() > 1
                    && rule.cities@[k]@[0] == '!') ==> visit.place.city is Some && exists|i: int|
                    0 <= i < rule.cities@.len() && !((#[trigger] rule.cities@[i])@.len() > 1
                        && rule.cities@[i]@[0] == '!')
                        && text::same_ignoring_case(rule.cities@[i]@, visit.place.city->0)
            &&& forall|k: int|
                0 <= k < rule.cities@.len() && ((#[trigger] rule.cities@[k])@.len() > 1
                    && rule.cities@[k]@[0] == '!') && visit.place.city is Some
                    ==> !text::same_ignoring_case(rule.cities@[k]@.skip(1), visit.place.city->0)
            &&& forall|k: int|
                0 <= k < rule.not_cities@.len() && visit.place.city is Some ==> {
                    let entry = (#[trigger] rule.not_cities@[k])@;
                    let value = if entry.len() > 1 && entry[0] == '!' {
                        entry.skip(1)
                    } else {
                        entry
                    };
                    !text::same_ignoring_case(value, visit.place.city->0)
                }
            &&& forall|k: int|
                0 <= k < rule.isp_contains@.len()
                    && !((#[trigger] rule.isp_contains@[k])@.len() > 1
                    && rule.isp_contains@[k]@[0] == '!') ==> visit.place.isp is Some
                    && exists|i: int|
                    0 <= i < rule.isp_contains@.len()
                        && !((#[trigger] rule.isp_contains@[i])@.len() > 1
                        && rule.isp_contains@[i]@[0] == '!')
                        && text::occurs_in(
                            text::lowercase_text(visit.place.isp->0),
                            text::lowercase_text(rule.isp_contains@[i]@),
                        )
            &&& forall|k: int|
                0 <= k < rule.isp_contains@.len()
                    && ((#[trigger] rule.isp_contains@[k])@.len() > 1
                    && rule.isp_contains@[k]@[0] == '!') && visit.place.isp is Some
                    ==> !text::occurs_in(
                        text::lowercase_text(visit.place.isp->0),
                        text::lowercase_text(rule.isp_contains@[k]@.skip(1)),
                    )
            &&& forall|k: int|
                0 <= k < rule.not_isp_contains@.len() && visit.place.isp is Some ==> {
                    let entry = (#[trigger] rule.not_isp_contains@[k])@;
                    let value = if entry.len() > 1 && entry[0] == '!' {
                        entry.skip(1)
                    } else {
                        entry
                    };
                    !text::occurs_in(
                        text::lowercase_text(visit.place.isp->0),
                        text::lowercase_text(value),
                    )
                }
            &&& (rule.players@.len() == 0 && rule.not_players@.len() == 0)
                || (visit.player is Some && {
                    &&& forall|k: int|
                        0 <= k < rule.players@.len() && !((#[trigger] rule.players@[k])@.len() > 1
                            && rule.players@[k]@[0] == '!') ==> visit.player is Some
                            && exists|i: int|
                            0 <= i < rule.players@.len()
                                && !((#[trigger] rule.players@[i])@.len() > 1
                                && rule.players@[i]@[0] == '!')
                                && text::same_ignoring_case(rule.players@[i]@, visit.player->0)
                    &&& forall|k: int|
                        0 <= k < rule.players@.len() && ((#[trigger] rule.players@[k])@.len() > 1
                            && rule.players@[k]@[0] == '!') && visit.player is Some
                            ==> !text::same_ignoring_case(rule.players@[k]@.skip(1), visit.player->0)
                    &&& forall|k: int|
                        0 <= k < rule.not_players@.len() && visit.player is Some ==> {
                            let entry = (#[trigger] rule.not_players@[k])@;
                            let value = if entry.len() > 1 && entry[0] == '!' {
                                entry.skip(1)
                            } else {
                                entry
                            };
                            !text::same_ignoring_case(value, visit.player->0)
                        }
            })
            &&& rule.vpn is Some || rule.not_vpn || rule.spam is Some || rule.not_spam
                || rule.tor is Some
                || rule.not_tor ==> visit.marks is Some
            &&& rule.vpn matches Some(wanted) ==> visit.marks->0.vpn == wanted
            &&& rule.not_vpn ==> !visit.marks->0.vpn
            &&& rule.spam matches Some(wanted) ==> visit.marks->0.spam == wanted
            &&& rule.not_spam ==> !visit.marks->0.spam
            &&& rule.tor matches Some(wanted) ==> visit.marks->0.tor == wanted
            &&& rule.not_tor ==> !visit.marks->0.tor
        },
{
    matching::lemma_passes_entry_by_entry(
        Comparison::Host,
        rule.hosts,
        rule.not_hosts,
        visit.host,
    );
    matching::lemma_passes_entry_by_entry(
        Comparison::Text,
        rule.countries,
        rule.not_countries,
        visit.place.country_code,
    );
    matching::lemma_passes_entry_by_entry(
        Comparison::Text,
        rule.provinces,
        rule.not_provinces,
        visit.place.province,
    );
    matching::lemma_passes_entry_by_entry(
        Comparison::Text,
        rule.cities,
        rule.not_cities,
        visit.place.city,
    );
    matching::lemma_passes_entry_by_entry(
        Comparison::Part,
        rule.isp_contains,
        rule.not_isp_contains,
        visit.place.isp,
    );
    matching::lemma_passes_entry_by_entry(
        Comparison::Text,
        rule.players,
        rule.not_players,
        visit.player,
    );
}

/// A rule is held against the connection as it is: the address with all that is known of its
/// place, the player, the host that was asked for, and the lists that the address is on.
pub proof fn lemma_rule_sees_the_connection(
    rule: RouteRule,
    location: IpLocation,
    player: Option<&str>,
    host: Option<&str>,
    security: Option<&Security>,
    yes: bool,
)
    requires
        call_ensures(RouteRule::matches, (&rule, &location, player, host, security), yes),
    ensures
        ({
            let place = Place {
                ip: location.ip,
                country_code: if location.country_code is Some {
                    Some(location.country_code->0@)
                } else {
                    None
                },
                country_name: if location.country_name is Some {
                    Some(location.country_name->0@)
                } else {
                    None
                },
                province: if location.province is Some {
                    Some(location.province->0@)
                } else {
                    None
                },
                city: if location.city is Some {
                    Some(location.city->0@)
                } else {
                    None
                },
                isp: if location.isp is Some {
                    Some(location.isp->0@)
                } else {
                    None
                },
            };
            yes == rule.applies(
                Visit {
                    place,
                    player: if player is Some {
                        Some(player->0@)
                    } else {
                        None
                    },
                    host: if host is Some {
                        Some(host->0@)
                    } else {
                        None
                    },
                    marks: if security is Some {
                        Some(
                            Marks {
                                vpn: security->0.guard().vpn_hit(place),
                                spam: security->0.guard().spam.has(location.ip),
                                tor: security->0.guard().tor.has(location.ip),
                            },
                        )
                    } else {
                        None
                    },
                },
            )
        }),
{
}

/// A group that goes round hands out the host at the place of the number that its counter had
/// when it was raised by one for the call, over again after the last host, with the port of
/// the group and its choice on service records. The balance key makes no difference.
pub proof fn lemma_round_robin_goes_by_the_counter(
    group: RoutingGroup,
    key: &str,
    target: LineTarget,
) -> (sequence: usize)
    requires
        group.hosts@.len() > 0,
        balance::mode_of(group.mode@) != Some(GroupMode::Random),
        balance::mode_of(group.mode@) != Some(GroupMode::IpHash),
        call_ensures(RoutingGroup::select_target, (&group, key), target),
    ensures
        call_ensures(
            AtomicUsize::fetch_add,
            (&*group.counter, 1usize, Ordering::Relaxed),
            sequence,
        ),
        target.host@ == group.hosts@[(0int + sequence) % (0int + group.hosts@.len())]@,
        target.port == group.port,
        target.resolve_srv == group.resolve_srv,
{
    choose|sequence: usize| group.counts(sequence)
        && #[trigger] group.hands_out(sequence, key@, target)
}

/// The call of `select_target` that finds the counter at `n` hands out the host with the
/// number `n`, counted from zero on and over again after the last.
pub proof fn lemma_nth_call_gets_the_nth_host(
    group: RoutingGroup,
    n: int,
    key: &str,
    target: LineTarget,
)
    requires
        group.hosts@.len() > 0,
        balance::mode_of(group.mode@) != Some(GroupMode::Random),
        balance::mode_of(group.mode@) != Some(GroupMode::IpHash),
        forall|m: usize|
            call_ensures(
                AtomicUsize::fetch_add,
                (&*group.counter, 1usize, Ordering::Relaxed),
                m,
            ) ==> m == n,
        call_ensures(RoutingGroup::select_target, (&group, key), target),
    ensures
        target.host@ == group.hosts@[n % (0int + group.hosts@.len())]@,
{
    let m = lemma_round_robin_goes_by_the_counter(group, key, target);
}

/// As many calls of `select_target` in a row as a group that goes round has hosts reach every
/// one of them: the calls find the counter at `first` and the numbers behind it.
pub proof fn lemma_calls_in_a_row_reach_every_host(
    groups: Seq<RoutingGroup>,
    keys: Seq<&str>,
    targets: Seq<LineTarget>,
    first: usize,
    place: int,
) -> (call: int)
    requires
        groups.len() > 0,
        0 <= place < groups[0].hosts@.len() == groups.len() == keys.len() == targets.len(),
        first + groups.len() <= usize::MAX,
        forall|i: int|
            0 <= i < groups.len() ==> {
                &&& (#[trigger] groups[i]).hosts == groups[0].hosts
                &&& groups[i].mode == groups[0].mode
                &&& balance::mode_of(groups[i].mode@) == Some(GroupMode::RoundRobin)
                &&& forall|m: usize|
                    call_ensures(
                        AtomicUsize::fetch_add,
                        (&*groups[i].counter, 1usize, Ordering::Relaxed),
                        m,
                    ) ==> m == first + i
                &&& call_ensures(RoutingGroup::select_target, (&groups[i], keys[i]), targets[i])
            },
    ensures
        0 <= call < targets.len(),
        targets[call].host@ == groups[0].hosts@[place]@,
{
    let n = groups.len();
    let steps = balance::lemma_round_robin_reaches_every_place(first, 0, n, place);
    let call = 0int + steps;
    assert(groups[call].hosts == groups[0].hosts);
    lemma_nth_call_gets_the_nth_host(
        groups[call],
        first + steps,
        keys[call],
        targets[call],
    );
    call
}

/// The counter of a new group is one that was made with zero.
pub proof fn lemma_new_group_counts_from_zero(
    priority: i32,
    group_name: String,
    mode: String,
    port: u16,
    resolve_srv: bool,
    hosts: Vec<String>,
    group: RoutingGroup,
)
    requires
        call_ensures(
            RoutingGroup::new,
            (priority, group_name, mode, port, resolve_srv, hosts),
            group,
        ),
    ensures
        call_ensures(AtomicUsize::new, (0usize,), *group.counter),
        group.priority == priority,
        group.group_name@ == group_name@,
        group.mode@ == mode@,
        group.port == port,
        group.resolve_srv == resolve_srv,
        group.hosts@ == hosts@,
{
}

/// The priority of a rule is its own; a rule without one has that of the first group with the
/// name that its `group`, or else its `line`, says.
pub proof fn lemma_rank_of_a_rule(rule: RouteRule, groups: Seq<RoutingGroup>, g: int)
    requires
        0 <= g < groups.len(),
        forall|k: int|
            0 <= k < g ==> (#[trigger] groups[k]).group_name@ != groups[g].group_name@,
    ensures
        rule.priority != 0 ==> rule.rank(groups) == rule.priority,
        rule.priority == 0 && rule.group is Some && !text::is_blank(rule.group->0@)
            && rule.group->0@ == groups[g].group_name@ ==> rule.rank(groups) == groups[g].priority,
        rule.priority == 0 && (rule.group is None || text::is_blank(rule.group->0@))
            && !text::is_blank(rule.line@) && rule.line@ == groups[g].group_name@ ==> rule.rank(
            groups,
        ) == groups[g].priority,
{
    lemma_find_group(groups, groups[g].group_name@, g);
}

/// A rule that names no group of the configuration, and has no priority of its own, has the
/// priority zero.
pub proof fn lemma_rank_without_a_group(rule: RouteRule, groups: Seq<RoutingGroup>)
    requires
        rule.priority == 0,
        forall|k: int|
            0 <= k < groups.len() ==> (#[trigger] groups[k]).group_name@ != rule.line@
                && (rule.group
                is None || groups[k].group_name@ != rule.group->0@),
    ensures
        rule.rank(groups) == 0,
{
    lemma_find_group(groups, rule.line@, groups.len() as int);
    if rule.group is Some {
        lemma_find_group(groups, rule.group->0@, groups.len() as int);
    }
}

/// Of the rules that apply to a connection, the one with the highest priority decides, and of
/// several with that priority the first. It leads to the line that it names; to the first
/// group with the name that its `group`, or else its `line`, says, if there is no such line.
pub proof fn lemma_route_of_the_deciding_rule(
    config: RoutingConfig,
    location: IpLocation,
    player: Option<&str>,
    host: Option<&str>,
    security: &Security,
    key: &str,
    route: Option<(String, LineTarget)>,
    i: int,
)
    requires
        config.groups_have_hosts(),
        call_ensures(
            RoutingConfig::select_route_with_host_context,
            (&config, &location, player, host, security, key),
            route,
        ),
        0 <= i < config.rules@.len(),
        config.rules@[i].applies(visit_of(location, player, host, Some(security))),
        forall|j: int|
            0 <= j < config.rules@.len() && j != i && (#[trigger] config.rules@[j]).applies(
                visit_of(location, player, host, Some(security)),
            ) ==> config.rules@[j].rank(config.group@) < config.rules@[i].rank(config.group@) || (
            config.rules@[j].rank(config.group@) == config.rules@[i].rank(config.group@) && i < j),
    ensures
        !text::is_blank(config.rules@[i].line@) && config.lines.find(config.rules@[i].line@) is Some
            ==> route is Some && (route->0).0@ == config.rules@[i].line@ && Some((route->0).1)
            == config.lines.find(config.rules@[i].line@),
        forall|g: int|
            ({
                let rule = config.rules@[i];
                let name = if rule.group is Some && !text::is_blank(rule.group->0@) {
                    rule.group->0@
                } else {
                    rule.line@
                };
                &&& text::is_blank(rule.line@) || config.lines.find(rule.line@) is None
                &&& !text::is_blank(name)
                &&& 0 <= g < config.group@.len()
                &&& (#[trigger] config.group@[g]).group_name@ == name
                &&& forall|k: int| 0 <= k < g ==> (#[trigger] config.group@[k]).group_name@ != name
            }) ==> route is Some && (route->0).0@ == config.group@[g].group_name@
                && config.group@[g].may_hand_out(key@, (route->0).1),
{
    let visit = visit_of(location, player, host, Some(security));
    assert forall|j: int| #[trigger] config.applies_at(visit, j) implies config.rank_at(j)
        < config.rank_at(i) || (config.rank_at(j) == config.rank_at(i) && i <= j) by {}
    assert(config.is_best(visit, i));
    let other = choose|j: int| config.is_best(visit, j);
    lemma_best_rule_is_unique(config, visit, i, other);
    assert(config.deciding_rule(visit) == Some(config.rules@[i]));
    let rule = config.rules@[i];
    let name = if rule.group is Some && !text::is_blank(rule.group->0@) {
        rule.group->0@
    } else {
        rule.line@
    };
    assert forall|g: int|
        ({
            &&& text::is_blank(rule.line@) || config.lines.find(rule.line@) is None
            &&& !text::is_blank(name)
            &&& 0 <= g < config.group@.len()
            &&& (#[trigger] config.group@[g]).group_name@ == name
            &&& forall|k: int| 0 <= k < g ==> (#[trigger] config.group@[k]).group_name@ != name
        }) implies route is Some && (route->0).0@ == config.group@[g].group_name@
        && config.group@[g].may_hand_out(key@, (route->0).1) by {
        lemma_find_group(config.group@, name, g);
    }
}

/// A connection that no rule applies to takes the default line: the line with that name, or
/// else the first group with it. Without either there is no route.
pub proof fn lemma_route_without_a_rule(
    config: RoutingConfig,
    location: IpLocation,
    player: Option<&str>,
    host: Option<&str>,
    security: &Security,
    key: &str,
    route: Option<(String, LineTarget)>,
)
    requires
        config.groups_have_hosts(),
        call_ensures(
            RoutingConfig::select_route_with_host_context,
            (&config, &location, player, host, security, key),
            route,
        ),
        forall|j: int|
            0 <= j < config.rules@.len() ==> !(#[trigger] config.rules@[j]).applies(
                visit_of(location, player, host, Some(security)),
            ),
    ensures
        config.lines.find(config.default_line@) is Some ==> route is Some && (route->0).0@
            == config.default_line@
                && Some((route->0).1) == config.lines.find(config.default_line@),
        config.lines.find(config.default_line@) is None ==> {
            &&& forall|g: int|
                0 <= g < config.group@.len() && (#[trigger] config.group@[g]).group_name@
                    == config.default_line@ && (forall|k: int|
                    0 <= k < g ==> (#[trigger] config.group@[k]).group_name@
                        != config.default_line@) ==> route is Some && (route->0).0@
                    == config.default_line@ && config.group@[g].may_hand_out(key@, (route->0).1)
            &&& (forall|g: int|
                0 <= g < config.group@.len() ==> (#[trigger] config.group@[g]).group_name@
                    != config.default_line@) ==> route is None
        },
{
    let visit = visit_of(location, player, host, Some(security));
    assert(forall|j: int| !config.applies_at(visit, j));
    assert(config.deciding_rule(visit) is None);
    let name = config.default_line@;
    assert forall|g: int|
        0 <= g < config.group@.len() && (#[trigger] config.group@[g]).group_name@ == name
            && (forall|
            k: int,
        |
            0 <= k < g ==> (#[trigger] config.group@[k]).group_name@ != name) implies find_group(
        config.group@,
        name,
    ) == Some(config.group@[g]) by {
        lemma_find_group(config.group@, name, g);
    }
    lemma_found_group(config.group@, name);
}

/// A group that goes by the balance key hands out the host at the place of the hash that the
/// hasher of the standard library makes of the key.
pub proof fn lemma_hash_group_goes_by_the_key(group: RoutingGroup, key: &str, target: LineTarget)
    requires
        group.hosts@.len() > 0,
        balance::mode_of(group.mode@) == Some(GroupMode::IpHash),
        call_ensures(RoutingGroup::select_target, (&group, key), target),
    ensures
        target.host@ == group.hosts@[(DefaultHasher::spec_finish(
            balance::fed_with(Seq::empty(), key@),
        ) as usize) as int % group.hosts@.len() as int]@,
        target.port == group.port,
        target.resolve_srv == group.resolve_srv,
{
}

/// A group that picks at random scrambles the number that its counter had: multiplied and
/// raised, mixed with its own upper half, multiplied and mixed again. The result decides on
/// the host.
pub proof fn lemma_random_group_scrambles_the_count(
    group: RoutingGroup,
    key: &str,
    target: LineTarget,
) -> (sequence: usize)
    requires
        group.hosts@.len() > 0,
        balance::mode_of(group.mode@) == Some(GroupMode::Random),
        call_ensures(RoutingGroup::select_target, (&group, key), target),
    ensures
        group.counts(sequence),
        ({
            let a = (sequence as u64).wrapping_mul(6_364_136_223_846_793_005u64).wrapping_add(
                1_442_695_040_888_963_407u64,
            );
            let c = (a ^ (a >> 33u64)).wrapping_mul(1_099_511_628_211u64);
            target.host@ == group.hosts@[((c ^ (c >> 29u64)) as usize) as int
                % group.hosts@.len() as int]@
        }),
        target.port == group.port,
        target.resolve_srv == group.resolve_srv,
{
    choose|sequence: usize| group.counts(sequence)
        && #[trigger] group.hands_out(sequence, key@, target)
}

/// A line is accepted exactly when its host is not blank and fits in a packet, and its port is
/// not zero.
pub proof fn lemma_accepted_line(target: LineTarget, name: &str, outcome: Result<(), Problem>)
    requires
        call_ensures(LineTarget::validate, (&target, name), outcome),
    ensures
        outcome is Ok <==> !text::is_blank(target.host@) && utf8::encode_utf8(target.host@).len()
            <= 255 && target.port > 0,
{
}

/// A group is accepted exactly when it has a name, at least one host, a port and a mode that
/// exists, and each of its hosts is not blank and fits in a packet.
pub proof fn lemma_accepted_group(group: RoutingGroup, index: usize, outcome: Result<(), Problem>)
    requires
        call_ensures(RoutingGroup::validate, (&group, index), outcome),
    ensures
        outcome is Ok <==> {
            &&& !text::is_blank(group.group_name@)
            &&& group.hosts@.len() > 0
            &&& group.port > 0
            &&& balance::mode_of(group.mode@) is Some
            &&& forall|k: int|
                0 <= k < group.hosts@.len() ==> !text::is_blank((#[trigger] group.hosts@[k])@)
                    && utf8::encode_utf8(group.hosts@[k]@).len() <= 255
        },
{
    let hosts = text::texts(group.hosts@);
    let findings = host_findings(index as nat, hosts);
    problem::lemma_no_problem(findings);
    assert forall|k: int| 0 <= k < group.hosts@.len() implies ((#[trigger] findings[k]) is None
        <==> !text::is_blank(group.hosts@[k]@) && utf8::encode_utf8(group.hosts@[k]@).len()
        <= 255) by {
        assert(hosts[k] == group.hosts@[k]@);
    }
    if forall|k: int|
        0 <= k < group.hosts@.len() ==> !text::is_blank((#[trigger] group.hosts@[k])@)
            && utf8::encode_utf8(group.hosts@[k]@).len() <= 255 {
        assert forall|k: int| 0 <= k < findings.len() implies (#[trigger] findings[k]) is None by {
            assert(!text::is_blank(group.hosts@[k]@));
        }
    }
    if problem::first_problem(findings) is None {
        assert forall|k: int| 0 <= k < group.hosts@.len() implies !text::is_blank(
            (#[trigger] group.hosts@[k])@,
        ) && utf8::encode_utf8(group.hosts@[k]@).len() <= 255 by {
            assert(findings[k] is None);
        }
    }
}

/// A routing is accepted exactly when it has a line or a group; its default line, if set, is
/// one of them, and is set unless there are rules; all lines and groups are accepted on their
/// own; no group has the name of a line or of another group; and every rule names exactly one
/// of a line and a group, which is there. A line may also be named by the name of a group.
pub proof fn lemma_accepted_routing(config: RoutingConfig, outcome: Result<(), Problem>)
    requires
        call_ensures(RoutingConfig::validate, (&config,), outcome),
    ensures
        outcome is Ok <==> {
            &&& config.lines.names().len() > 0 || config.group@.len() > 0
            &&& config.default_line@.len() == 0 ==> config.rules@.len() > 0
            &&& config.default_line@.len() > 0 ==> config.lines.find(config.default_line@) is Some
                || exists|g: int|
                0 <= g < config.group@.len() && (#[trigger] config.group@[g]).group_name@
                    == config.default_line@
            &&& forall|k: int|
                0 <= k < config.lines.names().len() ==> !text::is_blank(
                    (#[trigger] config.lines.values()[k]).host@,
                ) && utf8::encode_utf8(config.lines.values()[k].host@).len() <= 255
                    && config.lines.values()[k].port > 0
            &&& forall|g: int|
                0 <= g < config.group@.len() ==> (#[trigger] config.group@[g]).problem(g as nat)
                    is None && config.lines.find(config.group@[g].group_name@) is None && forall|
                    j: int,
                |
                    0 <= j < g ==> (#[trigger] config.group@[j]).group_name@
                        != config.group@[g].group_name@
            &&& forall|r: int|
                0 <= r < config.rules@.len() ==> {
                    let rule = #[trigger] config.rules@[r];
                    let by_group = rule.group is Some && !text::is_blank(rule.group->0@);
                    &&& text::is_blank(rule.line@) <==> by_group
                    &&& by_group ==> exists|g: int|
                        0 <= g < config.group@.len() && (#[trigger] config.group@[g]).group_name@
                            == rule.group->0@
                    &&& !by_group ==> config.lines.find(rule.line@) is Some || exists|g: int|
                        0 <= g < config.group@.len() && (#[trigger] config.group@[g]).group_name@
                            == rule.line@
                }
        },
{
    problem::lemma_no_problem(config.line_findings());
    problem::lemma_no_problem(config.group_findings());
    problem::lemma_no_problem(config.rule_findings());
    lemma_found_group(config.group@, config.default_line@);
    assert forall|k: int| 0 <= k < config.lines.names().len() implies ((
    #[trigger] config.line_findings()[k]) is None <==> !text::is_blank(
        config.lines.values()[k].host@,
    ) && utf8::encode_utf8(config.lines.values()[k].host@).len() <= 255
        && config.lines.values()[k].port > 0) by {}
    assert forall|g: int| 0 <= g < config.group@.len() implies ((
    #[trigger] config.group_findings()[g]) is None <==> config.group@[g].problem(g as nat) is None
        && config.lines.find(config.group@[g].group_name@) is None && forall|j: int|
        0 <= j < g ==> (#[trigger] config.group@[j]).group_name@
            != config.group@[g].group_name@) by {}
    assert forall|r: int| 0 <= r < config.rules@.len() implies ((
    #[trigger] config.rule_findings()[r]) is None <==> ({
        let rule = config.rules@[r];
        let by_group = rule.group is Some && !text::is_blank(rule.group->0@);
        &&& text::is_blank(rule.line@) <==> by_group
        &&& by_group ==> exists|g: int|
            0 <= g < config.group@.len() && (#[trigger] config.group@[g]).group_name@
                == rule.group->0@
        &&& !by_group ==> config.lines.find(rule.line@) is Some || exists|g: int|
            0 <= g < config.group@.len() && (#[trigger] config.group@[g]).group_name@ == rule.line@
    })) by {
        let rule = config.rules@[r];
        lemma_found_group(config.group@, rule.line@);
        if rule.group is Some {
            lemma_found_group(config.group@, rule.group->0@);
        }
    }
    if outcome is Ok {
        assert forall|k: int| 0 <= k < config.lines.names().len() implies !text::is_blank(
            (#[trigger] config.lines.values()[k]).host@,
        ) && utf8::encode_utf8(config.lines.values()[k].host@).len() <= 255
            && config.lines.values()[k].port > 0 by {
            assert(config.line_findings()[k] is None);
        }
        assert forall|g: int| 0 <= g < config.group@.len() implies (
        #[trigger] config.group@[g]).problem(g as nat) is None && config.lines.find(
            config.group@[g].group_name@,
        ) is None && forall|j: int|
            0 <= j < g ==> (#[trigger] config.group@[j]).group_name@
                != config.group@[g].group_name@ by {
            assert(config.group_findings()[g] is None);
        }
        assert forall|r: int| 0 <= r < config.rules@.len() implies ({
            let rule = #[trigger] config.rules@[r];
            let by_group = rule.group is Some && !text::is_blank(rule.group->0@);
            &&& text::is_blank(rule.line@) <==> by_group
            &&& by_group ==> exists|g: int|
                0 <= g < config.group@.len() && (#[trigger] config.group@[g]).group_name@
                    == rule.group->0@
            &&& !by_group ==> config.lines.find(rule.line@) is Some || exists|g: int|
                0 <= g < config.group@.len() && (#[trigger] config.group@[g]).group_name@
                    == rule.line@
        }) by {
            assert(config.rule_findings()[r] is None);
        }
    }
}

/// The line for an address and a host, where groups are left aside. The rule decides that
/// applies with the highest priority, the first of several; it leads to the line that it names,
/// or else to the default line, as it does where no rule applies. A line that is not there is
/// no route. Rules on players and on the lists do not apply here.
pub proof fn lemma_line_of_the_deciding_rule(
    config: RoutingConfig,
    location: IpLocation,
    host: Option<&str>,
    route: Option<(&str, &LineTarget)>,
    i: int,
)
    requires
        call_ensures(
            RoutingConfig::select_route_for_host,
            (&config, &location, host),
            route,
        ),
    ensures
        ({
            let visit = visit_of(location, None, host, None);
            let best = 0 <= i < config.rules@.len() && config.rules@[i].applies(visit) && forall|
                j: int,
            |
                0 <= j < config.rules@.len() && j != i
                    && (#[trigger] config.rules@[j]).applies(visit)
                    ==> config.rules@[j].rank(config.group@) < config.rules@[i].rank(config.group@)
                    || (config.rules@[j].rank(config.group@) == config.rules@[i].rank(config.group@)
                    && i < j);
            let none = forall|j: int|
                0 <= j < config.rules@.len() ==> !(#[trigger] config.rules@[j]).applies(visit);
            let line = config.rules@[i].line@;
            let own = !text::is_blank(line) && config.lines.find(line) is Some;
            &&& best && own ==> route is Some && (route->0).0@ == line && Some(*(route->0).1)
                == config.lines.find(line)
            &&& (best && !own) || none ==> match config.lines.find(config.default_line@) {
                Some(target) => route is Some && (route->0).0@ == config.default_line@
                    && *(route->0).1 == target,
                None => route is None,
            }
        }),
{
    let visit = visit_of(location, None, host, None);
    if 0 <= i < config.rules@.len() && config.rules@[i].applies(visit) && forall|j: int|
        0 <= j < config.rules@.len() && j != i && (#[trigger] config.rules@[j]).applies(visit)
            ==> config.rules@[j].rank(config.group@) < config.rules@[i].rank(config.group@) || (
        config.rules@[j].rank(config.group@) == config.rules@[i].rank(config.group@) && i < j) {
        assert forall|j: int| #[trigger] config.applies_at(visit, j) implies config.rank_at(j)
            < config.rank_at(i) || (config.rank_at(j) == config.rank_at(i) && i <= j) by {}
        assert(config.is_best(visit, i));
        let other = choose|j: int| config.is_best(visit, j);
        lemma_best_rule_is_unique(config, visit, i, other);
        assert(config.deciding_rule(visit) == Some(config.rules@[i]));
    }
    if forall|j: int| 0 <= j < config.rules@.len()
        ==> !(#[trigger] config.rules@[j]).applies(visit) {
        assert(forall|j: int| !config.applies_at(visit, j));
        assert(config.deciding_rule(visit) is None);
    }
}

/// To ask without a host is to ask with none: the line is the same.
pub proof fn lemma_line_without_a_host(
    config: RoutingConfig,
    location: IpLocation,
    route: Option<(&str, &LineTarget)>,
    hostless: Option<(&str, &LineTarget)>,
)
    requires
        call_ensures(RoutingConfig::select_route, (&config, &location), route),
        call_ensures(
            RoutingConfig::select_route_for_host,
            (&config, &location, None),
            hostless,
        ),
    ensures
        route is Some <==> hostless is Some,
        route is Some ==> (route->0).0@ == (hostless->0).0@ && *(route->0).1 == *(hostless->0).1,
{
}

/// To ask without a host is to ask with none: the same line with the same target, or the same
/// group.
pub proof fn lemma_route_without_a_host(
    config: RoutingConfig,
    location: IpLocation,
    player: Option<&str>,
    security: &Security,
    key: &str,
    route: Option<(String, LineTarget)>,
    hostless: Option<(String, LineTarget)>,
)
    requires
        config.groups_have_hosts(),
        call_ensures(
            RoutingConfig::select_route_with_context,
            (&config, &location, player, security, key),
            route,
        ),
        call_ensures(
            RoutingConfig::select_route_with_host_context,
            (&config, &location, player, None, security, key),
            hostless,
        ),
    ensures
        route is Some <==> hostless is Some,
        route is Some ==> (route->0).0@ == (hostless->0).0@,
        route is Some ==> (route->0).1 == (hostless->0).1 || exists|g: int|
            0 <= g < config.group@.len() && (#[trigger] config.group@[g]).group_name@
                == (route->0).0@ && config.group@[g].may_hand_out(key@, (route->0).1)
                && config.group@[g].may_hand_out(key@, (hostless->0).1),
{
    let visit = visit_of(location, player, None, Some(security));
    match config.choice(visit) {
        Choice::Group(name, group) => {
            lemma_found_group(config.group@, name);
            let g = config.group@.index_of(group);
            assert(config.group@[g] == group);
        },
        _ => {},
    }
}

/// A host with a single target sends everybody there.
pub proof fn lemma_single_target_takes_everybody(
    target: LineTarget,
    config: RoutingConfig,
    location: IpLocation,
    player: Option<&str>,
    host: Option<&str>,
    security: &Security,
    key: &str,
    route: Option<(String, LineTarget)>,
)
    requires
        call_ensures(RoutingConfig::from_single_target, (target,), config),
        call_ensures(
            RoutingConfig::select_route_with_host_context,
            (&config, &location, player, host, security, key),
            route,
        ),
    ensures
        route is Some && (route->0).0@ == "default"@ && (route->0).1 == target,
{
    lemma_route_without_a_rule(config, location, player, host, security, key, route);
}

} // verus!

//! Which addresses are turned away, and for what reason.
use crate::address::IpAddr;
use crate::config::SecurityConfig;
use crate::download;
use crate::ip2region::{IpLocation, Place};
use crate::network::{self, parse_network, parse_network_lines, IpNetwork, IpSet, ListFormat};
use crate::path::{self, configured_path};
use crate::problem::{self, Problem, Report};
use crate::text::{self, as_str_option, cat3, cat4, contains, to_lowercase, trim, unsigned_to_text};
use crate::url;
use vstd::prelude::*;
use vstd::string::*;

verus! {

/// Why a connection is turned away.
#[derive(Debug, Clone, Copy, PartialEq, Eq, Structural)]
pub enum BlockReason {
    Vpn,
    Tor,
    Spam,
}

impl BlockReason {
    /// The name of the reason in the log.
    pub open spec fn name(self) -> Seq<char> {
        match self {
            BlockReason::Vpn => "VPN/Proxy"@,
            BlockReason::Tor => "Tor"@,
            BlockReason::Spam => "Spam IP"@,
        }
    }

    /// The key of the message that the player is shown.
    pub open spec fn message_key(self) -> Seq<char> {
        match self {
            BlockReason::Vpn => "disconnect.vpn_blocked"@,
            BlockReason::Tor => "disconnect.tor_blocked"@,
            BlockReason::Spam => "disconnect.spam_blocked"@,
        }
    }

    pub fn label(self) -> (label: &'static str)
        ensures
            label@ == self.name(),
    {
        match self {
            BlockReason::Vpn => "VPN/Proxy",
            BlockReason::Tor => "Tor",
            BlockReason::Spam => "Spam IP",
        }
    }

    pub fn disconnect_key(self) -> (key: &'static str)
        ensures
            key@ == self.message_key(),
    {
        match self {
            BlockReason::Vpn => "disconnect.vpn_blocked",
            BlockReason::Tor => "disconnect.tor_blocked",
            BlockReason::Spam => "disconnect.spam_blocked",
        }
    }
}

/// The lists that connections are held against, and which of them turn a player away.
pub struct Security {
    enabled: bool,
    block_vpn: bool,
    block_tor: bool,
    block_spam: bool,
    allowlist: IpSet,
    vpn: IpSet,
    tor: IpSet,
    spam: IpSet,
    vpn_isp_contains: Vec<String>,
}

/// What a [`Security`] is made of.
pub struct Guard {
    pub enabled: bool,
    pub block_vpn: bool,
    pub block_tor: bool,
    pub block_spam: bool,
    pub allowlist: IpSet,
    pub vpn: IpSet,
    pub tor: IpSet,
    pub spam: IpSet,
    pub needles: Seq<Seq<char>>,
}

/// Whether one of the needles stands in the lower case form of a provider's name.
pub open spec fn provider_hit(needles: Seq<Seq<char>>, isp: Option<Seq<char>>) -> bool {
    isp is Some && exists|i: int|
        0 <= i < needles.len() && text::occurs_in(text::lowercase_text(isp->0), #[trigger] needles[i])
}

impl Guard {
    /// Whether the address or its provider is known for VPN exits.
    pub open spec fn vpn_hit(self, place: Place) -> bool {
        self.vpn.has(place.ip) || provider_hit(self.needles, place.isp)
    }

    pub open spec fn active(self) -> bool {
        self.enabled && (self.block_vpn || self.block_tor || self.block_spam)
    }

    /// Whether there is anything to hold a connection against.
    pub open spec fn has_material(self) -> bool {
        self.vpn.count() > 0 || self.tor.count() > 0 || self.spam.count() > 0 || self.needles.len()
            > 0
    }

    /// Why a connection from a place is turned away, if it is.
    pub open spec fn verdict(self, place: Place) -> Option<BlockReason> {
        if !self.active() || self.allowlist.has(place.ip) {
            None
        } else if self.block_tor && self.tor.has(place.ip) {
            Some(BlockReason::Tor)
        } else if self.block_vpn && self.vpn_hit(place) {
            Some(BlockReason::Vpn)
        } else if self.block_spam && self.spam.has(place.ip) {
            Some(BlockReason::Spam)
        } else {
            None
        }
    }
}

/// What was found of the file of a list: nothing, its text, or why it cannot be read.
pub type ListText = Option<Result<String, String>>;

/// What was found of the files of the lists.
pub struct ListTexts {
    pub vpn_ipv4: ListText,
    pub vpn_ipv6: ListText,
    pub tor: ListText,
    pub spam: ListText,
}

/// The blocks that the file of a list names: none if no file is set or there is none.
pub open spec fn file_blocks(path: Option<Seq<char>>, kind: Seq<char>, found: ListText) -> Result<
    Seq<IpNetwork>,
    Report,
> {
    match found {
        Some(found) if path::is_set(path) => match url::outcome_texts(found) {
            Ok(source) => network::list_of(text::pieces(source, '\n'), path->0, kind, ListFormat::Network),
            Err(cause) => Err(
                Report {
                    message: "unable to read "@ + kind + " list "@ + path->0,
                    cause: Some(cause),
                },
            ),
        },
        _ => Ok(Seq::empty()),
    }
}

/// The blocks of an allowlist, or the report on its first bad entry.
pub open spec fn allowed_blocks(values: Seq<Seq<char>>) -> Result<Seq<IpNetwork>, Report>
    decreases values.len(),
{
    if values.len() == 0 {
        Ok(Seq::empty())
    } else {
        match allowed_blocks(values.drop_last()) {
            Err(report) => Err(report),
            Ok(blocks) => match network::network_of(values.last()) {
                Ok(network) => Ok(blocks.push(network)),
                Err(cause) => Err(
                    problem::inside(
                        "security.allowlist["@ + text::decimal((values.len() - 1) as nat)
                            + "] is not a valid IP/CIDR: "@ + values.last(),
                        cause,
                    ),
                ),
            },
        }
    }
}

/// The blocks of all lists.
pub struct Blocks {
    pub allowlist: Seq<IpNetwork>,
    pub vpn: Seq<IpNetwork>,
    pub tor: Seq<IpNetwork>,
    pub spam: Seq<IpNetwork>,
}

/// The blocks that a configuration and the files of its lists give, or the report on the
/// first list that is bad.
pub open spec fn all_blocks(config: SecurityConfig, found: ListTexts) -> Result<Blocks, Report> {
    let allowlist = allowed_blocks(text::texts(config.allowlist@));
    let vpn4 = file_blocks(text::text_of(config.vpn_ipv4_list), "VPN IPv4"@, found.vpn_ipv4);
    let vpn6 = file_blocks(text::text_of(config.vpn_ipv6_list), "VPN IPv6"@, found.vpn_ipv6);
    let tor = file_blocks(text::text_of(config.tor_exit_list), "Tor exit"@, found.tor);
    let spam = file_blocks(text::text_of(config.spam_list), "Spam IP"@, found.spam);
    match (allowlist, vpn4, vpn6, tor, spam) {
        (Err(report), _, _, _, _) => Err(report),
        (_, Err(report), _, _, _) => Err(report),
        (_, _, Err(report), _, _) => Err(report),
        (_, _, _, Err(report), _) => Err(report),
        (_, _, _, _, Err(report)) => Err(report),
        (Ok(allowlist), Ok(vpn4), Ok(vpn6), Ok(tor), Ok(spam)) => Ok(
            Blocks { allowlist, vpn: vpn4 + vpn6, tor, spam },
        ),
    }
}

/// The needles of a configuration: trimmed, in lower case, without the empty ones.
pub open spec fn needles_of(values: Seq<Seq<char>>) -> Seq<Seq<char>>
    decreases values.len(),
{
    if values.len() == 0 {
        Seq::empty()
    } else {
        let rest = needles_of(values.drop_last());
        let needle = text::lowercase_text(text::trimmed(values.last()));
        if needle.len() == 0 {
            rest
        } else {
            rest.push(needle)
        }
    }
}

/// Whether a set is the set of the addresses of the given blocks, made of these blocks.
pub open spec fn made_of(set: IpSet, blocks: Seq<IpNetwork>) -> bool {
    &&& forall|ip: IpAddr| set.has(ip) <==> network::listed(blocks, ip)
    &&& forall|wide: bool, key: Seq<bool>| #[trigger]
        set.keys(wide).contains(key) <==> network::keyed(blocks, wide, key)
    &&& set.keys(false).finite() && set.keys(true).finite()
}

/// Whether a guard is what a configuration and the blocks of its lists give.
pub open spec fn guards(guard: Guard, config: SecurityConfig, blocks: Blocks) -> bool {
    &&& guard.enabled == config.enabled
    &&& guard.block_vpn == config.block_vpn
    &&& guard.block_tor == config.block_tor
    &&& guard.block_spam == config.block_spam
    &&& made_of(guard.allowlist, blocks.allowlist)
    &&& made_of(guard.vpn, blocks.vpn)
    &&& made_of(guard.tor, blocks.tor)
    &&& made_of(guard.spam, blocks.spam)
    &&& guard.needles == needles_of(text::texts(config.vpn_isp_contains@))
}

fn load_file(path: &Option<String>, kind: &str, found: &ListText) -> (outcome: Result<
    Vec<IpNetwork>,
    Problem,
>)
    ensures
        crate::network::list_agrees(outcome, file_blocks(text::text_of(*path), kind@, *found)),
        outcome matches Ok(networks) ==> network::all_wf(networks@),
{
    match configured_path(path) {
        None => Ok(Vec::new()),
        Some(path) => match found {
            None => Ok(Vec::new()),
            Some(Err(cause)) => Err(
                Problem::caused_by(
                    cat4("unable to read ", kind, " list ", path),
                    cause.clone(),
                ),
            ),
            Some(Ok(source)) => parse_network_lines(source.as_str(), path, kind),
        },
    }
}

proof fn lemma_bad_entry_is_final(values: Seq<Seq<char>>, n: int)
    requires
        0 <= n <= values.len(),
        allowed_blocks(values.take(n)) is Err,
    ensures
        allowed_blocks(values) == allowed_blocks(values.take(n)),
    decreases values.len() - n,
{
    if n < values.len() {
        assert(values.take(n + 1).drop_last() == values.take(n));
        lemma_bad_entry_is_final(values, n + 1);
    } else {
        assert(values.take(n) == values);
    }
}

fn load_allowlist(values: &Vec<String>) -> (outcome: Result<Vec<IpNetwork>, Problem>)
    ensures
        crate::network::list_agrees(outcome, allowed_blocks(text::texts(values@))),
        outcome matches Ok(networks) ==> network::all_wf(networks@),
{
    let ghost all = text::texts(values@);
    let mut networks: Vec<IpNetwork> = Vec::new();
    let mut i: usize = 0;
    while i < values.len()
        invariant
            i <= values.len(),
            all == text::texts(values@),
            network::all_wf(networks@),
            allowed_blocks(all.take(i as int)) == Ok::<Seq<IpNetwork>, Report>(networks@),
        decreases values.len() - i,
    {
        let value = values[i].as_str();
        assert(all.take(i + 1).drop_last() == all.take(i as int));
        match parse_network(value) {
            Ok(network) => {
                networks.push(network);
            },
            Err(cause) => {
                let index = unsigned_to_text(i as u64);
                proof {
                    lemma_bad_entry_is_final(all, i + 1);
                }
                return Err(
                    cause.within(
                        cat4(
                            "security.allowlist[",
                            index.as_str(),
                            "] is not a valid IP/CIDR: ",
                            value,
                        ),
                    ),
                );
            },
        }
        i += 1;
    }
    assert(all.take(all.len() as int) == all);
    Ok(networks)
}

fn load_needles(values: &Vec<String>) -> (needles: Vec<String>)
    ensures
        text::texts(needles@) == needles_of(text::texts(values@)),
{
    let ghost all = text::texts(values@);
    let mut needles: Vec<String> = Vec::new();
    let mut i: usize = 0;
    while i < values.len()
        invariant
            i <= values.len(),
            all == text::texts(values@),
            text::texts(needles@) == needles_of(all.take(i as int)),
        decreases values.len() - i,
    {
        let needle = to_lowercase(trim(values[i].as_str()));
        assert(all.take(i + 1).drop_last() == all.take(i as int));
        if !needle.as_str().is_empty() {
            needles.push(needle);
        }
        i += 1;
    }
    assert(all.take(all.len() as int) == all);
    needles
}

impl Security {
    /// What the value is made of.
    pub closed spec fn guard(self) -> Guard {
        Guard {
            enabled: self.enabled,
            block_vpn: self.block_vpn,
            block_tor: self.block_tor,
            block_spam: self.block_spam,
            allowlist: self.allowlist,
            vpn: self.vpn,
            tor: self.tor,
            spam: self.spam,
            needles: text::texts(self.vpn_isp_contains@),
        }
    }

    /// Takes up the lists of a configuration. Every list whose file is there is taken up,
    /// whether it turns players away or not, so that routing rules can use it.
    pub fn open(config: &SecurityConfig, found: &ListTexts) -> (outcome: Result<Self, Problem>)
        ensures
            match (outcome, all_blocks(*config, *found)) {
                (Ok(security), Ok(blocks)) => guards(security.guard(), *config, blocks),
                (Err(problem), Err(report)) => problem@ == report,
                _ => false,
            },
    {
        let allowlist = match load_allowlist(&config.allowlist) {
            Ok(networks) => networks,
            Err(problem) => {
                return Err(problem);
            },
        };
        let mut vpn = match load_file(&config.vpn_ipv4_list, "VPN IPv4", &found.vpn_ipv4) {
            Ok(networks) => networks,
            Err(problem) => {
                return Err(problem);
            },
        };
        let mut vpn6 = match load_file(&config.vpn_ipv6_list, "VPN IPv6", &found.vpn_ipv6) {
            Ok(networks) => networks,
            Err(problem) => {
                return Err(problem);
            },
        };
        let tor = match load_file(&config.tor_exit_list, "Tor exit", &found.tor) {
            Ok(networks) => networks,
            Err(problem) => {
                return Err(problem);
            },
        };
        let spam = match load_file(&config.spam_list, "Spam IP", &found.spam) {
            Ok(networks) => networks,
            Err(problem) => {
                return Err(problem);
            },
        };
        vpn.append(&mut vpn6);
        Ok(
            Security {
                enabled: config.enabled,
                block_vpn: config.block_vpn,
                block_tor: config.block_tor,
                block_spam: config.block_spam,
                allowlist: IpSet::from_networks(allowlist),
                vpn: IpSet::from_networks(vpn),
                tor: IpSet::from_networks(tor),
                spam: IpSet::from_networks(spam),
                vpn_isp_contains: load_needles(&config.vpn_isp_contains),
            },
        )
    }

    /// Whether any list turns players away.
    pub fn is_enabled(&self) -> (yes: bool)
        ensures
            yes == self.guard().active(),
    {
        self.enabled && (self.block_vpn || self.block_tor || self.block_spam)
    }

    /// Whether there is anything to hold a connection against.
    pub fn has_data(&self) -> (yes: bool)
        ensures
            yes == self.guard().has_material(),
    {
        !self.vpn.is_empty() || !self.tor.is_empty() || !self.spam.is_empty()
            || !self.vpn_isp_contains.is_empty()
    }

    /// How many different blocks the VPN, Tor and spam lists name.
    pub fn counts(&self) -> (counts: (usize, usize, usize))
        ensures
            counts.0 == self.guard().vpn.count(),
            counts.1 == self.guard().tor.count(),
            counts.2 == self.guard().spam.count(),
    {
        (self.vpn.len(), self.tor.len(), self.spam.len())
    }

    /// Why a connection from a place is turned away, if it is.
    pub fn check(&self, location: &IpLocation) -> (reason: Option<BlockReason>)
        ensures
            reason == self.guard().verdict(location@),
    {
        if !self.is_enabled() || self.allowlist.contains(location.ip) {
            return None;
        }
        if self.block_tor && self.matches_tor(location) {
            return Some(BlockReason::Tor);
        }
        if self.block_vpn && self.matches_vpn(location) {
            return Some(BlockReason::Vpn);
        }
        if self.block_spam && self.matches_spam(location) {
            return Some(BlockReason::Spam);
        }
        None
    }

    /// Whether the address or its provider is known for VPN exits, whether or not
    /// connections from there are turned away.
    pub fn matches_vpn(&self, location: &IpLocation) -> (yes: bool)
        ensures
            yes == self.guard().vpn_hit(location@),
    {
        self.vpn.contains(location.ip) || self.matches_vpn_isp(as_str_option(&location.isp))
    }

    /// Whether the address is on the Tor list, whether or not connections from there are
    /// turned away.
    pub fn matches_tor(&self, location: &IpLocation) -> (yes: bool)
        ensures
            yes == self.guard().tor.has(location@.ip),
    {
        self.tor.contains(location.ip)
    }

    /// Whether the address is on the spam list, whether or not connections from there are
    /// turned away.
    pub fn matches_spam(&self, location: &IpLocation) -> (yes: bool)
        ensures
            yes == self.guard().spam.has(location@.ip),
    {
        self.spam.contains(location.ip)
    }

    fn matches_vpn_isp(&self, isp: Option<&str>) -> (yes: bool)
        ensures
            yes == provider_hit(self.guard().needles, text::str_text(isp)),
    {
        let lower = match isp {
            Some(isp) => to_lowercase(isp),
            None => {
                return false;
            },
        };
        let ghost needles = text::texts(self.vpn_isp_contains@);
        let mut i: usize = 0;
        while i < self.vpn_isp_contains.len()
            invariant
                i <= self.vpn_isp_contains.len(),
                needles == self.guard().needles,
                isp is Some && lower@ == text::lowercase_text(isp->0@),
                forall|k: int| 0 <= k < i ==> !text::occurs_in(lower@, #[trigger] needles[k]),
            decreases self.vpn_isp_contains.len() - i,
        {
            if contains(lower.as_str(), self.vpn_isp_contains[i].as_str()) {
                assert(text::occurs_in(lower@, needles[i as int]));
                return true;
            }
            i += 1;
        }
        false
    }
}

/// An address on the allowlist is never turned away.
pub proof fn lemma_allowed_address_passes(guard: Guard, place: Place)
    requires
        guard.allowlist.has(place.ip),
    ensures
        guard.verdict(place) is None,
{
}

/// A connection is turned away only if the lists are enabled, its address is not on the
/// allowlist, and the reason is one whose blocking is switched on and that applies.
pub proof fn lemma_verdict_is_grounded(guard: Guard, place: Place)
    ensures
        guard.verdict(place) matches Some(reason) ==> {
            &&& guard.enabled
            &&& !guard.allowlist.has(place.ip)
            &&& match reason {
                BlockReason::Tor => guard.block_tor && guard.tor.has(place.ip),
                BlockReason::Vpn => guard.block_vpn && guard.vpn_hit(place),
                BlockReason::Spam => guard.block_spam && guard.spam.has(place.ip),
            }
        },
{
}

/// Switching the blocking of a list off changes only whether players are turned away: the
/// list itself, and so what routing rules see of it, stays.
pub proof fn lemma_lists_do_not_depend_on_switches(
    config: SecurityConfig,
    other: SecurityConfig,
    found: ListTexts,
)
    requires
        other == (SecurityConfig {
            enabled: other.enabled,
            block_vpn: other.block_vpn,
            block_tor: other.block_tor,
            block_spam: other.block_spam,
            ..config
        }),
    ensures
        all_blocks(config, found) == all_blocks(other, found),
        needles_of(text::texts(config.vpn_isp_contains@)) == needles_of(text::texts(other.vpn_isp_contains@)),
{
}

/// A list that was fetched because it was missing.
#[derive(Debug, Clone, PartialEq, Eq)]
pub struct DownloadedList {
    pub kind: &'static str,
    pub path: String,
}

/// A list that was replaced by a newer one.
#[derive(Debug, Clone, PartialEq, Eq)]
pub struct UpdatedList {
    pub kind: &'static str,
    pub path: String,
}

/// What came of looking for newer lists.
#[derive(Debug)]
pub struct ListUpdateReport {
    pub updated: Vec<UpdatedList>,
    pub errors: Vec<String>,
}

/// A list that is to be fetched.
#[derive(Debug)]
pub struct DownloadItem {
    pub kind: &'static str,
    pub format: ListFormat,
    pub path: String,
    pub url: String,
}

/// The contents of a [`DownloadItem`].
pub struct ItemView {
    pub kind: Seq<char>,
    pub format: ListFormat,
    pub path: Seq<char>,
    pub url: Seq<char>,
}

pub open spec fn item_view(item: DownloadItem) -> ItemView {
    ItemView { kind: item.kind@, format: item.format, path: item.path@, url: item.url@ }
}

pub open spec fn item_views(items: Seq<DownloadItem>) -> Seq<ItemView> {
    items.map_values(|item: DownloadItem| item_view(item))
}

/// Which files of the lists are there.
#[derive(Debug, Clone, Copy)]
pub struct ListFiles {
    pub tor: bool,
    pub spam: bool,
    pub vpn_ipv4: bool,
    pub vpn_ipv6: bool,
}

/// A list, if its path is set and it is asked for.
pub open spec fn one_item(
    kind: Seq<char>,
    format: ListFormat,
    path: Option<Seq<char>>,
    url: Seq<char>,
    asked: bool,
) -> Seq<ItemView> {
    if path::is_set(path) && asked {
        seq![ItemView { kind, format, path: path->0, url }]
    } else {
        Seq::empty()
    }
}

/// The lists of a configuration that are maintained, among those that are asked for: only
/// the lists that turn players away.
pub open spec fn maintained_lists(config: SecurityConfig, asked: ListFiles) -> Seq<ItemView> {
    one_item(
        "Tor exit"@,
        ListFormat::Ip,
        text::text_of(config.tor_exit_list),
        config.tor_exit_list_url@,
        config.enabled && config.block_tor && asked.tor,
    ) + one_item(
        "Spam IP"@,
        ListFormat::Network,
        text::text_of(config.spam_list),
        config.spam_list_url@,
        config.enabled && config.block_spam && asked.spam,
    ) + one_item(
        "VPN IPv4"@,
        ListFormat::Network,
        text::text_of(config.vpn_ipv4_list),
        config.vpn_ipv4_list_url@,
        config.enabled && config.block_vpn && asked.vpn_ipv4,
    ) + one_item(
        "VPN IPv6"@,
        ListFormat::Network,
        text::text_of(config.vpn_ipv6_list),
        config.vpn_ipv6_list_url@,
        config.enabled && config.block_vpn && asked.vpn_ipv6,
    )
}

fn push_item(
    items: &mut Vec<DownloadItem>,
    kind: &'static str,
    format: ListFormat,
    path: &Option<String>,
    url: &String,
    asked: bool,
)
    ensures
        item_views(final(items)@) == item_views(old(items)@) + one_item(
            kind@,
            format,
            text::text_of(*path),
            url@,
            asked,
        ),
{
    match configured_path(path) {
        Some(path) => {
            if asked {
                items.push(
                    DownloadItem { kind, format, path: path.to_owned(), url: url.clone() },
                );
            }
        },
        None => {},
    }
}

fn collect_lists(config: &SecurityConfig, asked: ListFiles) -> (items: Vec<DownloadItem>)
    ensures
        item_views(items@) == maintained_lists(*config, asked),
{
    let mut items: Vec<DownloadItem> = Vec::new();
    push_item(
        &mut items,
        "Tor exit",
        ListFormat::Ip,
        &config.tor_exit_list,
        &config.tor_exit_list_url,
        config.enabled && config.block_tor && asked.tor,
    );
    push_item(
        &mut items,
        "Spam IP",
        ListFormat::Network,
        &config.spam_list,
        &config.spam_list_url,
        config.enabled && config.block_spam && asked.spam,
    );
    push_item(
        &mut items,
        "VPN IPv4",
        ListFormat::Network,
        &config.vpn_ipv4_list,
        &config.vpn_ipv4_list_url,
        config.enabled && config.block_vpn && asked.vpn_ipv4,
    );
    push_item(
        &mut items,
        "VPN IPv6",
        ListFormat::Network,
        &config.vpn_ipv6_list,
        &config.vpn_ipv6_list_url,
        config.enabled && config.block_vpn && asked.vpn_ipv6,
    );
    items
}

/// The lists that are asked for where missing files are fetched.
pub open spec fn missing_files(config: SecurityConfig, there: ListFiles) -> ListFiles {
    ListFiles {
        tor: config.auto_download && !there.tor,
        spam: config.auto_download && !there.spam,
        vpn_ipv4: config.auto_download && !there.vpn_ipv4,
        vpn_ipv6: config.auto_download && !there.vpn_ipv6,
    }
}

/// The lists that are fetched because they are missing, given which files are there.
pub fn missing_lists(config: &SecurityConfig, there: ListFiles) -> (items: Vec<DownloadItem>)
    ensures
        item_views(items@) == maintained_lists(*config, missing_files(*config, there)),
{
    let asked = ListFiles {
        tor: config.auto_download && !there.tor,
        spam: config.auto_download && !there.spam,
        vpn_ipv4: config.auto_download && !there.vpn_ipv4,
        vpn_ipv6: config.auto_download && !there.vpn_ipv6,
    };
    collect_lists(config, asked)
}

/// All lists, or none.
pub open spec fn every_file(asked: bool) -> ListFiles {
    ListFiles { tor: asked, spam: asked, vpn_ipv4: asked, vpn_ipv6: asked }
}

/// The lists for which newer ones are looked for.
pub fn updatable_lists(config: &SecurityConfig) -> (items: Vec<DownloadItem>)
    ensures
        item_views(items@) == maintained_lists(*config, every_file(config.auto_update)),
{
    let asked = config.auto_update;
    collect_lists(config, ListFiles { tor: asked, spam: asked, vpn_ipv4: asked, vpn_ipv6: asked })
}

/// The report on a downloaded list, if it is not fit for use; `source` is its text, or why
/// it cannot be read.
pub open spec fn list_file_problem(
    path: Seq<char>,
    kind: Seq<char>,
    format: ListFormat,
    source: Result<String, String>,
) -> Option<Report> {
    match url::outcome_texts(source) {
        Err(cause) => Some(
            Report {
                message: "unable to read downloaded "@ + kind + " list "@ + path,
                cause: Some(cause),
            },
        ),
        Ok(source) => network::list_problem(source, path, kind, format),
    }
}

/// Judges a downloaded list.
pub fn validate_list_file(
    path: &str,
    kind: &str,
    format: ListFormat,
    source: Result<String, String>,
) -> (outcome: Result<(), Problem>)
    ensures
        problem::failure(outcome) == list_file_problem(path@, kind@, format, source),
{
    match source {
        Err(cause) => Err(
            Problem::caused_by(
                cat4("unable to read downloaded ", kind, " list ", path),
                cause,
            ),
        ),
        Ok(source) => crate::network::validate_list(source.as_str(), path, kind, format),
    }
}

/// The labels and paths of lists that are to be fetched.
pub open spec fn item_names(items: Seq<DownloadItem>) -> Seq<crate::download::Named> {
    items.map_values(|item: DownloadItem| (item.kind@, item.path@))
}

pub open spec fn downloaded_lists_names(lists: Seq<DownloadedList>) -> Seq<
    crate::download::Named,
> {
    lists.map_values(|item: DownloadedList| (item.kind@, item.path@))
}

pub open spec fn updated_lists_names(lists: Seq<UpdatedList>) -> Seq<crate::download::Named> {
    lists.map_values(|item: UpdatedList| (item.kind@, item.path@))
}

/// Texts in a row, separated by semicolons.
pub open spec fn listed_texts(parts: Seq<Seq<char>>) -> Seq<char>
    decreases parts.len(),
{
    if parts.len() == 0 {
        Seq::empty()
    } else if parts.len() == 1 {
        parts[0]
    } else {
        listed_texts(parts.drop_last()) + "; "@ + parts.last()
    }
}

fn join_texts(parts: &Vec<String>) -> (text: String)
    requires
        parts@.len() > 0,
    ensures
        text@ == listed_texts(text::texts(parts@)),
{
    let ghost all = text::texts(parts@);
    let mut text = parts[0].clone();
    let mut i: usize = 1;
    while i < parts.len()
        invariant
            1 <= i <= parts.len(),
            all == text::texts(parts@),
            text@ == listed_texts(all.take(i as int)),
        decreases parts.len() - i,
    {
        assert(all.take(i + 1).drop_last() == all.take(i as int));
        text = cat3(text.as_str(), "; ", parts[i].as_str());
        i += 1;
    }
    assert(all.take(all.len() as int) == all);
    text
}

fn sort_outcomes(items: &Vec<DownloadItem>, outcomes: &Vec<Result<bool, Problem>>) -> (sorted: (
    Vec<UpdatedList>,
    Vec<String>,
))
    requires
        outcomes@.len() <= items@.len(),
    ensures
        updated_lists_names(sorted.0@) == download::placed(item_names(items@), outcomes@, outcomes@.len()),
        text::texts(sorted.1@) == download::complaints(item_names(items@), outcomes@, outcomes@.len()),
{
    let ghost names = item_names(items@);
    let mut lists: Vec<UpdatedList> = Vec::new();
    let mut errors: Vec<String> = Vec::new();
    let mut i: usize = 0;
    while i < outcomes.len()
        invariant
            i <= outcomes.len() <= items.len(),
            names == item_names(items@),
            updated_lists_names(lists@) == download::placed(names, outcomes@, i as nat),
            text::texts(errors@) == download::complaints(names, outcomes@, i as nat),
        decreases outcomes.len() - i,
    {
        match &outcomes[i] {
            Ok(true) => {
                lists.push(UpdatedList { kind: items[i].kind, path: items[i].path.clone() });
            },
            Ok(false) => {},
            Err(problem) => {
                errors.push(cat3(items[i].kind, ": ", problem.message.as_str()));
            },
        }
        i += 1;
    }
    (lists, errors)
}

/// What came of fetching missing lists, given what came of each: if some failed, what went
/// wrong with all of those.
pub fn downloaded_lists(items: &Vec<DownloadItem>, outcomes: Vec<Result<bool, Problem>>) -> (
    outcome: Result<Vec<DownloadedList>, Problem>)
    requires
        download::tried_all(items@.len(), outcomes@),
    ensures
        ({
            let errors = download::complaints(item_names(items@), outcomes@, outcomes@.len());
            match outcome {
                Ok(lists) => errors.len() == 0 && downloaded_lists_names(lists@) == download::placed(
                    item_names(items@),
                    outcomes@,
                    outcomes@.len(),
                ),
                Err(problem) => errors.len() > 0 && problem@ == problem::plain(
                    "one or more security list downloads failed: "@ + listed_texts(errors),
                ),
            }
        }),
{
    let (placed_lists, errors) = sort_outcomes(items, &outcomes);
    if errors.len() > 0 {
        let words = join_texts(&errors);
        return Err(
            Problem::new(
                crate::text::cat2(
                    "one or more security list downloads failed: ",
                    words.as_str(),
                ),
            ),
        );
    }
    let mut lists: Vec<DownloadedList> = Vec::new();
    let mut i: usize = 0;
    let ghost names = updated_lists_names(placed_lists@);
    while i < placed_lists.len()
        invariant
            i <= placed_lists.len(),
            names == updated_lists_names(placed_lists@),
            downloaded_lists_names(lists@) =~= names.take(i as int),
        decreases placed_lists.len() - i,
    {
        let ghost before = lists@;
        lists.push(
            DownloadedList { kind: placed_lists[i].kind, path: placed_lists[i].path.clone() },
        );
        assert(downloaded_lists_names(lists@) =~= downloaded_lists_names(before).push(
            names[i as int],
        ));
        i += 1;
    }
    Ok(lists)
}

/// What came of looking for newer lists, given what came of each.
pub fn list_update_report(items: &Vec<DownloadItem>, outcomes: Vec<Result<bool, Problem>>) -> (
    report: ListUpdateReport)
    requires
        download::tried_all(items@.len(), outcomes@),
    ensures
        updated_lists_names(report.updated@) == download::placed(
            item_names(items@),
            outcomes@,
            outcomes@.len(),
        ),
        text::texts(report.errors@) == download::complaints(item_names(items@), outcomes@, outcomes@.len()),
{
    let (updated, errors) = sort_outcomes(items, &outcomes);
    ListUpdateReport { updated, errors }
}

/// Only lists that turn players away are fetched or kept up to date.
pub proof fn lemma_only_blocking_lists_are_maintained(
    config: SecurityConfig,
    asked: ListFiles,
    item: ItemView,
)
    requires
        maintained_lists(config, asked).contains(item),
    ensures
        config.enabled,
        (item.kind == "Tor exit"@ && config.block_tor && asked.tor) || (item.kind == "Spam IP"@
            && config.block_spam && asked.spam) || (item.kind == "VPN IPv4"@ && config.block_vpn
            && asked.vpn_ipv4) || (item.kind == "VPN IPv6"@ && config.block_vpn
            && asked.vpn_ipv6),
{
}

proof fn lemma_needles(values: Seq<Seq<char>>, needle: Seq<char>)
    ensures
        needles_of(values).contains(needle) <==> exists|k: int|
            0 <= k < values.len() && text::lowercase_text(text::trimmed(#[trigger] values[k]))
                == needle && needle.len() > 0,
    decreases values.len(),
{
    if values.len() > 0 {
        let rest = values.drop_last();
        lemma_needles(rest, needle);
        let before = needles_of(rest);
        let after = needles_of(values);
        let own = text::lowercase_text(text::trimmed(values.last()));
        assert(forall|k: int| 0 <= k < rest.len() ==> rest[k] == #[trigger] values[k]);
        if after.contains(needle) {
            let j = after.index_of(needle);
            if j < before.len() {
                assert(before[j] == needle);
                let k = choose|k: int|
                    0 <= k < rest.len() && text::lowercase_text(text::trimmed(#[trigger] rest[k]))
                        == needle && needle.len() > 0;
                assert(values[k] == rest[k]);
            } else {
                assert(values[values.len() - 1] == values.last());
            }
        }
        if exists|k: int|
            0 <= k < values.len() && text::lowercase_text(text::trimmed(#[trigger] values[k]))
                == needle && needle.len() > 0 {
            let k = choose|k: int|
                0 <= k < values.len() && text::lowercase_text(text::trimmed(#[trigger] values[k]))
                    == needle && needle.len() > 0;
            if k < rest.len() {
                assert(rest[k] == values[k]);
                let j = before.index_of(needle);
                assert(after[j] == needle);
            } else {
                assert(after.last() == needle);
            }
        }
    } else {
        assert(needles_of(values).len() == 0);
    }
}

proof fn lemma_one_more_allowed(values: Seq<Seq<char>>)
    requires
        values.len() > 0,
        allowed_blocks(values) is Ok,
    ensures
        allowed_blocks(values.drop_last()) is Ok,
        network::network_of(values.last()) is Ok,
        allowed_blocks(values)->Ok_0 == allowed_blocks(values.drop_last())->Ok_0.push(
            network::network_of(values.last())->Ok_0,
        ),
{
}

proof fn lemma_allowed_blocks(values: Seq<Seq<char>>)
    requires
        allowed_blocks(values) is Ok,
    ensures
        allowed_blocks(values)->Ok_0.len() == values.len(),
        forall|k: int|
            0 <= k < values.len() ==> network::network_of(#[trigger] values[k]) is Ok
                && allowed_blocks(values)->Ok_0[k] == network::network_of(values[k])->Ok_0,
    decreases values.len(),
{
    if values.len() > 0 {
        let rest = values.drop_last();
        lemma_one_more_allowed(values);
        lemma_allowed_blocks(rest);
        assert forall|k: int| 0 <= k < values.len() implies network::network_of(
            #[trigger] values[k],
        ) is Ok && allowed_blocks(values)->Ok_0[k] == network::network_of(values[k])->Ok_0 by {
            if k < rest.len() {
                assert(rest[k] == values[k]);
            }
        }
    }
}

/// Whether an entry of an allowlist names a block that holds an address.
pub open spec fn on_allowlist(entries: Seq<String>, ip: IpAddr) -> bool {
    exists|k: int|
        0 <= k < entries.len() && network::network_of((#[trigger] entries[k])@) is Ok
            && network::network_of(entries[k]@)->Ok_0.covers(ip)
}

/// Whether one of the words, once trimmed and in lower case, is a part of the name of a
/// provider in lower case. A blank word names no provider.
pub open spec fn names_provider(words: Seq<String>, isp: Option<String>) -> bool {
    isp is Some && exists|k: int|
        0 <= k < words.len() && text::lowercase_text(text::trimmed((#[trigger] words[k])@)).len()
            > 0 && text::occurs_in(
            text::lowercase_text(isp->0@),
            text::lowercase_text(text::trimmed(words[k]@)),
        )
}

/// Whether a line of a list's file names a block that holds an address.
pub open spec fn on_list(path: Option<String>, found: ListText, ip: IpAddr) -> bool {
    found matches Some(Ok(source)) && path is Some && path->0@.len() > 0 && exists|k: int|
        0 <= k < text::pieces(source@, '\n').len() && network::token_of(
            #[trigger] text::pieces(source@, '\n')[k],
        ).len() > 0 && network::network_of(
            network::token_of(text::pieces(source@, '\n')[k]),
        ) is Ok && network::network_of(
            network::token_of(text::pieces(source@, '\n')[k]),
        )->Ok_0.covers(ip)
}

proof fn lemma_on_list(path: Option<String>, kind: Seq<char>, found: ListText, ip: IpAddr)
    requires
        file_blocks(text::text_of(path), kind, found) is Ok,
    ensures
        network::listed(file_blocks(text::text_of(path), kind, found)->Ok_0, ip) <==> on_list(
            path,
            found,
            ip,
        ),
{
    let blocks = file_blocks(text::text_of(path), kind, found)->Ok_0;
    match found {
        Some(Ok(source)) if path is Some && path->0@.len() > 0 => {
            let lines = text::pieces(source@, '\n');
            if network::listed(blocks, ip) {
                let i = choose|i: int| 0 <= i < blocks.len() && (#[trigger] blocks[i]).covers(ip);
                assert(blocks.contains(blocks[i]));
                network::lemma_list_entries(lines, path->0@, kind, ListFormat::Network, blocks[i]);
            }
            if on_list(path, found, ip) {
                let k = choose|k: int|
                    0 <= k < lines.len() && network::token_of(#[trigger] lines[k]).len() > 0
                        && network::network_of(network::token_of(lines[k])) is Ok
                        && network::network_of(network::token_of(lines[k]))->Ok_0.covers(ip);
                let block = network::network_of(network::token_of(lines[k]))->Ok_0;
                network::lemma_list_entries(lines, path->0@, kind, ListFormat::Network, block);
                assert(blocks.contains(block));
                assert(blocks[blocks.index_of(block)].covers(ip));
            }
        },
        _ => {},
    }
}

proof fn lemma_listed_in_both(first: Seq<IpNetwork>, second: Seq<IpNetwork>, ip: IpAddr)
    ensures
        network::listed(first + second, ip) <==> network::listed(first, ip) || network::listed(
            second,
            ip,
        ),
{
    let both = first + second;
    if network::listed(first, ip) {
        let i = choose|i: int| 0 <= i < first.len() && (#[trigger] first[i]).covers(ip);
        assert(both[i].covers(ip));
    }
    if network::listed(second, ip) {
        let i = choose|i: int| 0 <= i < second.len() && (#[trigger] second[i]).covers(ip);
        assert(both[first.len() + i].covers(ip));
    }
    if network::listed(both, ip) {
        let i = choose|i: int| 0 <= i < both.len() && (#[trigger] both[i]).covers(ip);
        if i < first.len() {
            assert(first[i].covers(ip));
        } else {
            assert(second[i - first.len()].covers(ip));
        }
    }
}

proof fn lemma_opened_lists(
    config: SecurityConfig,
    found: ListTexts,
    guard: Guard,
    blocks: Blocks,
    location: IpLocation,
)
    requires
        all_blocks(config, found) == Ok::<Blocks, Report>(blocks),
        guards(guard, config, blocks),
    ensures
        ({
            let on_tor = on_list(config.tor_exit_list, found.tor, location.ip);
            let on_spam = on_list(config.spam_list, found.spam, location.ip);
            let on_vpn4 = on_list(config.vpn_ipv4_list, found.vpn_ipv4, location.ip);
            let on_vpn6 = on_list(config.vpn_ipv6_list, found.vpn_ipv6, location.ip);
            let by_provider = names_provider(config.vpn_isp_contains@, location.isp);
            let allowed = on_allowlist(config.allowlist@, location.ip);
            &&& guard.tor.has(location.ip) <==> on_tor
            &&& guard.spam.has(location.ip) <==> on_spam
            &&& guard.vpn_hit(location@) <==> on_vpn4 || on_vpn6 || by_provider
            &&& guard.allowlist.has(location.ip) <==> allowed
        }),
{
    let ip = location.ip;
    lemma_on_list(config.tor_exit_list, "Tor exit"@, found.tor, ip);
    lemma_on_list(config.spam_list, "Spam IP"@, found.spam, ip);
    lemma_on_list(config.vpn_ipv4_list, "VPN IPv4"@, found.vpn_ipv4, ip);
    lemma_on_list(config.vpn_ipv6_list, "VPN IPv6"@, found.vpn_ipv6, ip);
    lemma_listed_in_both(
        file_blocks(text::text_of(config.vpn_ipv4_list), "VPN IPv4"@, found.vpn_ipv4)->Ok_0,
        file_blocks(text::text_of(config.vpn_ipv6_list), "VPN IPv6"@, found.vpn_ipv6)->Ok_0,
        ip,
    );
    let values = text::texts(config.allowlist@);
    let allowed_list = blocks.allowlist;
    lemma_allowed_blocks(values);
    if network::listed(allowed_list, ip) {
        let i = choose|i: int|
            0 <= i < allowed_list.len() && (#[trigger] allowed_list[i]).covers(ip);
        assert(config.allowlist@[i]@ == values[i]);
    }
    assert forall|k: int|
        0 <= k < config.allowlist@.len() && network::network_of((#[trigger] config.allowlist@[k])@)
            is Ok && network::network_of(config.allowlist@[k]@)->Ok_0.covers(
            ip,
        ) implies network::listed(allowed_list, ip) by {
        assert(values[k] == config.allowlist@[k]@);
        assert(allowed_list[k].covers(ip));
    }
    let wanted = text::texts(config.vpn_isp_contains@);
    let needles = needles_of(wanted);
    if provider_hit(needles, location@.isp) {
        let i = choose|i: int|
            0 <= i < needles.len() && text::occurs_in(
                text::lowercase_text(location@.isp->0),
                #[trigger] needles[i],
            );
        assert(needles.contains(needles[i]));
        lemma_needles(wanted, needles[i]);
        let k = choose|k: int|
            0 <= k < wanted.len() && text::lowercase_text(text::trimmed(#[trigger] wanted[k]))
                == needles[i] && needles[i].len() > 0;
        assert(config.vpn_isp_contains@[k]@ == wanted[k]);
    }
    assert forall|k: int|
        0 <= k < config.vpn_isp_contains@.len() && location.isp is Some && text::lowercase_text(
            text::trimmed((#[trigger] config.vpn_isp_contains@[k])@),
        ).len() > 0 && text::occurs_in(
            text::lowercase_text(location.isp->0@),
            text::lowercase_text(text::trimmed(config.vpn_isp_contains@[k]@)),
        ) implies provider_hit(needles, location@.isp) by {
        let needle = text::lowercase_text(text::trimmed(config.vpn_isp_contains@[k]@));
        assert(wanted[k] == config.vpn_isp_contains@[k]@);
        lemma_needles(wanted, needle);
        assert(text::occurs_in(
            text::lowercase_text(location@.isp->0),
            needles[needles.index_of(needle)],
        ));
    }
}

/// Who is turned away, and why. A player is refused exactly when blocking is enabled, the
/// address is in no block of the allowlist, and one of the lists whose own switch is on has
/// it: the Tor list, the VPN lists or the words for providers, or the spam list. Each switch
/// works without the other two. The reason is the first of these in that order. An address is
/// on a list where a line of its file names a block that holds it.
pub proof fn lemma_turned_away_exactly_when_listed(
    config: SecurityConfig,
    found: ListTexts,
    security: Security,
    location: IpLocation,
    reason: Option<BlockReason>,
)
    requires
        call_ensures(Security::open, (&config, &found), Ok::<Security, Problem>(security)),
        call_ensures(Security::check, (&security, &location), reason),
    ensures
        ({
            let on_tor = on_list(config.tor_exit_list, found.tor, location.ip);
            let on_spam = on_list(config.spam_list, found.spam, location.ip);
            let on_vpn4 = on_list(config.vpn_ipv4_list, found.vpn_ipv4, location.ip);
            let on_vpn6 = on_list(config.vpn_ipv6_list, found.vpn_ipv6, location.ip);
            let by_provider = names_provider(config.vpn_isp_contains@, location.isp);
            let allowed = on_allowlist(config.allowlist@, location.ip);
            let tor = config.block_tor && on_tor;
            let vpn = config.block_vpn && (on_vpn4 || on_vpn6 || by_provider);
            let spam = config.block_spam && on_spam;
            &&& reason is Some <==> config.enabled && !allowed && (tor || vpn || spam)
            &&& reason == Some(BlockReason::Tor) <==> config.enabled && !allowed && tor
            &&& reason == Some(BlockReason::Vpn) <==> config.enabled && !allowed && vpn && !tor
            &&& reason == Some(BlockReason::Spam) <==> config.enabled && !allowed && spam && !vpn
                && !tor
        }),
{
    let blocks = all_blocks(config, found)->Ok_0;
    lemma_opened_lists(config, found, security.guard(), blocks, location);
}

/// What routing rules see of the lists: whether a line of their files names a block with the
/// address, or a word stands in the name of the provider. The switches make no difference.
pub proof fn lemma_rules_see_the_lists(
    config: SecurityConfig,
    found: ListTexts,
    security: Security,
    location: IpLocation,
    vpn: bool,
    tor: bool,
    spam: bool,
)
    requires
        call_ensures(Security::open, (&config, &found), Ok::<Security, Problem>(security)),
        call_ensures(Security::matches_vpn, (&security, &location), vpn),
        call_ensures(Security::matches_tor, (&security, &location), tor),
        call_ensures(Security::matches_spam, (&security, &location), spam),
    ensures
        vpn == security.guard().vpn_hit(location@),
        tor == security.guard().tor.has(location.ip),
        spam == security.guard().spam.has(location.ip),
        ({
            let on_tor = on_list(config.tor_exit_list, found.tor, location.ip);
            let on_spam = on_list(config.spam_list, found.spam, location.ip);
            let on_vpn4 = on_list(config.vpn_ipv4_list, found.vpn_ipv4, location.ip);
            let on_vpn6 = on_list(config.vpn_ipv6_list, found.vpn_ipv6, location.ip);
            let by_provider = names_provider(config.vpn_isp_contains@, location.isp);
            let allowed = on_allowlist(config.allowlist@, location.ip);
            &&& vpn <==> on_vpn4 || on_vpn6 || by_provider
            &&& tor <==> on_tor
            &&& spam <==> on_spam
        }),
{
    let blocks = all_blocks(config, found)->Ok_0;
    lemma_opened_lists(config, found, security.guard(), blocks, location);
}

/// Blocking is on where it is enabled and at least one list turns players away.
pub proof fn lemma_one_switch_is_enough(
    config: SecurityConfig,
    found: ListTexts,
    security: Security,
    yes: bool,
)
    requires
        call_ensures(Security::open, (&config, &found), Ok::<Security, Problem>(security)),
        call_ensures(Security::is_enabled, (&security,), yes),
    ensures
        yes <==> config.enabled && (config.block_vpn || config.block_tor || config.block_spam),
{
}

/// The lists that are fetched: those without a file whose path is set and whose own blocking
/// and blocking as a whole are switched on, if lists are downloaded at all. They come in the
/// order Tor, spam, VPN for IPv4, VPN for IPv6, each from its own address to its own path. The
/// Tor list holds single addresses, the others blocks.
pub proof fn lemma_missing_lists_are_fetched(
    config: SecurityConfig,
    there: ListFiles,
    items: Vec<DownloadItem>,
)
    requires
        call_ensures(missing_lists, (&config, there), items),
    ensures
        ({
            let tor = config.enabled && config.block_tor && config.auto_download && !there.tor
                && config.tor_exit_list is Some
                && config.tor_exit_list->0@.len() > 0;
            let spam = config.enabled && config.block_spam && config.auto_download && !there.spam
                && config.spam_list is Some
                && config.spam_list->0@.len() > 0;
            let vpn4 = config.enabled && config.block_vpn && config.auto_download
                && !there.vpn_ipv4 && config.vpn_ipv4_list is Some
                && config.vpn_ipv4_list->0@.len() > 0;
            let vpn6 = config.enabled && config.block_vpn && config.auto_download
                && !there.vpn_ipv6 && config.vpn_ipv6_list is Some
                && config.vpn_ipv6_list->0@.len() > 0;
            let a = if tor { 1int } else { 0 };
            let b = if spam { 1int } else { 0 };
            let c = if vpn4 { 1int } else { 0 };
            let d = if vpn6 { 1int } else { 0 };
            &&& items@.len() == a + b + c + d
            &&& tor ==> items@[0].kind@ == "Tor exit"@ && items@[0].format == ListFormat::Ip
                && items@[0].path@ == config.tor_exit_list->0@
                    && items@[0].url@ == config.tor_exit_list_url@
            &&& spam ==> items@[a].kind@ == "Spam IP"@ && items@[a].format == ListFormat::Network
                && items@[a].path@ == config.spam_list->0@
                    && items@[a].url@ == config.spam_list_url@
            &&& vpn4 ==> items@[a + b].kind@ == "VPN IPv4"@ && items@[a
                + b].format == ListFormat::Network
                && items@[a + b].path@ == config.vpn_ipv4_list->0@ && items@[a
                    + b].url@ == config.vpn_ipv4_list_url@
            &&& vpn6 ==> items@[a + b + c].kind@ == "VPN IPv6"@ && items@[a + b
                + c].format == ListFormat::Network
                && items@[a + b + c].path@ == config.vpn_ipv6_list->0@ && items@[a + b
                    + c].url@ == config.vpn_ipv6_list_url@
        }),
{
    let views = item_views(items@);
    assert(views.len() == items@.len());
    assert forall|k: int| 0 <= k < items@.len() implies views[k] == item_view(
        #[trigger] items@[k],
    ) by {}
    assert(forall|k: int| 0 <= k < views.len() ==> #[trigger] views[k] == item_view(items@[k]));
}

/// The lists for which newer ones are looked for: all whose path is set and whose own blocking
/// and blocking as a whole are switched on, if lists are updated at all, in the same order.
pub proof fn lemma_blocking_lists_are_updated(config: SecurityConfig, items: Vec<DownloadItem>)
    requires
        call_ensures(updatable_lists, (&config,), items),
    ensures
        ({
            let tor = config.enabled && config.block_tor && config.auto_update
                && config.tor_exit_list is Some
                && config.tor_exit_list->0@.len() > 0;
            let spam = config.enabled && config.block_spam && config.auto_update
                && config.spam_list is Some
                && config.spam_list->0@.len() > 0;
            let vpn4 = config.enabled && config.block_vpn && config.auto_update
                && config.vpn_ipv4_list is Some
                && config.vpn_ipv4_list->0@.len() > 0;
            let vpn6 = config.enabled && config.block_vpn && config.auto_update
                && config.vpn_ipv6_list is Some
                && config.vpn_ipv6_list->0@.len() > 0;
            let a = if tor { 1int } else { 0 };
            let b = if spam { 1int } else { 0 };
            let c = if vpn4 { 1int } else { 0 };
            let d = if vpn6 { 1int } else { 0 };
            &&& items@.len() == a + b + c + d
            &&& tor ==> items@[0].kind@ == "Tor exit"@ && items@[0].format == ListFormat::Ip
                && items@[0].path@ == config.tor_exit_list->0@
                    && items@[0].url@ == config.tor_exit_list_url@
            &&& spam ==> items@[a].kind@ == "Spam IP"@ && items@[a].format == ListFormat::Network
                && items@[a].path@ == config.spam_list->0@
                    && items@[a].url@ == config.spam_list_url@
            &&& vpn4 ==> items@[a + b].kind@ == "VPN IPv4"@ && items@[a
                + b].format == ListFormat::Network
                && items@[a + b].path@ == config.vpn_ipv4_list->0@ && items@[a
                    + b].url@ == config.vpn_ipv4_list_url@
            &&& vpn6 ==> items@[a + b + c].kind@ == "VPN IPv6"@ && items@[a + b
                + c].format == ListFormat::Network
                && items@[a + b + c].path@ == config.vpn_ipv6_list->0@ && items@[a + b
                    + c].url@ == config.vpn_ipv6_list_url@
        }),
{
    let views = item_views(items@);
    assert(views.len() == items@.len());
    assert forall|k: int| 0 <= k < items@.len() implies views[k] == item_view(
        #[trigger] items@[k],
    ) by {}
    assert(forall|k: int| 0 <= k < views.len() ==> #[trigger] views[k] == item_view(items@[k]));
}

/// There is something to hold connections against wherever an address is on a list, or a
/// provider is named by one of the words; and nothing where there is neither a file nor a word.
pub proof fn lemma_lists_with_material(
    config: SecurityConfig,
    found: ListTexts,
    security: Security,
    location: IpLocation,
    yes: bool,
)
    requires
        call_ensures(Security::open, (&config, &found), Ok::<Security, Problem>(security)),
        call_ensures(Security::has_data, (&security,), yes),
    ensures
        on_list(config.tor_exit_list, found.tor, location.ip) ==> yes,
        on_list(config.spam_list, found.spam, location.ip) ==> yes,
        on_list(config.vpn_ipv4_list, found.vpn_ipv4, location.ip) ==> yes,
        on_list(config.vpn_ipv6_list, found.vpn_ipv6, location.ip) ==> yes,
        names_provider(config.vpn_isp_contains@, location.isp) ==> yes,
        found.tor is None && found.spam is None && found.vpn_ipv4 is None && found.vpn_ipv6 is None
            && config.vpn_isp_contains@.len() == 0 ==> !yes,
{
    let blocks = all_blocks(config, found)->Ok_0;
    let guard = security.guard();
    lemma_opened_lists(config, found, guard, blocks, location);
    lemma_material(guard, blocks, location);
    if found.tor is None && found.spam is None && found.vpn_ipv4 is None && found.vpn_ipv6 is None
        && config.vpn_isp_contains@.len() == 0 {
        lemma_no_block_no_count(guard.tor, blocks.tor);
        lemma_no_block_no_count(guard.spam, blocks.spam);
        lemma_no_block_no_count(guard.vpn, blocks.vpn);
    }
}

proof fn lemma_material(guard: Guard, blocks: Blocks, location: IpLocation)
    requires
        made_of(guard.vpn, blocks.vpn),
        made_of(guard.tor, blocks.tor),
        made_of(guard.spam, blocks.spam),
    ensures
        guard.vpn_hit(location@) || guard.tor.has(location.ip) || guard.spam.has(location.ip)
            ==> guard.has_material(),
{
    if guard.tor.has(location.ip) {
        lemma_block_is_counted(guard.tor, blocks.tor, location.ip);
    }
    if guard.spam.has(location.ip) {
        lemma_block_is_counted(guard.spam, blocks.spam, location.ip);
    }
    if guard.vpn.has(location.ip) {
        lemma_block_is_counted(guard.vpn, blocks.vpn, location.ip);
    }
}

proof fn lemma_no_block_no_count(set: IpSet, blocks: Seq<IpNetwork>)
    requires
        made_of(set, blocks),
        blocks.len() == 0,
    ensures
        set.count() == 0,
{
    assert forall|key: Seq<bool>| !set.keys(false).contains(key) by {
        if set.keys(false).contains(key) {
            assert(network::keyed(blocks, false, key));
        }
    }
    assert forall|key: Seq<bool>| !set.keys(true).contains(key) by {
        if set.keys(true).contains(key) {
            assert(network::keyed(blocks, true, key));
        }
    }
    assert(set.keys(false) =~= Set::empty());
    assert(set.keys(true) =~= Set::empty());
}

proof fn lemma_block_is_counted(set: IpSet, blocks: Seq<IpNetwork>, ip: IpAddr)
    requires
        made_of(set, blocks),
        network::listed(blocks, ip),
    ensures
        set.count() > 0,
{
    let i = choose|i: int| 0 <= i < blocks.len() && (#[trigger] blocks[i]).covers(ip);
    let wide = blocks[i] is V6;
    assert(network::keyed(blocks, wide, blocks[i].key()));
    assert(set.keys(wide).contains(blocks[i].key()));
    assert(set.keys(wide).len() > 0) by {
        if set.keys(wide).len() == 0 {
            assert(set.keys(wide) =~= Set::empty());
        }
    }
}

/// The names of the reasons in the log, and the keys of the messages for players.
pub proof fn lemma_reasons_have_their_words(
    reason: BlockReason,
    label: &'static str,
    key: &'static str,
)
    requires
        call_ensures(BlockReason::label, (reason,), label),
        call_ensures(BlockReason::disconnect_key, (reason,), key),
    ensures
        reason is Vpn ==> label@ == "VPN/Proxy"@ && key@ == "disconnect.vpn_blocked"@,
        reason is Tor ==> label@ == "Tor"@ && key@ == "disconnect.tor_blocked"@,
        reason is Spam ==> label@ == "Spam IP"@ && key@ == "disconnect.spam_blocked"@,
{
}

/// A list file that was downloaded is good exactly when it can be read and its text is a good
/// list.
pub proof fn lemma_good_list_files(
    path: &str,
    kind: &str,
    format: ListFormat,
    source: Result<String, String>,
    text: &str,
    judged: Result<(), Problem>,
    outcome: Result<(), Problem>,
)
    requires
        call_ensures(validate_list_file, (path, kind, format, source), outcome),
        source is Ok ==> text@ == source->Ok_0@,
        call_ensures(crate::network::validate_list, (text, path, kind, format), judged),
    ensures
        outcome is Ok <==> source is Ok && judged is Ok,
{
}

/// What went wrong with several lists is told in a row, with a semicolon between them.
pub proof fn lemma_failures_are_told_in_a_row(parts: Seq<Seq<char>>, part: Seq<char>)
    ensures
        listed_texts(seq![part]) == part,
        parts.len() > 0 ==> listed_texts(parts.push(part)) == listed_texts(parts) + "; "@ + part,
{
    assert(parts.push(part).drop_last() =~= parts);
}

} // verus!

//! Where an address is, by the location databases.
use crate::address::IpAddr;
use crate::config::Ip2RegionConfig;
use crate::download;
use crate::path::{self, configured_path};
use crate::problem::{self, Problem, Report};
use crate::text::{self, cat2, cat3, cat4, from_chars, same_text, split, to_chars};
use vstd::prelude::*;
use vstd::string::*;

verus! {

pub const IPV4_DATABASE_NAME: &'static str = "ip2region_v4.xdb";

pub const IPV6_DATABASE_NAME: &'static str = "ip2region_v6.xdb";

/// What is known of the place of an address.
#[derive(Debug, Clone, PartialEq, Eq)]
pub struct IpLocation {
    pub ip: IpAddr,
    pub country_code: Option<String>,
    pub country_name: Option<String>,
    pub province: Option<String>,
    pub city: Option<String>,
    pub isp: Option<String>,
}

/// The texts that an [`IpLocation`] holds.
pub struct Place {
    pub ip: IpAddr,
    pub country_code: Option<Seq<char>>,
    pub country_name: Option<Seq<char>>,
    pub province: Option<Seq<char>>,
    pub city: Option<Seq<char>>,
    pub isp: Option<Seq<char>>,
}

impl View for IpLocation {
    type V = Place;

    open spec fn view(&self) -> Place {
        Place {
            ip: self.ip,
            country_code: text::text_of(self.country_code),
            country_name: text::text_of(self.country_name),
            province: text::text_of(self.province),
            city: text::text_of(self.city),
            isp: text::text_of(self.isp),
        }
    }
}

/// An address of which nothing more is known.
pub open spec fn unknown_place(ip: IpAddr) -> Place {
    Place { ip, country_code: None, country_name: None, province: None, city: None, isp: None }
}

impl IpLocation {
    /// An address of which nothing more is known.
    pub fn empty(ip: IpAddr) -> (location: Self)
        ensures
            location@ == unknown_place(ip),
    {
        IpLocation {
            ip,
            country_code: None,
            country_name: None,
            province: None,
            city: None,
            isp: None,
        }
    }
}

/// The field of a region text at a position; empty if there are fewer fields.
pub open spec fn field_at(fields: Seq<Seq<char>>, i: int) -> Seq<char> {
    if 0 <= i < fields.len() {
        fields[i]
    } else {
        Seq::empty()
    }
}

/// A field that says something: it is neither empty nor `0`.
pub open spec fn said(field: Seq<char>) -> Option<Seq<char>> {
    if field.len() == 0 || field == "0"@ {
        None
    } else {
        Some(field)
    }
}

pub open spec fn is_letter(c: char) -> bool {
    ('a' <= c && c <= 'z') || ('A' <= c && c <= 'Z')
}

/// Whether a text has the shape of a country code: two ASCII letters.
pub open spec fn is_country_text(text: Seq<char>) -> bool {
    text.len() == 2 && is_letter(text[0]) && is_letter(text[1])
}

/// What a region text, `country|province|city|isp|code`, says of an address.
pub open spec fn place_of(ip: IpAddr, region: Seq<char>) -> Place {
    let fields = text::pieces(region, '|');
    Place {
        ip,
        country_name: said(field_at(fields, 0)),
        province: said(field_at(fields, 1)),
        city: said(field_at(fields, 2)),
        isp: said(field_at(fields, 3)),
        country_code: if is_country_text(field_at(fields, 4)) {
            Some(field_at(fields, 4))
        } else {
            None
        },
    }
}

fn nonzero(value: &str) -> (field: Option<String>)
    ensures
        text::text_of(field) == said(value@),
{
    if value.is_empty() || same_text(value, "0") {
        None
    } else {
        Some(value.to_owned())
    }
}

fn ascii_letter(c: char) -> (yes: bool)
    ensures
        yes == is_letter(c),
{
    ('a' <= c && c <= 'z') || ('A' <= c && c <= 'Z')
}

fn is_country_code(value: &str) -> (yes: bool)
    ensures
        yes == is_country_text(value@),
{
    let chars = to_chars(value);
    chars.len() == 2 && ascii_letter(chars[0]) && ascii_letter(chars[1])
}

fn field(fields: &Vec<String>, i: usize) -> (field: &str)
    ensures
        field@ == field_at(crate::text::texts(fields@), i as int),
{
    if i < fields.len() {
        fields[i].as_str()
    } else {
        let nothing = "";
        proof {
            reveal_strlit("");
        }
        nothing
    }
}

/// Writes what a region text says into a location.
pub fn parse_region(location: &mut IpLocation, region: &str)
    ensures
        final(location)@ == place_of(old(location).ip, region@),
{
    let fields = split(region, '|');
    let code = field(&fields, 4);
    *location = IpLocation {
        ip: location.ip,
        country_name: nonzero(field(&fields, 0)),
        province: nonzero(field(&fields, 1)),
        city: nonzero(field(&fields, 2)),
        isp: nonzero(field(&fields, 3)),
        country_code: if is_country_code(code) {
            Some(code.to_owned())
        } else {
            None
        },
    };
}

/// The location databases in use, one per address family, by their paths.
#[derive(Debug, Clone, PartialEq, Eq)]
pub struct Ip2Region {
    pub v4: Option<String>,
    pub v6: Option<String>,
}

/// What was found of the file of a database: nothing, that it can be used, or why not.
pub type DatabaseFile = Option<Result<(), String>>;

/// The path of a database that is set and whose file is there, or the report on one that
/// cannot be used.
pub open spec fn opened(
    path: Option<Seq<char>>,
    version: Seq<char>,
    found: DatabaseFile,
) -> Result<Option<Seq<char>>, Report> {
    match found {
        Some(found) if path::is_set(path) => match found {
            Ok(_) => Ok(path),
            Err(cause) => Err(
                Report {
                    message: "unable to open ip2region "@ + version + " database "@ + path->0,
                    cause: Some(cause@),
                },
            ),
        },
        _ => Ok(None),
    }
}

fn open_searcher(path: &Option<String>, version: &str, found: &DatabaseFile) -> (outcome: Result<
    Option<String>,
    Problem,
>)
    ensures
        match (outcome, opened(text::text_of(*path), version@, *found)) {
            (Ok(database), Ok(wanted)) => text::text_of(database) == wanted,
            (Err(problem), Err(report)) => problem@ == report,
            _ => false,
        },
{
    match configured_path(path) {
        None => Ok(None),
        Some(path) => match found {
            None => Ok(None),
            Some(Ok(_)) => Ok(Some(path.to_owned())),
            Some(Err(cause)) => Err(
                Problem::caused_by(
                    cat4("unable to open ip2region ", version, " database ", path),
                    cause.clone(),
                ),
            ),
        },
    }
}

/// What the lookup of an address in a database comes to, where `found` is what the
/// database answered.
pub open spec fn located(
    database: Option<Seq<char>>,
    ip: IpAddr,
    shown: Seq<char>,
    found: Result<Seq<char>, Seq<char>>,
) -> Result<Place, Report> {
    if database is None {
        Ok(unknown_place(ip))
    } else {
        match found {
            Err(cause) => Err(
                Report {
                    message: "ip2region "@ + family_name(ip) + " lookup failed for "@ + shown,
                    cause: Some(cause),
                },
            ),
            Ok(region) => if region.len() == 0 {
                Ok(unknown_place(ip))
            } else {
                Ok(place_of(ip, region))
            },
        }
    }
}

/// The name of the family of an address.
pub open spec fn family_name(ip: IpAddr) -> Seq<char> {
    match ip {
        IpAddr::V4(_) => "IPv4"@,
        IpAddr::V6(_) => "IPv6"@,
    }
}

/// The name of the family of an address.
pub fn family(ip: IpAddr) -> (name: &'static str)
    ensures
        name@ == family_name(ip),
{
    match ip {
        IpAddr::V4(_) => "IPv4",
        IpAddr::V6(_) => "IPv6",
    }
}

impl Ip2Region {
    /// The database that answers for an address.
    pub open spec fn database(self, ip: IpAddr) -> Option<Seq<char>> {
        match ip {
            IpAddr::V4(_) => text::text_of(self.v4),
            IpAddr::V6(_) => text::text_of(self.v6),
        }
    }

    /// The databases of a configuration, given what was found of their files.
    pub fn open(config: &Ip2RegionConfig, v4: &DatabaseFile, v6: &DatabaseFile) -> (outcome: Result<
        Self,
        Problem,
    >)
        ensures
            match (
                outcome,
                opened(text::text_of(config.v4_db), "IPv4"@, *v4),
                opened(text::text_of(config.v6_db), "IPv6"@, *v6),
            ) {
                (Err(problem), Err(report), _) => problem@ == report,
                (Err(problem), Ok(_), Err(report)) => problem@ == report,
                (Ok(databases), Ok(first), Ok(second)) => text::text_of(databases.v4) == first && text::text_of(
                    databases.v6,
                ) == second,
                _ => false,
            },
    {
        let v4 = match open_searcher(&config.v4_db, "IPv4", v4) {
            Ok(database) => database,
            Err(problem) => {
                return Err(problem);
            },
        };
        let v6 = match open_searcher(&config.v6_db, "IPv6", v6) {
            Ok(database) => database,
            Err(problem) => {
                return Err(problem);
            },
        };
        Ok(Ip2Region { v4, v6 })
    }

    /// Whether there is any database.
    pub fn is_configured(&self) -> (yes: bool)
        ensures
            yes == (self.v4 is Some || self.v6 is Some),
    {
        self.v4.is_some() || self.v6.is_some()
    }

    /// The path of the database that answers for an address.
    pub fn database_for(&self, ip: IpAddr) -> (path: Option<&str>)
        ensures
            crate::text::str_text(path) == self.database(ip),
    {
        match ip {
            IpAddr::V4(_) => crate::text::as_str_option(&self.v4),
            IpAddr::V6(_) => crate::text::as_str_option(&self.v6),
        }
    }

    /// What is known of an address: `shown` is the address as text, and `found` the
    /// region text that its database answered. An address whose family has no database
    /// is unknown, whatever `found` is.
    pub fn lookup(&self, ip: IpAddr, shown: &str, found: Result<String, String>) -> (outcome:
        Result<IpLocation, Problem>)
        ensures
            match (
                outcome,
                located(self.database(ip), ip, shown@, crate::url::outcome_texts(found)),
            ) {
                (Ok(location), Ok(place)) => location@ == place,
                (Err(problem), Err(report)) => problem@ == report,
                _ => false,
            },
    {
        if self.database_for(ip).is_none() {
            return Ok(IpLocation::empty(ip));
        }
        match found {
            Err(cause) => Err(
                Problem::caused_by(
                    cat4("ip2region ", family(ip), " lookup failed for ", shown),
                    cause,
                ),
            ),
            Ok(region) => {
                let mut location = IpLocation::empty(ip);
                if !region.as_str().is_empty() {
                    parse_region(&mut location, region.as_str());
                }
                Ok(location)
            },
        }
    }
}

/// Fields that say nothing leave the place unknown: a region text of zeros tells no more
/// of an address than its absence.
pub proof fn lemma_zero_fields_say_nothing(ip: IpAddr, region: Seq<char>)
    requires
        forall|i: int|
            0 <= i < text::pieces(region, '|').len() ==> (#[trigger] text::pieces(region, '|')[i]).len() == 0
                || text::pieces(region, '|')[i] == "0"@,
    ensures
        place_of(ip, region) == unknown_place(ip),
{
    reveal_strlit("0");
}

/// A database that was fetched because it was missing.
#[derive(Debug, Clone, PartialEq, Eq)]
pub struct DownloadedDatabase {
    pub version: &'static str,
    pub path: String,
}

/// A database that was replaced by a newer one.
#[derive(Debug, Clone, PartialEq, Eq)]
pub struct UpdatedDatabase {
    pub version: &'static str,
    pub path: String,
}

/// What came of looking for newer databases.
#[derive(Debug)]
pub struct UpdateReport {
    pub updated: Vec<UpdatedDatabase>,
    pub errors: Vec<String>,
}

impl Default for UpdateReport {
    fn default() -> (report: Self)
        ensures
            report.updated@.len() == 0,
            report.errors@.len() == 0,
    {
        UpdateReport { updated: Vec::new(), errors: Vec::new() }
    }
}

/// A database that is to be fetched.
#[derive(Debug)]
pub struct PendingDatabase {
    pub path: String,
    pub file: &'static str,
    pub version: &'static str,
}

/// The text without the slashes at its end.
pub open spec fn without_slashes(text: Seq<char>) -> Seq<char>
    decreases text.len(),
{
    if text.len() > 0 && text.last() == '/' {
        without_slashes(text.drop_last())
    } else {
        text
    }
}

/// The address of a file below a base address.
pub fn download_url(base_url: &str, file: &str) -> (url: String)
    ensures
        url@ == without_slashes(base_url@) + "/"@ + file@,
{
    let chars = to_chars(base_url);
    let mut n: usize = chars.len();
    assert(chars@.take(n as int) == chars@);
    while n > 0 && chars[n - 1] == '/'
        invariant
            n <= chars.len(),
            chars@ == base_url@,
            without_slashes(base_url@) == without_slashes(chars@.take(n as int)),
        decreases n,
    {
        assert(chars@.take(n as int).drop_last() == chars@.take(n - 1));
        n -= 1;
    }
    let base = from_chars(&chars, 0, n);
    cat3(base.as_str(), "/", file)
}

/// A pending database as a tuple of texts: its path, the name of its file, its version.
pub type Pending = (Seq<char>, Seq<char>, Seq<char>);

pub open spec fn pending_text(pending: PendingDatabase) -> Pending {
    (pending.path@, pending.file@, pending.version@)
}

/// What pending databases hold.
pub open spec fn pending_texts(pending: Seq<PendingDatabase>) -> Seq<Pending> {
    pending.map_values(|item: PendingDatabase| pending_text(item))
}

/// The database of one family, if its path is set and it is asked for.
pub open spec fn one_pending(
    path: Option<Seq<char>>,
    file: Seq<char>,
    version: Seq<char>,
    asked: bool,
) -> Seq<Pending> {
    if path::is_set(path) && asked {
        seq![(path->0, file, version)]
    } else {
        Seq::empty()
    }
}

fn push_pending(
    pending: &mut Vec<PendingDatabase>,
    path: &Option<String>,
    file: &'static str,
    version: &'static str,
    asked: bool,
)
    ensures
        pending_texts(final(pending)@) == pending_texts(old(pending)@) + one_pending(
            text::text_of(*path),
            file@,
            version@,
            asked,
        ),
{
    match configured_path(path) {
        Some(path) => {
            if asked {
                pending.push(PendingDatabase { path: path.to_owned(), file, version });
            }
        },
        None => {},
    }
}

/// The databases that are fetched because they are missing, given which files are there.
pub fn missing_databases(config: &Ip2RegionConfig, v4_exists: bool, v6_exists: bool) -> (pending:
    Vec<PendingDatabase>)
    ensures
        pending_texts(pending@) == one_pending(
            text::text_of(config.v4_db),
            IPV4_DATABASE_NAME@,
            "IPv4"@,
            config.auto_download && !v4_exists,
        ) + one_pending(
            text::text_of(config.v6_db),
            IPV6_DATABASE_NAME@,
            "IPv6"@,
            config.auto_download && !v6_exists,
        ),
{
    let mut pending: Vec<PendingDatabase> = Vec::new();
    push_pending(
        &mut pending,
        &config.v4_db,
        IPV4_DATABASE_NAME,
        "IPv4",
        config.auto_download && !v4_exists,
    );
    push_pending(
        &mut pending,
        &config.v6_db,
        IPV6_DATABASE_NAME,
        "IPv6",
        config.auto_download && !v6_exists,
    );
    pending
}

/// The databases for which newer ones are looked for.
pub fn updatable_databases(config: &Ip2RegionConfig) -> (pending: Vec<PendingDatabase>)
    ensures
        pending_texts(pending@) == one_pending(
            text::text_of(config.v4_db),
            IPV4_DATABASE_NAME@,
            "IPv4"@,
            config.auto_update,
        ) + one_pending(
            text::text_of(config.v6_db),
            IPV6_DATABASE_NAME@,
            "IPv6"@,
            config.auto_update,
        ),
{
    let mut pending: Vec<PendingDatabase> = Vec::new();
    push_pending(
        &mut pending,
        &config.v4_db,
        IPV4_DATABASE_NAME,
        "IPv4",
        config.auto_update,
    );
    push_pending(
        &mut pending,
        &config.v6_db,
        IPV6_DATABASE_NAME,
        "IPv6",
        config.auto_update,
    );
    pending
}

/// What a downloaded file has to be: a database of the version that was asked for. `opened`
/// says whether it is a database, `searched` whether an address of that version can be
/// looked up in it.
pub open spec fn database_problem(
    version: Seq<char>,
    opened: Result<(), String>,
    searched: Result<(), String>,
) -> Option<Report> {
    match opened {
        Err(cause) => Some(
            Report {
                message: "downloaded ip2region "@ + version + " database is invalid"@,
                cause: Some(cause@),
            },
        ),
        Ok(_) => if probe_of(version) is None {
            Some(crate::problem::plain("unsupported ip2region database version "@ + version))
        } else {
            match searched {
                Err(cause) => Some(
                    crate::problem::plain(
                        "downloaded ip2region "@ + version
                            + " database has the wrong IP version: "@ + cause@,
                    ),
                ),
                Ok(_) => None,
            }
        },
    }
}

/// The address that a downloaded database is asked for: the all-zero one of the family that
/// it is for, if there is such a family.
pub open spec fn probe_of(version: Seq<char>) -> Option<IpAddr> {
    if version == "IPv4"@ {
        Some(IpAddr::V4(0))
    } else if version == "IPv6"@ {
        Some(IpAddr::V6(0))
    } else {
        None
    }
}

/// The address that a downloaded database is asked for.
pub fn probe_address(version: &str) -> (address: Option<IpAddr>)
    ensures
        address == probe_of(version@),
{
    if same_text(version, "IPv4") {
        Some(IpAddr::V4(0))
    } else if same_text(version, "IPv6") {
        Some(IpAddr::V6(0))
    } else {
        None
    }
}

/// Judges a downloaded database.
pub fn validate_downloaded_xdb(
    version: &str,
    opened: Result<(), String>,
    searched: Result<(), String>,
) -> (outcome: Result<(), Problem>)
    ensures
        crate::problem::failure(outcome) == database_problem(version@, opened, searched),
{
    match opened {
        Err(cause) => {
            return Err(
                Problem::caused_by(
                    cat3("downloaded ip2region ", version, " database is invalid"),
                    cause,
                ),
            );
        },
        Ok(_) => {},
    }
    if probe_address(version).is_none() {
        return Err(Problem::new(cat2("unsupported ip2region database version ", version)));
    }
    match searched {
        Err(cause) => Err(
            Problem::new(
                cat4(
                    "downloaded ip2region ",
                    version,
                    " database has the wrong IP version: ",
                    cause.as_str(),
                ),
            ),
        ),
        Ok(_) => Ok(()),
    }
}

/// The labels and paths of pending databases.
pub open spec fn pending_names(pending: Seq<PendingDatabase>) -> Seq<crate::download::Named> {
    pending.map_values(|item: PendingDatabase| (item.version@, item.path@))
}

pub open spec fn downloaded_names(databases: Seq<DownloadedDatabase>) -> Seq<
    crate::download::Named,
> {
    databases.map_values(|item: DownloadedDatabase| (item.version@, item.path@))
}

pub open spec fn updated_names(databases: Seq<UpdatedDatabase>) -> Seq<crate::download::Named> {
    databases.map_values(|item: UpdatedDatabase| (item.version@, item.path@))
}

/// What came of fetching missing databases, given what came of each up to the first that
/// failed: the round stops there.
pub fn downloaded_databases(
    pending: &Vec<PendingDatabase>,
    outcomes: Vec<Result<bool, Problem>>,
) -> (outcome: Result<Vec<DownloadedDatabase>, Problem>)
    requires
        download::tried_until_failure(pending@.len(), outcomes@),
    ensures
        match outcome {
            Err(problem) => problem::first_problem(download::run_findings(outcomes@)) == Some(problem@),
            Ok(databases) => {
                &&& problem::first_problem(download::run_findings(outcomes@)) is None
                &&& downloaded_names(databases@) == download::placed(
                    pending_names(pending@),
                    outcomes@,
                    outcomes@.len(),
                )
            },
        },
{
    let ghost findings = download::run_findings(outcomes@);
    let ghost names = pending_names(pending@);
    let mut databases: Vec<DownloadedDatabase> = Vec::new();
    let mut i: usize = 0;
    while i < outcomes.len()
        invariant
            i <= outcomes.len() <= pending.len(),
            findings == download::run_findings(outcomes@),
            names == pending_names(pending@),
            forall|k: int| 0 <= k < i ==> (#[trigger] findings[k]) is None,
            downloaded_names(databases@) == download::placed(names, outcomes@, i as nat),
        decreases outcomes.len() - i,
    {
        match &outcomes[i] {
            Ok(true) => {
                databases.push(
                    DownloadedDatabase {
                        version: pending[i].version,
                        path: pending[i].path.clone(),
                    },
                );
            },
            Ok(false) => {},
            Err(problem) => {
                proof {
                    problem::lemma_first_problem(findings, i as int);
                }
                return Err(problem.duplicate());
            },
        }
        i += 1;
    }
    proof {
        problem::lemma_no_problem(findings);
    }
    Ok(databases)
}

/// What came of looking for newer databases, given what came of each.
pub fn update_report(pending: &Vec<PendingDatabase>, outcomes: Vec<Result<bool, Problem>>) -> (
    report: UpdateReport)
    requires
        download::tried_all(pending@.len(), outcomes@),
    ensures
        updated_names(report.updated@) == download::placed(
            pending_names(pending@),
            outcomes@,
            outcomes@.len(),
        ),
        text::texts(report.errors@) == download::complaints(
            pending_names(pending@),
            outcomes@,
            outcomes@.len(),
        ),
{
    let ghost names = pending_names(pending@);
    let mut updated: Vec<UpdatedDatabase> = Vec::new();
    let mut errors: Vec<String> = Vec::new();
    let mut i: usize = 0;
    while i < outcomes.len()
        invariant
            i <= outcomes.len() <= pending.len(),
            names == pending_names(pending@),
            updated_names(updated@) == download::placed(names, outcomes@, i as nat),
            text::texts(errors@) == download::complaints(names, outcomes@, i as nat),
        decreases outcomes.len() - i,
    {
        match &outcomes[i] {
            Ok(true) => {
                updated.push(
                    UpdatedDatabase { version: pending[i].version, path: pending[i].path.clone() },
                );
            },
            Ok(false) => {},
            Err(problem) => {
                errors.push(cat3(pending[i].version, ": ", problem.message.as_str()));
            },
        }
        i += 1;
    }
    UpdateReport { updated, errors }
}

/// A region text names the country, the province, the city and the provider, in this order
/// and between bars, and the code of the country behind them. An empty field, or a zero, says
/// nothing; a code counts only if it is two ASCII letters.
pub proof fn lemma_region_fields(
    ip: IpAddr,
    country: Seq<char>,
    province: Seq<char>,
    city: Seq<char>,
    isp: Seq<char>,
    code: Seq<char>,
)
    requires
        forall|i: int| 0 <= i < country.len() ==> (#[trigger] country[i]) != '|',
        forall|i: int| 0 <= i < province.len() ==> (#[trigger] province[i]) != '|',
        forall|i: int| 0 <= i < city.len() ==> (#[trigger] city[i]) != '|',
        forall|i: int| 0 <= i < isp.len() ==> (#[trigger] isp[i]) != '|',
        forall|i: int| 0 <= i < code.len() ==> (#[trigger] code[i]) != '|',
    ensures
        ({
            let bar = seq!['|'];
            let place = place_of(
                ip,
                country + bar + province + bar + city + bar + isp + bar + code,
            );
            &&& place.ip == ip
            &&& place.country_name == if country.len() == 0 || country == "0"@ {
                None
            } else {
                Some(country)
            }
            &&& place.province == if province.len() == 0 || province == "0"@ {
                None
            } else {
                Some(province)
            }
            &&& place.city == if city.len() == 0 || city == "0"@ {
                None
            } else {
                Some(city)
            }
            &&& place.isp == if isp.len() == 0 || isp == "0"@ {
                None
            } else {
                Some(isp)
            }
            &&& place.country_code == if code.len() == 2 && ('a' <= code[0] <= 'z' || 'A' <= code[0]
                <= 'Z') && ('a' <= code[1] <= 'z' || 'A' <= code[1] <= 'Z') {
                Some(code)
            } else {
                None
            }
        }),
{
    let bar = seq!['|'];
    let t1 = country + bar + province;
    let t2 = t1 + bar + city;
    let t3 = t2 + bar + isp;
    let t4 = t3 + bar + code;
    text::lemma_pieces_stand_between_separators(Seq::empty(), country, '|');
    text::lemma_pieces_stand_between_separators(country, province, '|');
    text::lemma_pieces_stand_between_separators(t1, city, '|');
    text::lemma_pieces_stand_between_separators(t2, isp, '|');
    text::lemma_pieces_stand_between_separators(t3, code, '|');
    assert(text::pieces(t4, '|') =~= seq![country, province, city, isp, code]);
}

/// A lookup says what the database of the family of the address says: nothing, where there is
/// no such database or it answers with an empty text; an error, where it fails.
pub proof fn lemma_lookup_asks_the_family(
    databases: Ip2Region,
    ip: IpAddr,
    shown: &str,
    found: Result<String, String>,
    outcome: Result<IpLocation, Problem>,
)
    requires
        call_ensures(Ip2Region::lookup, (&databases, ip, shown, found), outcome),
    ensures
        ({
            let there = if ip is V4 {
                databases.v4 is Some
            } else {
                databases.v6 is Some
            };
            &&& outcome is Err <==> there && found is Err
            &&& there && found is Ok && found->Ok_0@.len() > 0 ==> outcome->Ok_0@ == place_of(
                ip,
                found->Ok_0@,
            )
            &&& !there || (found is Ok && found->Ok_0@.len() == 0) ==> outcome->Ok_0@ == (Place {
                ip,
                country_code: None,
                country_name: None,
                province: None,
                city: None,
                isp: None,
            })
        }),
{
}

/// The databases that are fetched: those that have a path and no file, if databases are
/// downloaded at all, the one for IPv4 first. Each goes to its own path, from the file of its
/// family.
pub proof fn lemma_missing_databases_are_fetched(
    config: Ip2RegionConfig,
    v4_exists: bool,
    v6_exists: bool,
    pending: Vec<PendingDatabase>,
)
    requires
        call_ensures(missing_databases, (&config, v4_exists, v6_exists), pending),
    ensures
        ({
            let v4 = config.auto_download && !v4_exists && config.v4_db is Some
                && config.v4_db->0@.len() > 0;
            let v6 = config.auto_download && !v6_exists && config.v6_db is Some
                && config.v6_db->0@.len() > 0;
            &&& pending@.len() == (if v4 { 1int } else { 0 }) + (if v6 { 1int } else { 0 })
            &&& v4 ==> pending@[0].version@ == "IPv4"@ && pending@[0].path@ == config.v4_db->0@
                && pending@[0].file@ == "ip2region_v4.xdb"@
            &&& v6 ==> pending@.last().version@ == "IPv6"@ && pending@.last().path@
                == config.v6_db->0@ && pending@.last().file@ == "ip2region_v6.xdb"@
        }),
{
    let texts = pending_texts(pending@);
    assert(texts.len() == pending@.len());
    if pending@.len() > 0 {
        assert(texts[0] == pending_text(pending@[0]));
        assert(texts.last() == pending_text(pending@.last()));
    }
}

/// The databases for which newer ones are looked for: all that have a path, if databases are
/// updated at all, the one for IPv4 first.
pub proof fn lemma_all_databases_are_updated(
    config: Ip2RegionConfig,
    pending: Vec<PendingDatabase>,
)
    requires
        call_ensures(updatable_databases, (&config,), pending),
    ensures
        ({
            let v4 = config.auto_update && config.v4_db is Some && config.v4_db->0@.len() > 0;
            let v6 = config.auto_update && config.v6_db is Some && config.v6_db->0@.len() > 0;
            &&& pending@.len() == (if v4 { 1int } else { 0 }) + (if v6 { 1int } else { 0 })
            &&& v4 ==> pending@[0].version@ == "IPv4"@ && pending@[0].path@ == config.v4_db->0@
                && pending@[0].file@ == "ip2region_v4.xdb"@
            &&& v6 ==> pending@.last().version@ == "IPv6"@ && pending@.last().path@
                == config.v6_db->0@ && pending@.last().file@ == "ip2region_v6.xdb"@
        }),
{
    let texts = pending_texts(pending@);
    assert(texts.len() == pending@.len());
    if pending@.len() > 0 {
        assert(texts[0] == pending_text(pending@[0]));
        assert(texts.last() == pending_text(pending@.last()));
    }
}

/// A file is fetched from below the base address, with one slash between them.
pub proof fn lemma_one_slash_between(base: Seq<char>, slashes: Seq<char>)
    requires
        base.len() > 0 ==> base.last() != '/',
        forall|i: int| 0 <= i < slashes.len() ==> (#[trigger] slashes[i]) == '/',
    ensures
        without_slashes(base + slashes) == base,
    decreases slashes.len(),
{
    if slashes.len() == 0 {
        assert(base + slashes =~= base);
    } else {
        let rest = slashes.drop_last();
        assert((base + slashes).drop_last() =~= base + rest);
        assert((base + slashes).last() == slashes[slashes.len() - 1]);
        assert forall|i: int| 0 <= i < rest.len() implies (#[trigger] rest[i]) == '/' by {
            assert(rest[i] == slashes[i]);
        }
        lemma_one_slash_between(base, rest);
    }
}

/// A downloaded database is good exactly when it can be opened, is meant for a family of
/// addresses, and answers for one of that family.
pub proof fn lemma_good_databases(
    version: &str,
    opened: Result<(), String>,
    searched: Result<(), String>,
    outcome: Result<(), Problem>,
)
    requires
        call_ensures(validate_downloaded_xdb, (version, opened, searched), outcome),
    ensures
        outcome is Ok <==> opened is Ok && (version@ == "IPv4"@ || version@ == "IPv6"@) && searched
            is Ok,
{
}

/// A database is in use exactly when it has a path and its file is there. A file that is there
/// and cannot be opened is an error.
pub proof fn lemma_databases_in_use(
    config: Ip2RegionConfig,
    v4: DatabaseFile,
    v6: DatabaseFile,
    outcome: Result<Ip2Region, Problem>,
)
    requires
        call_ensures(Ip2Region::open, (&config, &v4, &v6), outcome),
    ensures
        ({
            let v4_there = v4 is Some && config.v4_db is Some && config.v4_db->0@.len() > 0;
            let v6_there = v6 is Some && config.v6_db is Some && config.v6_db->0@.len() > 0;
            &&& outcome is Err <==> (v4_there && v4->0 is Err) || (v6_there && v6->0 is Err)
            &&& outcome is Ok ==> {
                let databases = outcome->Ok_0;
                &&& databases.v4 is Some <==> v4_there
                &&& databases.v6 is Some <==> v6_there
                &&& v4_there ==> databases.v4->0@ == config.v4_db->0@
                &&& v6_there ==> databases.v6->0@ == config.v6_db->0@
            }
        }),
{
}

} // verus!

//! Address blocks, the lists that name them, and sets of them.
use crate::address::{self, IpAddr};
use crate::problem::{self, Problem, Report};
use crate::text::{self, cat2, cat5, is_whitespace, parse_u8, split, to_chars, unsigned_to_text};
use crate::trie::{self, IpTrie};
use vstd::arithmetic::power2::pow2;
use vstd::prelude::*;
use vstd::string::*;

verus! {

/// A block of addresses: those that agree with `network` in the first `prefix` bits.
#[allow(inconsistent_fields)]
#[derive(Debug, Clone, Copy, PartialEq, Eq, Structural)]
pub enum IpNetwork {
    V4 { network: u32, prefix: u8 },
    V6 { network: u128, prefix: u8 },
}

/// The 32-bit number whose first `prefix` bits are set.
pub open spec fn mask_v4(prefix: u8) -> u32 {
    if prefix == 0 {
        0
    } else {
        u32::MAX << ((32 - prefix) as u32)
    }
}

/// The 128-bit number whose first `prefix` bits are set.
pub open spec fn mask_v6(prefix: u8) -> u128 {
    if prefix == 0 {
        0
    } else {
        u128::MAX << ((128 - prefix) as u128)
    }
}

impl IpNetwork {
    /// Whether the prefix is no longer than the address.
    pub open spec fn wf(self) -> bool {
        match self {
            IpNetwork::V4 { network, prefix } => prefix <= 32,
            IpNetwork::V6 { network, prefix } => prefix <= 128,
        }
    }

    /// Whether an address belongs to the block.
    pub open spec fn covers(self, ip: IpAddr) -> bool {
        match (self, ip) {
            (IpNetwork::V4 { network, prefix }, IpAddr::V4(address)) => address & mask_v4(prefix)
                == network & mask_v4(prefix),
            (IpNetwork::V6 { network, prefix }, IpAddr::V6(address)) => address & mask_v6(prefix)
                == network & mask_v6(prefix),
            _ => false,
        }
    }

    /// The bits that the addresses of the block have in common.
    pub open spec fn key(self) -> Seq<bool> {
        match self {
            IpNetwork::V4 { network, prefix } => trie::bits(network as u128, 32).take(prefix as int),
            IpNetwork::V6 { network, prefix } => trie::bits(network, 128).take(prefix as int),
        }
    }

    /// The block that holds one address only.
    pub fn from_ip(ip: IpAddr) -> (network: Self)
        ensures
            network == single(ip),
            network.wf(),
    {
        match ip {
            IpAddr::V4(address) => IpNetwork::V4 { network: address, prefix: 32 },
            IpAddr::V6(address) => IpNetwork::V6 { network: address, prefix: 128 },
        }
    }
}

/// The block that holds one address only.
pub open spec fn single(ip: IpAddr) -> IpNetwork {
    match ip {
        IpAddr::V4(address) => IpNetwork::V4 { network: address, prefix: 32 },
        IpAddr::V6(address) => IpNetwork::V6 { network: address, prefix: 128 },
    }
}

/// A block made from a single address holds that address and no other.
pub proof fn lemma_single_covers_only_itself(ip: IpAddr, other: IpAddr)
    ensures
        single(ip).covers(other) <==> other == ip,
{
    match (ip, other) {
        (IpAddr::V4(a), IpAddr::V4(b)) => {
            assert(b & (u32::MAX << 0u32) == a & (u32::MAX << 0u32) <==> a == b) by (bit_vector);
        },
        (IpAddr::V6(a), IpAddr::V6(b)) => {
            assert(b & (u128::MAX << 0u128) == a & (u128::MAX << 0u128) <==> a == b)
                by (bit_vector);
        },
        _ => {},
    }
}

/// A block with an empty prefix holds every address of its family.
pub proof fn lemma_empty_prefix_covers_family(network: u32, wide: u128, a: u32, b: u128)
    ensures
        (IpNetwork::V4 { network, prefix: 0 }).covers(IpAddr::V4(a)),
        (IpNetwork::V6 { network: wide, prefix: 0 }).covers(IpAddr::V6(b)),
        !(IpNetwork::V4 { network, prefix: 0 }).covers(IpAddr::V6(b)),
        !(IpNetwork::V6 { network: wide, prefix: 0 }).covers(IpAddr::V4(a)),
{
    assert(a & 0u32 == network & 0u32) by (bit_vector);
    assert(b & 0u128 == wide & 0u128) by (bit_vector);
}

/// The block that a text names (an address, or an address, a slash and a prefix length),
/// or what is wrong with it.
pub open spec fn network_of(text: Seq<char>) -> Result<IpNetwork, Report> {
    let parts = text::pieces(text, '/');
    match address::address_value(parts[0]) {
        None => Err(
            Report {
                message: "invalid IP address in "@ + text,
                cause: Some("invalid IP address syntax"@),
            },
        ),
        Some(ip) => {
            let prefix = if parts.len() > 1 {
                text::unsigned_value(parts[1], 256)
            } else {
                match ip {
                    IpAddr::V4(_) => Some(32nat),
                    IpAddr::V6(_) => Some(128nat),
                }
            };
            match prefix {
                None => Err(
                    Report {
                        message: "invalid prefix in "@ + text,
                        cause: Some(text::number_fault(parts[1], 256)),
                    },
                ),
                Some(prefix) => if parts.len() > 2 {
                    Err(problem::plain("too many '/' separators in "@ + text))
                } else {
                    block_of(ip, prefix as u8, text)
                },
            }
        },
    }
}

/// The block of the addresses that agree with `ip` in the first `prefix` bits.
pub open spec fn block_of(ip: IpAddr, prefix: u8, text: Seq<char>) -> Result<IpNetwork, Report> {
    match ip {
        IpAddr::V4(address) => if prefix > 32 {
            Err(problem::plain("IPv4 prefix must be between 0 and 32 in "@ + text))
        } else {
            Ok(IpNetwork::V4 { network: address & mask_v4(prefix), prefix })
        },
        IpAddr::V6(address) => if prefix > 128 {
            Err(problem::plain("IPv6 prefix must be between 0 and 128 in "@ + text))
        } else {
            Ok(IpNetwork::V6 { network: address & mask_v6(prefix), prefix })
        },
    }
}

/// Whether an outcome is the one that a specification gives.
pub open spec fn agrees(
    outcome: Result<IpNetwork, Problem>,
    expected: Result<IpNetwork, Report>,
) -> bool {
    match (outcome, expected) {
        (Ok(network), Ok(wanted)) => network == wanted,
        (Err(problem), Err(wanted)) => problem@ == wanted,
        _ => false,
    }
}

fn block(ip: IpAddr, prefix: u8, value: &str) -> (outcome: Result<IpNetwork, Problem>)
    ensures
        agrees(outcome, block_of(ip, prefix, value@)),
        outcome matches Ok(network) ==> network.wf(),
{
    match ip {
        IpAddr::V4(address) => {
            if prefix > 32 {
                return Err(Problem::new(cat2("IPv4 prefix must be between 0 and 32 in ", value)));
            }
            let mask: u32 = if prefix == 0 {
                0
            } else {
                u32::MAX << (32 - prefix as u32)
            };
            Ok(IpNetwork::V4 { network: address & mask, prefix })
        },
        IpAddr::V6(address) => {
            if prefix > 128 {
                return Err(Problem::new(cat2("IPv6 prefix must be between 0 and 128 in ", value)));
            }
            let mask: u128 = if prefix == 0 {
                0
            } else {
                u128::MAX << (128 - prefix as u128)
            };
            Ok(IpNetwork::V6 { network: address & mask, prefix })
        },
    }
}

/// Reads an address block.
pub fn parse_network(value: &str) -> (outcome: Result<IpNetwork, Problem>)
    ensures
        agrees(outcome, network_of(value@)),
        outcome matches Ok(network) ==> network.wf(),
{
    let parts = split(value, '/');
    let ip = match IpAddr::parse(parts[0].as_str()) {
        Some(ip) => ip,
        None => {
            return Err(
                Problem::caused_by(
                    cat2("invalid IP address in ", value),
                    "invalid IP address syntax".to_owned(),
                ),
            );
        },
    };
    let prefix: u8 = if parts.len() > 1 {
        match parse_u8(parts[1].as_str()) {
            Ok(prefix) => prefix,
            Err(words) => {
                return Err(
                    Problem::caused_by(cat2("invalid prefix in ", value), words.to_owned()),
                );
            },
        }
    } else {
        match ip {
            IpAddr::V4(_) => 32,
            IpAddr::V6(_) => 128,
        }
    };
    if parts.len() > 2 {
        return Err(Problem::new(cat2("too many '/' separators in ", value)));
    }
    block(ip, prefix, value)
}

/// An address belongs to the block that its own text names, with any prefix length.
pub proof fn lemma_block_covers_its_address(ip: IpAddr, prefix: u8, text: Seq<char>)
    ensures
        block_of(ip, prefix, text) matches Ok(network) ==> network.covers(ip),
{
    match ip {
        IpAddr::V4(a) => {
            let m = mask_v4(prefix);
            assert(a & m == (a & m) & m) by (bit_vector);
        },
        IpAddr::V6(a) => {
            let m = mask_v6(prefix);
            assert(a & m == (a & m) & m) by (bit_vector);
        },
    }
}

/// How the entries of a list are written.
#[derive(Debug, Clone, Copy, PartialEq, Eq, Structural)]
pub enum ListFormat {
    /// Single addresses.
    Ip,
    /// Addresses or blocks.
    Network,
}

/// The characters up to the first whitespace.
pub open spec fn leading_word(text: Seq<char>) -> Seq<char>
    decreases text.len(),
{
    if text.len() > 0 && !text::is_space(text[0]) {
        seq![text[0]] + leading_word(text.skip(1))
    } else {
        Seq::empty()
    }
}

/// The entry that a line of a list holds: its first word, where `#` starts a comment.
pub open spec fn token_of(line: Seq<char>) -> Seq<char> {
    leading_word(text::trim_start(text::pieces(line, '#')[0]))
}

/// The entry that a line of a list holds.
pub fn list_token(line: &str) -> (token: String)
    ensures
        token@ == token_of(line@),
{
    let parts = split(line, '#');
    let ghost before = text::pieces(line@, '#')[0];
    let chars = to_chars(parts[0].as_str());
    let mut from: usize = 0;
    assert(before.skip(0) == before);
    while from < chars.len() && is_whitespace(chars[from])
        invariant
            chars@ == before,
            from <= chars.len(),
            text::trim_start(before) == text::trim_start(before.skip(from as int)),
        decreases chars.len() - from,
    {
        assert(before.skip(from as int).skip(1) == before.skip(from + 1));
        from += 1;
    }
    let mut token = String::new();
    let mut i: usize = from;
    while i < chars.len() && !is_whitespace(chars[i])
        invariant
            chars@ == before,
            from <= i <= chars.len(),
            leading_word(before.skip(from as int)) == token@ + leading_word(before.skip(i as int)),
        decreases chars.len() - i,
    {
        let ghost rest = before.skip(i as int);
        assert(rest.skip(1) == before.skip(i + 1));
        token.push(chars[i]);
        i += 1;
    }
    token
}

/// What one entry of a list names.
pub open spec fn entry_of(token: Seq<char>, format: ListFormat) -> Result<IpNetwork, Report> {
    match format {
        ListFormat::Network => network_of(token),
        ListFormat::Ip => match address::address_value(token) {
            Some(ip) => Ok(single(ip)),
            None => Err(problem::plain("invalid IP address syntax"@)),
        },
    }
}

fn parse_entry(token: &str, format: ListFormat) -> (outcome: Result<IpNetwork, Problem>)
    ensures
        agrees(outcome, entry_of(token@, format)),
        outcome matches Ok(network) ==> network.wf(),
{
    match format {
        ListFormat::Network => parse_network(token),
        ListFormat::Ip => match IpAddr::parse(token) {
            Some(ip) => Ok(IpNetwork::from_ip(ip)),
            None => Err(Problem::new("invalid IP address syntax".to_owned())),
        },
    }
}

/// The report on an entry that could not be read.
pub open spec fn bad_entry(
    kind: Seq<char>,
    path: Seq<char>,
    line: nat,
    token: Seq<char>,
    cause: Report,
) -> Report {
    problem::inside(
        "invalid "@ + kind + " entry at "@ + path + ":"@ + (text::decimal(line) + ": "@ + token),
        cause,
    )
}

/// The blocks that the lines of a list name, or the report on its first bad entry.
pub open spec fn list_of(
    lines: Seq<Seq<char>>,
    path: Seq<char>,
    kind: Seq<char>,
    format: ListFormat,
) -> Result<Seq<IpNetwork>, Report>
    decreases lines.len(),
{
    if lines.len() == 0 {
        Ok(Seq::empty())
    } else {
        match list_of(lines.drop_last(), path, kind, format) {
            Err(report) => Err(report),
            Ok(networks) => {
                let token = token_of(lines.last());
                if token.len() == 0 {
                    Ok(networks)
                } else {
                    match entry_of(token, format) {
                        Ok(network) => Ok(networks.push(network)),
                        Err(cause) => Err(bad_entry(kind, path, lines.len(), token, cause)),
                    }
                }
            },
        }
    }
}

/// Whether reading a list came out as specified.
pub open spec fn list_agrees(
    outcome: Result<Vec<IpNetwork>, Problem>,
    expected: Result<Seq<IpNetwork>, Report>,
) -> bool {
    match (outcome, expected) {
        (Ok(networks), Ok(wanted)) => networks@ == wanted,
        (Err(problem), Err(wanted)) => problem@ == wanted,
        _ => false,
    }
}

pub open spec fn all_wf(networks: Seq<IpNetwork>) -> bool {
    forall|i: int| 0 <= i < networks.len() ==> (#[trigger] networks[i]).wf()
}

proof fn lemma_list_failure_is_final(
    lines: Seq<Seq<char>>,
    n: int,
    path: Seq<char>,
    kind: Seq<char>,
    format: ListFormat,
)
    requires
        0 <= n <= lines.len(),
        list_of(lines.take(n), path, kind, format) is Err,
    ensures
        list_of(lines, path, kind, format) == list_of(lines.take(n), path, kind, format),
    decreases lines.len() - n,
{
    if n < lines.len() {
        assert(lines.take(n + 1).drop_last() == lines.take(n));
        lemma_list_failure_is_final(lines, n + 1, path, kind, format);
    } else {
        assert(lines.take(n) == lines);
    }
}

/// Reads a list, one entry per line.
pub fn parse_list(source: &str, path: &str, kind: &str, format: ListFormat) -> (outcome: Result<
    Vec<IpNetwork>,
    Problem,
>)
    ensures
        list_agrees(outcome, list_of(text::pieces(source@, '\n'), path@, kind@, format)),
        outcome matches Ok(networks) ==> all_wf(networks@),
{
    let lines = split(source, '\n');
    let ghost all = text::pieces(source@, '\n');
    let mut networks: Vec<IpNetwork> = Vec::new();
    let mut i: usize = 0;
    while i < lines.len()
        invariant
            i <= lines.len(),
            text::texts(lines@) == all,
            all_wf(networks@),
            list_of(all.take(i as int), path@, kind@, format) == Ok::<Seq<IpNetwork>, Report>(
                networks@,
            ),
            all == text::pieces(source@, '\n'),
        decreases lines.len() - i,
    {
        assert(all.take(i + 1).drop_last() == all.take(i as int));
        let token = list_token(lines[i].as_str());
        if !token.as_str().is_empty() {
            match parse_entry(token.as_str(), format) {
                Ok(network) => {
                    networks.push(network);
                },
                Err(cause) => {
                    let number = unsigned_to_text(i as u64 + 1);
                    let mut message = cat5("invalid ", kind, " entry at ", path, ":");
                    let mut tail = number;
                    tail.append(": ");
                    tail.append(token.as_str());
                    message.append(tail.as_str());
                    proof {
                        lemma_list_failure_is_final(all, i + 1, path@, kind@, format);
                    }
                    return Err(cause.within(message));
                },
            }
        }
        i += 1;
    }
    assert(all.take(all.len() as int) == all);
    Ok(networks)
}

/// Reads a list of addresses or blocks, one per line.
pub fn parse_network_lines(source: &str, path: &str, kind: &str) -> (outcome: Result<
    Vec<IpNetwork>,
    Problem,
>)
    ensures
        list_agrees(
            outcome,
            list_of(text::pieces(source@, '\n'), path@, kind@, ListFormat::Network),
        ),
        outcome matches Ok(networks) ==> all_wf(networks@),
{
    parse_list(source, path, kind, ListFormat::Network)
}

/// Reads a list of single addresses, one per line.
pub fn parse_ip_lines(source: &str, path: &str, kind: &str) -> (outcome: Result<
    Vec<IpNetwork>,
    Problem,
>)
    ensures
        list_agrees(outcome, list_of(text::pieces(source@, '\n'), path@, kind@, ListFormat::Ip)),
        outcome matches Ok(networks) ==> all_wf(networks@),
{
    parse_list(source, path, kind, ListFormat::Ip)
}

/// The report on a downloaded list, if it is not fit for use.
pub open spec fn list_problem(
    source: Seq<char>,
    path: Seq<char>,
    kind: Seq<char>,
    format: ListFormat,
) -> Option<Report> {
    match list_of(text::pieces(source, '\n'), path, kind, format) {
        Err(report) => Some(report),
        Ok(networks) => if networks.len() == 0 {
            Some(problem::plain("downloaded "@ + kind + " list "@ + path + " is empty"@))
        } else {
            None
        },
    }
}

/// Checks that a downloaded list can be read and names at least one address.
pub fn validate_list(source: &str, path: &str, kind: &str, format: ListFormat) -> (outcome: Result<
    (),
    Problem,
>)
    ensures
        match outcome {
            Ok(_) => list_problem(source@, path@, kind@, format) is None,
            Err(problem) => list_problem(source@, path@, kind@, format) == Some(problem@),
        },
{
    match parse_list(source, path, kind, format) {
        Err(problem) => Err(problem),
        Ok(networks) => {
            if networks.is_empty() {
                Err(Problem::new(cat5("downloaded ", kind, " list ", path, " is empty")))
            } else {
                Ok(())
            }
        },
    }
}

/// Whether some block of a list holds an address.
pub open spec fn listed(networks: Seq<IpNetwork>, ip: IpAddr) -> bool {
    exists|i: int| 0 <= i < networks.len() && (#[trigger] networks[i]).covers(ip)
}

/// Whether a block of the given family with the given common bits is in a list.
pub open spec fn keyed(networks: Seq<IpNetwork>, wide: bool, key: Seq<bool>) -> bool {
    exists|i: int|
        0 <= i < networks.len() && (#[trigger] networks[i]) is V6 == wide && networks[i].key() == key
}

/// A set of addresses, given by the blocks that it is made of.
pub struct IpSet {
    v4: IpTrie<32>,
    v6: IpTrie<128>,
}

impl IpSet {
    #[verifier::type_invariant]
    closed spec fn inv(self) -> bool {
        &&& self.v4.wf()
        &&& self.v6.wf()
        &&& self.v4.prefixes().len() + self.v6.prefixes().len() <= usize::MAX
    }

    /// Whether the set holds an address.
    pub closed spec fn has(self, ip: IpAddr) -> bool {
        match ip {
            IpAddr::V4(address) => self.v4.covers(address as u128),
            IpAddr::V6(address) => self.v6.covers(address),
        }
    }

    /// The common bits of the blocks that the set is made of, by family.
    pub closed spec fn keys(self, wide: bool) -> Set<Seq<bool>> {
        if wide {
            self.v6.prefixes()
        } else {
            self.v4.prefixes()
        }
    }

    /// How many different blocks the set is made of.
    pub open spec fn count(self) -> nat {
        self.keys(false).len() + self.keys(true).len()
    }

    /// The set of the addresses that the given blocks hold.
    pub fn from_networks(networks: Vec<IpNetwork>) -> (set: Self)
        requires
            all_wf(networks@),
        ensures
            forall|ip: IpAddr| set.has(ip) <==> listed(networks@, ip),
            forall|wide: bool, key: Seq<bool>| #[trigger]
                set.keys(wide).contains(key) <==> keyed(networks@, wide, key),
            set.keys(false).finite() && set.keys(true).finite(),
    {
        let mut v4: IpTrie<32> = IpTrie::new();
        let mut v6: IpTrie<128> = IpTrie::new();
        let mut i: usize = 0;
        let ghost all = networks@;
        while i < networks.len()
            invariant
                i <= networks.len(),
                all == networks@,
                all_wf(all),
                v4.wf(),
                v6.wf(),
                v4.prefixes().finite(),
                v6.prefixes().finite(),
                v4.prefixes().len() + v6.prefixes().len() <= i,
                forall|key: Seq<bool>| #[trigger]
                    v4.prefixes().contains(key) <==> keyed(all.take(i as int), false, key),
                forall|key: Seq<bool>| #[trigger]
                    v6.prefixes().contains(key) <==> keyed(all.take(i as int), true, key),
            decreases networks.len() - i,
        {
            let ghost item = all[i as int];
            match networks[i] {
                IpNetwork::V4 { network, prefix } => {
                    v4.insert(network as u128, prefix);
                },
                IpNetwork::V6 { network, prefix } => {
                    v6.insert(network, prefix);
                },
            }
            i += 1;
            proof {
                let before = all.take(i - 1);
                let after = all.take(i as int);
                assert forall|wide: bool, key: Seq<bool>|
                    keyed(after, wide, key) <==> (keyed(before, wide, key) || (item is V6 == wide
                        && item.key() == key)) by {
                    if item is V6 == wide && item.key() == key {
                        assert(after[before.len() as int] == item);
                    }
                }
            }
        }
        assert(all.take(all.len() as int) == all);
        let set = IpSet { v4, v6 };
        proof {
            assert forall|ip: IpAddr| set.has(ip) <==> listed(all, ip) by {
                lemma_trie_membership(set, all, ip);
            }
        }
        set
    }

    /// Whether the set holds an address.
    pub fn contains(&self, ip: IpAddr) -> (yes: bool)
        ensures
            yes == self.has(ip),
    {
        proof {
            use_type_invariant(self);
        }
        match ip {
            IpAddr::V4(address) => self.v4.contains(address as u128),
            IpAddr::V6(address) => self.v6.contains(address),
        }
    }

    /// Whether the set is made of no block at all.
    pub fn is_empty(&self) -> (yes: bool)
        ensures
            yes == (self.count() == 0),
    {
        proof {
            use_type_invariant(self);
        }
        let four = self.v4.len();
        let six = self.v6.len();
        four == 0 && six == 0
    }

    /// How many different blocks the set is made of.
    pub fn len(&self) -> (count: usize)
        ensures
            count == self.count(),
    {
        proof {
            use_type_invariant(self);
        }
        self.v4.len() + self.v6.len()
    }
}

proof fn lemma_key_matches(network: IpNetwork, ip: IpAddr)
    requires
        network.wf(),
    ensures
        match (network, ip) {
            (IpNetwork::V4 { network: n, prefix }, IpAddr::V4(a)) => network.covers(ip) <==> trie::bits(
                a as u128,
                32,
            ).take(prefix as int) == network.key(),
            (IpNetwork::V6 { network: n, prefix }, IpAddr::V6(a)) => network.covers(ip) <==> trie::bits(
                a,
                128,
            ).take(prefix as int) == network.key(),
            _ => true,
        },
{
    match (network, ip) {
        (IpNetwork::V4 { network: n, prefix }, IpAddr::V4(a)) => {
            if prefix == 0 {
                assert(a & 0u32 == n & 0u32) by (bit_vector);
                assert(trie::bits(a as u128, 32).take(0) == trie::bits(n as u128, 32).take(0));
            } else {
                trie::lemma_equal_prefix_bits(a as u128, n as u128, 32, prefix as int);
                let k = (32 - prefix) as u32;
                let wide = (32 - prefix) as u128;
                assert(a & (u32::MAX << k) == n & (u32::MAX << k) <==> a >> k == n >> k)
                    by (bit_vector)
                    requires
                        k < 32,
                ;
                assert((a as u128) >> wide == (n as u128) >> wide <==> a >> k == n >> k)
                    by (bit_vector)
                    requires
                        k < 32,
                        wide == k,
                ;
            }
        },
        (IpNetwork::V6 { network: n, prefix }, IpAddr::V6(a)) => {
            if prefix == 0 {
                assert(a & 0u128 == n & 0u128) by (bit_vector);
                assert(trie::bits(a, 128).take(0) == trie::bits(n, 128).take(0));
            } else {
                trie::lemma_equal_prefix_bits(a, n, 128, prefix as int);
                let k = (128 - prefix) as u128;
                lemma_masked_equality(a, n, k);
            }
        },
        _ => {},
    }
}

proof fn lemma_masked_equality(a: u128, b: u128, k: u128)
    requires
        k < 128,
    ensures
        a & (u128::MAX << k) == b & (u128::MAX << k) <==> a >> k == b >> k,
{
    let m = u128::MAX << k;
    assert((a & m) >> k == a >> k) by (bit_vector)
        requires
            k < 128,
            m == u128::MAX << k,
    ;
    assert((b & m) >> k == b >> k) by (bit_vector)
        requires
            k < 128,
            m == u128::MAX << k,
    ;
    assert((a >> k) << k == a & m) by (bit_vector)
        requires
            k < 128,
            m == u128::MAX << k,
    ;
    assert((b >> k) << k == b & m) by (bit_vector)
        requires
            k < 128,
            m == u128::MAX << k,
    ;
}

proof fn lemma_trie_membership(set: IpSet, networks: Seq<IpNetwork>, ip: IpAddr)
    requires
        all_wf(networks),
        forall|wide: bool, key: Seq<bool>| #[trigger]
            set.keys(wide).contains(key) <==> keyed(networks, wide, key),
    ensures
        set.has(ip) <==> listed(networks, ip),
{
    let wide = ip is V6;
    let width: int = if wide {
        128
    } else {
        32
    };
    let number = match ip {
        IpAddr::V4(a) => a as u128,
        IpAddr::V6(a) => a,
    };
    let own = trie::bits(number, width);
    if set.has(ip) {
        let n = choose|n: int|
            0 <= n <= width && set.keys(wide).contains(#[trigger] own.take(n));
        let i = choose|i: int|
            0 <= i < networks.len() && (#[trigger] networks[i]) is V6 == wide && networks[i].key()
                == own.take(n);
        assert(networks[i].key().len() == n);
        lemma_key_matches(networks[i], ip);
    }
    if listed(networks, ip) {
        let i = choose|i: int| 0 <= i < networks.len() && (#[trigger] networks[i]).covers(ip);
        lemma_key_matches(networks[i], ip);
        let n = networks[i].key().len() as int;
        assert(set.keys(wide).contains(own.take(n)));
    }
}

/// A block holds the addresses of its own family that lie in the same aligned range: the
/// longer the prefix, the smaller the range, down to the one address.
pub proof fn lemma_block_is_an_aligned_range(block: IpNetwork, ip: IpAddr)
    requires
        block.wf(),
    ensures
        block.covers(ip) <==> match (block, ip) {
            (IpNetwork::V4 { network, prefix }, IpAddr::V4(address)) => address as nat / pow2(
                (32 - prefix) as nat,
            ) == network as nat / pow2((32 - prefix) as nat),
            (IpNetwork::V6 { network, prefix }, IpAddr::V6(address)) => address as nat / pow2(
                (128 - prefix) as nat,
            ) == network as nat / pow2((128 - prefix) as nat),
            _ => false,
        },
{
    match (block, ip) {
        (IpNetwork::V4 { network, prefix }, IpAddr::V4(address)) => {
            if prefix == 0 {
                lemma_empty_prefix_covers_family(network, 0, address, 0);
                vstd::arithmetic::power2::lemma2_to64();
                assert(pow2(32) == 0x1_0000_0000);
                vstd::arithmetic::div_mod::lemma_basic_div(address as int, pow2(32) as int);
                vstd::arithmetic::div_mod::lemma_basic_div(network as int, pow2(32) as int);
            } else {
                let k = (32 - prefix) as u32;
                assert(address & (u32::MAX << k) == network & (u32::MAX << k) <==> address >> k
                    == network >> k) by (bit_vector)
                    requires
                        k < 32,
                ;
                vstd::bits::lemma_u32_shr_is_div(address, k);
                vstd::bits::lemma_u32_shr_is_div(network, k);
            }
        },
        (IpNetwork::V6 { network, prefix }, IpAddr::V6(address)) => {
            if prefix == 0 {
                lemma_empty_prefix_covers_family(0, network, 0, address);
                vstd::arithmetic::power2::lemma2_to64();
                vstd::arithmetic::power2::lemma_pow2_adds(64, 64);
                assert(pow2(128) == 0x1_0000_0000_0000_0000 * 0x1_0000_0000_0000_0000);
                vstd::arithmetic::div_mod::lemma_basic_div(address as int, pow2(128) as int);
                vstd::arithmetic::div_mod::lemma_basic_div(network as int, pow2(128) as int);
            } else {
                let k = (128 - prefix) as u128;
                lemma_masked_equality(address, network, k);
                vstd::bits::lemma_u128_shr_is_div(address, k);
                vstd::bits::lemma_u128_shr_is_div(network, k);
            }
        },
        _ => {},
    }
}

/// A set holds exactly the addresses that lie in one of its blocks: the addresses of the
/// block's family in the same aligned range.
pub proof fn lemma_set_holds_its_blocks(
    networks: Vec<IpNetwork>,
    set: IpSet,
    ip: IpAddr,
    yes: bool,
)
    requires
        all_wf(networks@),
        call_ensures(IpSet::from_networks, (networks,), set),
        call_ensures(IpSet::contains, (&set, ip), yes),
    ensures
        yes <==> exists|i: int|
            0 <= i < networks@.len() && match (#[trigger] networks@[i], ip) {
                (IpNetwork::V4 { network, prefix }, IpAddr::V4(address)) => address as nat / pow2(
                    (32 - prefix) as nat,
                ) == network as nat / pow2((32 - prefix) as nat),
                (IpNetwork::V6 { network, prefix }, IpAddr::V6(address)) => address as nat / pow2(
                    (128 - prefix) as nat,
                ) == network as nat / pow2((128 - prefix) as nat),
                _ => false,
            },
{
    assert(yes == listed(networks@, ip));
    assert forall|i: int| 0 <= i < networks@.len() implies (networks@[i].covers(ip) <==> match (
        #[trigger] networks@[i],
        ip,
    ) {
        (IpNetwork::V4 { network, prefix }, IpAddr::V4(address)) => address as nat / pow2(
            (32 - prefix) as nat,
        ) == network as nat / pow2((32 - prefix) as nat),
        (IpNetwork::V6 { network, prefix }, IpAddr::V6(address)) => address as nat / pow2(
            (128 - prefix) as nat,
        ) == network as nat / pow2((128 - prefix) as nat),
        _ => false,
    }) by {
        assert(networks@[i].wf());
        lemma_block_is_an_aligned_range(networks@[i], ip);
    }
}

/// An address, a slash and a number name the block of the addresses that share that many
/// leading bits with the address, as long as the number is not beyond its length. An address
/// alone names itself.
pub proof fn lemma_text_names_its_block(
    text: &str,
    address_text: Seq<char>,
    prefix_text: Option<Seq<char>>,
    outcome: Result<IpNetwork, Problem>,
    other: IpAddr,
)
    requires
        call_ensures(parse_network, (text,), outcome),
        forall|i: int| 0 <= i < address_text.len() ==> (#[trigger] address_text[i]) != '/',
        prefix_text is Some ==> forall|i: int|
            0 <= i < prefix_text->0.len() ==> (#[trigger] prefix_text->0[i]) != '/',
        text@ == (if prefix_text is Some {
            address_text + seq!['/'] + prefix_text->0
        } else {
            address_text
        }),
    ensures
        address::address_value(address_text) is None ==> outcome is Err,
        prefix_text is Some && text::unsigned_value(prefix_text->0, 256) is None ==> outcome is Err,
        address::address_value(address_text) is Some && (prefix_text is None
            || text::unsigned_value(prefix_text->0, 256) is Some) ==> {
            let ip = address::address_value(address_text)->0;
            let length: nat = if ip is V4 {
                32
            } else {
                128
            };
            let prefix = if prefix_text is Some {
                text::unsigned_value(prefix_text->0, 256)->0
            } else {
                length
            };
            &&& outcome is Ok <==> prefix <= length
            &&& prefix <= length ==> (outcome->Ok_0.covers(other) <==> match (ip, other) {
                (IpAddr::V4(a), IpAddr::V4(b)) => a as nat / pow2((32 - prefix) as nat) == b as nat
                    / pow2((32 - prefix) as nat),
                (IpAddr::V6(a), IpAddr::V6(b)) => a as nat / pow2((128 - prefix) as nat) == b as nat
                    / pow2((128 - prefix) as nat),
                _ => false,
            })
        },
{
    text::lemma_pieces_stand_between_separators(Seq::empty(), address_text, '/');
    if prefix_text is Some {
        text::lemma_pieces_stand_between_separators(address_text, prefix_text->0, '/');
    }
    let parts = text::pieces(text@, '/');
    assert(parts[0] == address_text);
    if outcome is Ok && address::address_value(address_text) is Some {
        let ip = address::address_value(address_text)->0;
        let block = outcome->Ok_0;
        lemma_block_covers_its_address(
            ip,
            match block {
                IpNetwork::V4 { network, prefix } => prefix,
                IpNetwork::V6 { network, prefix } => prefix,
            },
            text@,
        );
        lemma_block_is_an_aligned_range(block, ip);
        lemma_block_is_an_aligned_range(block, other);
    }
}

/// The entry of a line, if it has one.
#[verifier::opaque]
spec fn entry_in(line: Seq<char>, format: ListFormat) -> Option<Result<IpNetwork, Report>> {
    if token_of(line).len() == 0 {
        None
    } else {
        Some(entry_of(token_of(line), format))
    }
}

#[verifier::opaque]
spec fn blocks_in(
    lines: Seq<Seq<char>>,
    path: Seq<char>,
    kind: Seq<char>,
    format: ListFormat,
) -> Option<Seq<IpNetwork>> {
    match list_of(lines, path, kind, format) {
        Ok(blocks) => Some(blocks),
        Err(_) => None,
    }
}

proof fn lemma_one_more_line(
    lines: Seq<Seq<char>>,
    path: Seq<char>,
    kind: Seq<char>,
    format: ListFormat,
)
    requires
        blocks_in(lines, path, kind, format) is Some,
    ensures
        lines.len() == 0 ==> blocks_in(lines, path, kind, format)->0.len() == 0,
        lines.len() > 0 ==> {
            let before = blocks_in(lines.drop_last(), path, kind, format);
            &&& before is Some
            &&& match entry_in(lines.last(), format) {
                None => blocks_in(lines, path, kind, format) == before,
                Some(Ok(block)) => blocks_in(lines, path, kind, format) == Some(
                    before->0.push(block),
                ),
                Some(Err(_)) => false,
            }
        },
{
    reveal(entry_in);
    reveal(blocks_in);
}

proof fn lemma_named_by_a_line(
    lines: Seq<Seq<char>>,
    path: Seq<char>,
    kind: Seq<char>,
    format: ListFormat,
    j: int,
) -> (k: int)
    requires
        blocks_in(lines, path, kind, format) is Some,
        0 <= j < blocks_in(lines, path, kind, format)->0.len(),
    ensures
        0 <= k < lines.len(),
        entry_in(lines[k], format) == Some(
            Ok::<IpNetwork, Report>(blocks_in(lines, path, kind, format)->0[j]),
        ),
    decreases lines.len(),
{
    lemma_one_more_line(lines, path, kind, format);
    if lines.len() == 0 {
        0
    } else {
        let rest = lines.drop_last();
        let before = blocks_in(rest, path, kind, format)->0;
        if j < before.len() {
            let k = lemma_named_by_a_line(rest, path, kind, format, j);
            assert(rest[k] == lines[k]);
            k
        } else {
            lines.len() - 1
        }
    }
}

proof fn lemma_line_is_taken_up(
    lines: Seq<Seq<char>>,
    path: Seq<char>,
    kind: Seq<char>,
    format: ListFormat,
    k: int,
) -> (j: int)
    requires
        blocks_in(lines, path, kind, format) is Some,
        0 <= k < lines.len(),
        entry_in(lines[k], format) is Some,
    ensures
        entry_in(lines[k], format)->0 is Ok,
        0 <= j < blocks_in(lines, path, kind, format)->0.len(),
        blocks_in(lines, path, kind, format)->0[j] == entry_in(lines[k], format)->0->Ok_0,
    decreases lines.len(),
{
    lemma_one_more_line(lines, path, kind, format);
    let rest = lines.drop_last();
    let before = blocks_in(rest, path, kind, format)->0;
    if k < rest.len() {
        assert(rest[k] == lines[k]);
        lemma_line_is_taken_up(rest, path, kind, format, k)
    } else {
        before.len() as int
    }
}

pub(crate) proof fn lemma_list_entries(
    lines: Seq<Seq<char>>,
    path: Seq<char>,
    kind: Seq<char>,
    format: ListFormat,
    block: IpNetwork,
)
    requires
        list_of(lines, path, kind, format) is Ok,
    ensures
        list_of(lines, path, kind, format)->Ok_0.contains(block) <==> exists|k: int|
            0 <= k < lines.len() && token_of(#[trigger] lines[k]).len() > 0 && entry_of(
                token_of(lines[k]),
                format,
            ) == Ok::<IpNetwork, Report>(block),
        forall|k: int|
            0 <= k < lines.len() && token_of(#[trigger] lines[k]).len() > 0 ==> entry_of(
                token_of(lines[k]),
                format,
            ) is Ok,
{
    let all = list_of(lines, path, kind, format)->Ok_0;
    assert(blocks_in(lines, path, kind, format) == Some(all)) by {
        reveal(blocks_in);
    }
    assert forall|k: int| 0 <= k < lines.len() implies entry_in(#[trigger] lines[k], format)
        == if token_of(lines[k]).len() == 0 {
        None
    } else {
        Some(entry_of(token_of(lines[k]), format))
    } by {
        reveal(entry_in);
    }
    if all.contains(block) {
        let k = lemma_named_by_a_line(lines, path, kind, format, all.index_of(block));
        assert(token_of(lines[k]).len() > 0);
    }
    assert forall|k: int|
        0 <= k < lines.len() && token_of(#[trigger] lines[k]).len() > 0 implies entry_of(
        token_of(lines[k]),
        format,
    ) is Ok && all.contains(entry_of(token_of(lines[k]), format)->Ok_0) by {
        let j = lemma_line_is_taken_up(lines, path, kind, format, k);
        assert(all[j] == entry_of(token_of(lines[k]), format)->Ok_0);
    }
}

/// A list that can be read holds exactly the blocks that the entries of its lines name, and
/// every line with an entry names one.
pub proof fn lemma_list_holds_what_its_lines_name(
    source: &str,
    path: &str,
    kind: &str,
    networks: Vec<IpNetwork>,
    block: IpNetwork,
)
    requires
        call_ensures(
            parse_network_lines,
            (source, path, kind),
            Ok::<Vec<IpNetwork>, Problem>(networks),
        ),
    ensures
        networks@.contains(block) <==> exists|k: int|
            0 <= k < text::pieces(source@, '\n').len() && token_of(
                #[trigger] text::pieces(source@, '\n')[k],
            ).len() > 0 && network_of(token_of(text::pieces(source@, '\n')[k])) == Ok::<
                IpNetwork,
                Report,
            >(block),
        forall|k: int|
            0 <= k < text::pieces(source@, '\n').len() && token_of(
                #[trigger] text::pieces(source@, '\n')[k],
            ).len() > 0 ==> network_of(token_of(text::pieces(source@, '\n')[k])) is Ok,
{
    lemma_list_entries(text::pieces(source@, '\n'), path@, kind@, ListFormat::Network, block);
}

proof fn lemma_first_bad_line(
    lines: Seq<Seq<char>>,
    path: Seq<char>,
    kind: Seq<char>,
    format: ListFormat,
    k: int,
)
    requires
        0 <= k < lines.len(),
        token_of(lines[k]).len() > 0,
        entry_of(token_of(lines[k]), format) is Err,
        forall|j: int|
            0 <= j < k ==> token_of(#[trigger] lines[j]).len() == 0 || entry_of(
                token_of(lines[j]),
                format,
            ) is Ok,
    ensures
        list_of(lines, path, kind, format) == Err::<Seq<IpNetwork>, Report>(
            bad_entry(
                kind,
                path,
                (k + 1) as nat,
                token_of(lines[k]),
                entry_of(token_of(lines[k]), format)->Err_0,
            ),
        ),
{
    let upto = lines.take(k);
    lemma_good_lines(upto, path, kind, format);
    assert(lines.take(k + 1).drop_last() =~= upto);
    assert(lines.take(k + 1).last() == lines[k]);
    lemma_list_failure_is_final(lines, k + 1, path, kind, format);
}

proof fn lemma_good_lines(
    lines: Seq<Seq<char>>,
    path: Seq<char>,
    kind: Seq<char>,
    format: ListFormat,
)
    requires
        forall|j: int|
            0 <= j < lines.len() ==> token_of(#[trigger] lines[j]).len() == 0 || entry_of(
                token_of(lines[j]),
                format,
            ) is Ok,
    ensures
        list_of(lines, path, kind, format) is Ok,
    decreases lines.len(),
{
    if lines.len() > 0 {
        let rest = lines.drop_last();
        assert forall|j: int| 0 <= j < rest.len() implies token_of(#[trigger] rest[j]).len() == 0
            || entry_of(token_of(rest[j]), format) is Ok by {
            assert(rest[j] == lines[j]);
        }
        lemma_good_lines(rest, path, kind, format);
        assert(lines[lines.len() - 1] == lines.last());
    }
}

/// A list with a bad entry is refused, with the number of the first line that has one, counted
/// from one, the file, the kind of the list and the entry.
pub proof fn lemma_first_bad_line_is_reported(
    source: &str,
    path: &str,
    kind: &str,
    outcome: Result<Vec<IpNetwork>, Problem>,
    k: int,
)
    requires
        call_ensures(parse_network_lines, (source, path, kind), outcome),
        0 <= k < text::pieces(source@, '\n').len(),
        token_of(text::pieces(source@, '\n')[k]).len() > 0,
        network_of(token_of(text::pieces(source@, '\n')[k])) is Err,
        forall|j: int|
            0 <= j < k ==> token_of(#[trigger] text::pieces(source@, '\n')[j]).len() == 0
                || network_of(token_of(text::pieces(source@, '\n')[j])) is Ok,
    ensures
        outcome is Err,
        outcome->Err_0.message@ == "invalid "@ + kind@ + " entry at "@ + path@ + ":"@ + (
        text::decimal((k + 1) as nat) + ": "@ + token_of(text::pieces(source@, '\n')[k])),
{
    lemma_first_bad_line(text::pieces(source@, '\n'), path@, kind@, ListFormat::Network, k);
}

proof fn lemma_leading_word(text: Seq<char>) -> (rest: Seq<char>)
    ensures
        text == leading_word(text) + rest,
        rest.len() > 0 ==> text::is_space(rest[0]),
        forall|i: int|
            0 <= i < leading_word(text).len() ==> !text::is_space(#[trigger] leading_word(text)[i]),
    decreases text.len(),
{
    if text.len() > 0 && !text::is_space(text[0]) {
        let rest = lemma_leading_word(text.skip(1));
        assert(text =~= seq![text[0]] + text.skip(1));
        assert(text =~= leading_word(text) + rest);
        assert forall|i: int| 0 <= i < leading_word(text).len() implies !text::is_space(
            #[trigger] leading_word(text)[i],
        ) by {
            if i > 0 {
                assert(leading_word(text)[i] == leading_word(text.skip(1))[i - 1]);
            }
        }
        rest
    } else {
        assert(text =~= leading_word(text) + text);
        text
    }
}

/// The entry of a line is the word that the line begins with once white space is passed over,
/// where a `#` and all that follows it do not belong to the line.
pub proof fn lemma_entry_is_the_first_word(
    line: &str,
    content: Seq<char>,
    comment: Option<Seq<char>>,
    token: String,
) -> (around: (Seq<char>, Seq<char>))
    requires
        call_ensures(list_token, (line,), token),
        forall|i: int| 0 <= i < content.len() ==> (#[trigger] content[i]) != '#',
        line@ == (if comment is Some {
            content + seq!['#'] + comment->0
        } else {
            content
        }),
    ensures
        content == around.0 + token@ + around.1,
        text::is_blank(around.0),
        forall|i: int| 0 <= i < token@.len() ==> !text::is_space(#[trigger] token@[i]),
        around.1.len() > 0 ==> text::is_space(around.1[0]),
        token@.len() == 0 ==> text::is_blank(content),
{
    lemma_first_piece(content, comment);
    let start = text::trim_start(content);
    let lead = text::lemma_leading_space(content);
    let rest = lemma_leading_word(start);
    assert(content =~= lead + token@ + rest);
    if token@.len() == 0 && start.len() > 0 {
        assert(rest =~= start);
    }
    if token@.len() == 0 {
        assert(start.len() == 0);
        assert(content =~= lead);
    }
    (lead, rest)
}

proof fn lemma_first_piece(content: Seq<char>, comment: Option<Seq<char>>)
    requires
        forall|i: int| 0 <= i < content.len() ==> (#[trigger] content[i]) != '#',
    ensures
        text::pieces(content, '#')[0] == content,
        comment is Some ==> text::pieces(content + seq!['#'] + comment->0, '#')[0] == content,
    decreases comment->0.len(),
{
    text::lemma_pieces_stand_between_separators(Seq::empty(), content, '#');
    if comment is Some {
        let tail = comment->0;
        let whole = content + seq!['#'] + tail;
        if tail.len() == 0 {
            assert(whole.drop_last() =~= content);
            assert(text::pieces(whole, '#') == text::pieces(content, '#').push(Seq::empty()));
        } else {
            lemma_first_piece(content, Some(tail.drop_last()));
            assert(whole.drop_last() =~= content + seq!['#'] + tail.drop_last());
            text::lemma_more_pieces(content, tail.drop_last(), '#');
        }
    }
}

/// A list of single addresses that can be read holds exactly the addresses that its lines
/// name, one by one.
pub proof fn lemma_list_of_addresses(
    source: &str,
    path: &str,
    kind: &str,
    networks: Vec<IpNetwork>,
    block: IpNetwork,
)
    requires
        call_ensures(parse_ip_lines, (source, path, kind), Ok::<Vec<IpNetwork>, Problem>(networks)),
    ensures
        networks@.contains(block) <==> exists|k: int|
            0 <= k < text::pieces(source@, '\n').len() && token_of(
                #[trigger] text::pieces(source@, '\n')[k],
            ).len() > 0 && match address::address_value(
                token_of(text::pieces(source@, '\n')[k]),
            ) {
                Some(IpAddr::V4(number)) => block == (IpNetwork::V4 { network: number, prefix: 32 }),
                Some(IpAddr::V6(number)) => block == (IpNetwork::V6 { network: number, prefix: 128 }),
                None => false,
            },
{
    let lines = text::pieces(source@, '\n');
    lemma_list_entries(lines, path@, kind@, ListFormat::Ip, block);
    assert forall|k: int| 0 <= k < lines.len() implies ((entry_of(
        token_of(#[trigger] lines[k]),
        ListFormat::Ip,
    ) == Ok::<IpNetwork, Report>(block)) <==> match address::address_value(token_of(lines[k])) {
        Some(IpAddr::V4(number)) => block == (IpNetwork::V4 { network: number, prefix: 32 }),
        Some(IpAddr::V6(number)) => block == (IpNetwork::V6 { network: number, prefix: 128 }),
        None => false,
    }) by {}
}

/// A downloaded list is good exactly when it can be read and names at least one block.
pub proof fn lemma_good_lists(
    source: &str,
    path: &str,
    kind: &str,
    read: Result<Vec<IpNetwork>, Problem>,
    outcome: Result<(), Problem>,
)
    requires
        call_ensures(parse_network_lines, (source, path, kind), read),
        call_ensures(validate_list, (source, path, kind, ListFormat::Network), outcome),
    ensures
        outcome is Ok <==> read is Ok && read->Ok_0@.len() > 0,
{
}

/// A downloaded list of single addresses is good exactly when it can be read as such and names
/// at least one.
pub proof fn lemma_good_lists_of_addresses(
    source: &str,
    path: &str,
    kind: &str,
    read: Result<Vec<IpNetwork>, Problem>,
    outcome: Result<(), Problem>,
)
    requires
        call_ensures(parse_ip_lines, (source, path, kind), read),
        call_ensures(validate_list, (source, path, kind, ListFormat::Ip), outcome),
    ensures
        outcome is Ok <==> read is Ok && read->Ok_0@.len() > 0,
{
}

} // verus!

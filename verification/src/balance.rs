//! How a group of hosts shares out the players.
use crate::text::{self, char_to_lowercase, is_whitespace, same_text, to_chars};
use std::collections::hash_map::DefaultHasher;
use std::hash::{Hash, Hasher};
use vstd::prelude::*;
use vstd::std_specs::hash::DefaultHasherAdditionalSpecFns;
use vstd::string::*;

verus! {

/// How a group picks one of its hosts.
#[derive(Debug, Clone, Copy, PartialEq, Eq, Structural)]
pub enum GroupMode {
    RoundRobin,
    Random,
    IpHash,
}

/// The name of a mode without spaces, `_` and `-`, in lower case.
pub open spec fn mode_text(mode: Seq<char>) -> Seq<char>
    decreases mode.len(),
{
    if mode.len() == 0 {
        Seq::empty()
    } else {
        let c = mode.last();
        let rest = mode_text(mode.drop_last());
        if text::is_space(c) || c == '_' || c == '-' {
            rest
        } else {
            rest + text::lowercase_char(c)
        }
    }
}

/// The mode that a name stands for.
pub open spec fn mode_of(mode: Seq<char>) -> Option<GroupMode> {
    let name = mode_text(mode);
    if name == "roundrobin"@ || name == "loadbalance"@ || name == "loadblance"@ {
        Some(GroupMode::RoundRobin)
    } else if name == "random"@ {
        Some(GroupMode::Random)
    } else if name == "iphash"@ || name == "hash"@ || name == "consistenthash"@ {
        Some(GroupMode::IpHash)
    } else {
        None
    }
}

fn normalized_mode(mode: &str) -> (name: String)
    ensures
        name@ == mode_text(mode@),
{
    let chars = to_chars(mode);
    let mut name: Vec<char> = Vec::new();
    let mut i: usize = 0;
    while i < chars.len()
        invariant
            i <= chars.len(),
            chars@ == mode@,
            name@ == mode_text(mode@.take(i as int)),
        decreases chars.len() - i,
    {
        let c = chars[i];
        assert(mode@.take(i + 1).drop_last() == mode@.take(i as int));
        if !is_whitespace(c) && c != '_' && c != '-' {
            let mut lower = char_to_lowercase(c);
            name.append(&mut lower);
        }
        i += 1;
    }
    assert(mode@.take(mode@.len() as int) == mode@);
    crate::text::from_chars(&name, 0, name.len())
}

/// The mode that a name stands for.
pub fn parse_group_mode(mode: &str) -> (parsed: Option<GroupMode>)
    ensures
        parsed == mode_of(mode@),
{
    let name = normalized_mode(mode);
    let name = name.as_str();
    if same_text(name, "roundrobin") || same_text(name, "loadbalance") || same_text(
        name,
        "loadblance",
    ) {
        Some(GroupMode::RoundRobin)
    } else if same_text(name, "random") {
        Some(GroupMode::Random)
    } else if same_text(name, "iphash") || same_text(name, "hash") || same_text(
        name,
        "consistenthash",
    ) {
        Some(GroupMode::IpHash)
    } else {
        None
    }
}

/// The number that the pseudo-random choice makes of the number of a player.
pub open spec fn scrambled(sequence: u64) -> u64 {
    let a = sequence.wrapping_mul(6_364_136_223_846_793_005u64).wrapping_add(
        1_442_695_040_888_963_407u64,
    );
    let b = a ^ (a >> 33u64);
    let c = b.wrapping_mul(1_099_511_628_211u64);
    c ^ (c >> 29u64)
}

/// The place among `length` places that the pseudo-random choice takes.
pub fn pseudo_random_index(sequence: usize, length: usize) -> (index: usize)
    requires
        length > 0,
    ensures
        index == (scrambled(sequence as u64) as usize) % length,
        index < length,
{
    let mut value: u64 = (sequence as u64).wrapping_mul(6_364_136_223_846_793_005u64).wrapping_add(
        1_442_695_040_888_963_407u64,
    );
    value = value ^ (value >> 33u64);
    value = value.wrapping_mul(1_099_511_628_211u64);
    value = value ^ (value >> 29u64);
    (value as usize) % length
}

/// What a hasher has been fed once a text has been hashed into it.
pub uninterp spec fn fed_with(before: Seq<Seq<u8>>, key: Seq<char>) -> Seq<Seq<u8>>;

/// Calls `Hash::hash` of `str` with the hasher of the standard library. What the hasher has
/// been fed afterwards depends on what it had been fed before and on the text alone; it is
/// named `fed_with`.
#[verifier::external_body]
fn hash_text(key: &str, hasher: &mut DefaultHasher)
    ensures
        final(hasher)@ == fed_with(old(hasher)@, key@),
{
    key.hash(hasher)
}

/// The hash of a balance key.
pub open spec fn key_hash(key: Seq<char>) -> u64 {
    DefaultHasher::spec_finish(fed_with(Seq::empty(), key))
}

fn hashed(key: &str) -> (hash: u64)
    ensures
        hash == key_hash(key@),
{
    let mut hasher = DefaultHasher::new();
    hash_text(key, &mut hasher);
    hasher.finish()
}

/// The place among `length` places that a mode picks for the player with the given number
/// and balance key.
pub open spec fn place_for(mode: GroupMode, sequence: usize, hash: u64, length: nat) -> int {
    match mode {
        GroupMode::RoundRobin => sequence as int % length as int,
        GroupMode::Random => (scrambled(sequence as u64) as usize) as int % length as int,
        GroupMode::IpHash => (hash as usize) as int % length as int,
    }
}

/// Picks a place for a player, given the player's number and the hash of the balance key.
pub fn pick_place(mode: GroupMode, sequence: usize, hash: u64, length: usize) -> (index: usize)
    requires
        length > 0,
    ensures
        index == place_for(mode, sequence, hash, length as nat),
        index < length,
{
    match mode {
        GroupMode::RoundRobin => sequence % length,
        GroupMode::Random => pseudo_random_index(sequence, length),
        GroupMode::IpHash => (hash as usize) % length,
    }
}

/// Picks a place for a player, given the player's number and balance key.
pub fn pick_place_for_key(mode: GroupMode, sequence: usize, key: &str, length: usize) -> (index:
    usize)
    requires
        length > 0,
    ensures
        index == place_for(mode, sequence, key_hash(key@), length as nat),
        index < length,
{
    pick_place(mode, sequence, hashed(key), length)
}

/// The round robin goes through the places in order, and starts over after the last.
pub proof fn lemma_round_robin_goes_round(sequence: usize, hash: u64, length: nat)
    requires
        length > 0,
        sequence < usize::MAX,
    ensures
        place_for(GroupMode::RoundRobin, (sequence + 1) as usize, hash, length) == (place_for(
            GroupMode::RoundRobin,
            sequence,
            hash,
            length,
        ) + 1) % length as int,
{
    let s = sequence as int;
    let n = length as int;
    vstd::arithmetic::div_mod::lemma_add_mod_noop_right(1, s, n);
}

/// As long as a group has at least as many players in a row as hosts, the round robin
/// leaves no host out.
pub proof fn lemma_round_robin_reaches_every_place(
    start: usize,
    hash: u64,
    length: nat,
    place: int,
) -> (steps: nat)
    requires
        0 <= place < length,
        start + length <= usize::MAX,
    ensures
        steps < length,
        place_for(GroupMode::RoundRobin, (start + steps) as usize, hash, length) == place,
{
    let s = start as int;
    let n = length as int;
    let r = s % n;
    let steps = if place >= r {
        place - r
    } else {
        place - r + n
    };
    assert(0 <= r < n && s == n * (s / n) + r) by {
        vstd::arithmetic::div_mod::lemma_fundamental_div_mod(s, n);
    }
    assert((s + steps) % n == place) by {
        let q = s / n;
        assert(n * q == q * n && (q + 1) * n == q * n + n) by (nonlinear_arith);
        if place >= r {
            vstd::arithmetic::div_mod::lemma_fundamental_div_mod_converse(s + steps, n, q, place);
        } else {
            vstd::arithmetic::div_mod::lemma_fundamental_div_mod_converse(
                s + steps,
                n,
                q + 1,
                place,
            );
        }
    }
    steps as nat
}

/// The choice by hash depends on the balance key alone: a player with the same key comes to
/// the same place, however many others came in between.
pub proof fn lemma_same_key_same_place(first: usize, second: usize, hash: u64, length: nat)
    ensures
        place_for(GroupMode::IpHash, first, hash, length) == place_for(
            GroupMode::IpHash,
            second,
            hash,
            length,
        ),
{
}

/// In the name of a mode white space, underscores and dashes make no difference, wherever they
/// stand, and the other characters count in lower case.
pub proof fn lemma_separators_in_mode_names(before: Seq<char>, c: char, after: Seq<char>)
    ensures
        mode_text(Seq::<char>::empty()) == Seq::<char>::empty(),
        text::is_space(c) || c == '_' || c == '-' ==> mode_text(before + seq![c] + after)
            == mode_text(before + after),
        !(text::is_space(c) || c == '_' || c == '-') ==> mode_text(before.push(c)) == mode_text(
            before,
        ) + text::lowercase_char(c),
    decreases after.len(),
{
    assert(before.push(c).drop_last() =~= before);
    let whole = before + seq![c] + after;
    if after.len() == 0 {
        assert(whole =~= before.push(c));
        assert(before + after =~= before);
    } else {
        lemma_separators_in_mode_names(before, c, after.drop_last());
        assert(whole.drop_last() =~= before + seq![c] + after.drop_last());
        assert((before + after).drop_last() =~= before + after.drop_last());
        assert(whole.last() == (before + after).last());
    }
}

/// The names of the modes.
pub proof fn lemma_names_of_modes(mode: &str, parsed: Option<GroupMode>)
    requires
        call_ensures(parse_group_mode, (mode,), parsed),
    ensures
        parsed == mode_of(mode@),
        parsed == Some(GroupMode::RoundRobin) <==> mode_text(mode@) == "roundrobin"@ || mode_text(
            mode@,
        ) == "loadbalance"@ || mode_text(mode@) == "loadblance"@,
        parsed == Some(GroupMode::Random) <==> mode_text(mode@) == "random"@,
        parsed == Some(GroupMode::IpHash) <==> mode_text(mode@) == "iphash"@ || mode_text(mode@)
            == "hash"@ || mode_text(mode@) == "consistenthash"@,
{
    reveal_strlit("roundrobin");
    reveal_strlit("loadbalance");
    reveal_strlit("loadblance");
    reveal_strlit("random");
    reveal_strlit("iphash");
    reveal_strlit("hash");
    reveal_strlit("consistenthash");
    assert("roundrobin"@.len() == 10 && "loadbalance"@.len() == 11 && "loadblance"@.len() == 10
        && "random"@.len() == 6 && "iphash"@.len() == 6 && "hash"@.len() == 4
        && "consistenthash"@.len() == 14);
    assert("random"@[0] != "iphash"@[0]);
}

} // verus!

//! How the lists of a routing rule are held against what is known of a connection.
use crate::text::{self, contains, eq_ignore_ascii_case, to_chars, to_lowercase};
use vstd::prelude::*;
use vstd::string::*;

verus! {

/// The value behind the `!` of an entry that excludes a value.
pub open spec fn excluded(entry: Seq<char>) -> Option<Seq<char>> {
    if entry.len() > 1 && entry[0] == '!' {
        Some(entry.skip(1))
    } else {
        None
    }
}

/// The value that an entry of a list of exclusions names, with or without `!`.
pub open spec fn named_value(entry: Seq<char>) -> Seq<char> {
    match excluded(entry) {
        Some(value) => value,
        None => entry,
    }
}

/// A host name without the dots at its end.
pub open spec fn host_form(host: Seq<char>) -> Seq<char>
    decreases host.len(),
{
    if host.len() > 0 && host.last() == '.' {
        host_form(host.drop_last())
    } else {
        host
    }
}

/// How a value is compared with an entry.
#[derive(Debug, Clone, Copy, PartialEq, Eq, Structural)]
pub enum Comparison {
    /// Equal up to the case of ASCII letters.
    Text,
    /// Equal as host names: up to case and to dots at the end.
    Host,
    /// The entry is a part of the value, both in lower case.
    Part,
}

impl Comparison {
    /// Whether a value fits an entry.
    pub open spec fn fits(self, entry: Seq<char>, value: Seq<char>) -> bool {
        match self {
            Comparison::Text => text::same_ignoring_case(entry, value),
            Comparison::Host => text::same_ignoring_case(host_form(entry), host_form(value)),
            Comparison::Part => text::occurs_in(text::lowercase_text(value), text::lowercase_text(entry)),
        }
    }
}

/// Whether a list names any value that is looked for, not only excluded ones.
pub open spec fn asks(wanted: Seq<Seq<char>>) -> bool {
    exists|i: int| 0 <= i < wanted.len() && excluded(#[trigger] wanted[i]) is None
}

/// Whether a value fits one of those that a list looks for.
pub open spec fn welcomed(how: Comparison, wanted: Seq<Seq<char>>, value: Seq<char>) -> bool {
    exists|i: int|
        0 <= i < wanted.len() && excluded(#[trigger] wanted[i]) is None && how.fits(
            wanted[i],
            value,
        )
}

/// Whether a value fits an entry with `!` of a list.
pub open spec fn crossed_out(how: Comparison, wanted: Seq<Seq<char>>, value: Seq<char>) -> bool {
    exists|i: int|
        0 <= i < wanted.len() && excluded(#[trigger] wanted[i]) is Some && how.fits(
            excluded(wanted[i])->0,
            value,
        )
}

/// Whether a value fits an entry of a list of exclusions.
pub open spec fn refused(how: Comparison, unwanted: Seq<Seq<char>>, value: Seq<char>) -> bool {
    exists|i: int|
        0 <= i < unwanted.len() && how.fits(named_value(#[trigger] unwanted[i]), value)
}

/// Whether a value, if there is one, passes a list of wanted and a list of unwanted values.
/// The wanted values are alternatives; an exclusion wins over them.
pub open spec fn passes(
    how: Comparison,
    wanted: Seq<Seq<char>>,
    unwanted: Seq<Seq<char>>,
    value: Option<Seq<char>>,
) -> bool {
    match value {
        None => !asks(wanted),
        Some(value) => {
            &&& asks(wanted) ==> welcomed(how, wanted, value)
            &&& !crossed_out(how, wanted, value)
            &&& !refused(how, unwanted, value)
        },
    }
}

/// The value behind the `!` of an entry that excludes a value.
pub fn bang_negation(entry: &str) -> (value: Option<&str>)
    ensures
        text::str_text(value) == excluded(entry@),
{
    let chars = to_chars(entry);
    if chars.len() > 1 && chars[0] == '!' {
        let value = entry.substring_char(1, chars.len());
        Some(value)
    } else {
        None
    }
}

/// The value that an entry of a list of exclusions names.
pub fn matcher_value(entry: &str) -> (value: &str)
    ensures
        value@ == named_value(entry@),
{
    match bang_negation(entry) {
        Some(value) => value,
        None => entry,
    }
}

proof fn lemma_dots_at_end(host: Seq<char>, n: int)
    requires
        0 <= n <= host.len(),
        forall|i: int| n <= i < host.len() ==> host[i] == '.',
    ensures
        host_form(host) == host_form(host.take(n)),
    decreases host.len() - n,
{
    if n < host.len() {
        assert(host.drop_last().take(n) == host.take(n));
        lemma_dots_at_end(host.drop_last(), n);
    } else {
        assert(host.take(n) == host);
    }
}

/// A host name without the dots at its end.
pub fn normalize_host(host: &str) -> (form: &str)
    ensures
        form@ == host_form(host@),
{
    let chars = to_chars(host);
    let mut n: usize = chars.len();
    while n > 0 && chars[n - 1] == '.'
        invariant
            n <= chars.len(),
            chars@ == host@,
            forall|i: int| n <= i < chars.len() ==> host@[i] == '.',
        decreases n,
    {
        n -= 1;
    }
    proof {
        lemma_dots_at_end(host@, n as int);
    }
    host.substring_char(0, n)
}

/// Whether a value fits an entry.
pub fn fits(how: Comparison, entry: &str, value: &str) -> (yes: bool)
    ensures
        yes == how.fits(entry@, value@),
{
    match how {
        Comparison::Text => eq_ignore_ascii_case(entry, value),
        Comparison::Host => eq_ignore_ascii_case(normalize_host(entry), normalize_host(value)),
        Comparison::Part => contains(to_lowercase(value).as_str(), to_lowercase(entry).as_str()),
    }
}

fn any_wanted(wanted: &Vec<String>) -> (yes: bool)
    ensures
        yes == asks(text::texts(wanted@)),
{
    let ghost all = text::texts(wanted@);
    let mut i: usize = 0;
    while i < wanted.len()
        invariant
            i <= wanted.len(),
            all == text::texts(wanted@),
            forall|k: int| 0 <= k < i ==> excluded(#[trigger] all[k]) is Some,
        decreases wanted.len() - i,
    {
        if bang_negation(wanted[i].as_str()).is_none() {
            assert(excluded(all[i as int]) is None);
            return true;
        }
        i += 1;
    }
    false
}

fn any_welcome(how: Comparison, wanted: &Vec<String>, value: &str) -> (yes: bool)
    ensures
        yes == welcomed(how, text::texts(wanted@), value@),
{
    let ghost all = text::texts(wanted@);
    let mut i: usize = 0;
    while i < wanted.len()
        invariant
            i <= wanted.len(),
            all == text::texts(wanted@),
            forall|k: int|
                0 <= k < i ==> excluded(#[trigger] all[k]) is Some || !how.fits(all[k], value@),
        decreases wanted.len() - i,
    {
        let entry = wanted[i].as_str();
        assert(all[i as int] == entry@);
        if bang_negation(entry).is_none() && fits(how, entry, value) {
            return true;
        }
        i += 1;
    }
    false
}

fn any_crossed_out(how: Comparison, wanted: &Vec<String>, value: &str) -> (yes: bool)
    ensures
        yes == crossed_out(how, text::texts(wanted@), value@),
{
    let ghost all = text::texts(wanted@);
    let mut i: usize = 0;
    while i < wanted.len()
        invariant
            i <= wanted.len(),
            all == text::texts(wanted@),
            forall|k: int|
                0 <= k < i ==> excluded(#[trigger] all[k]) is None || !how.fits(
                    excluded(all[k])->0,
                    value@,
                ),
        decreases wanted.len() - i,
    {
        let entry = wanted[i].as_str();
        assert(all[i as int] == entry@);
        match bang_negation(entry) {
            Some(out) => {
                if fits(how, out, value) {
                    return true;
                }
            },
            None => {},
        }
        i += 1;
    }
    false
}

fn any_refused(how: Comparison, unwanted: &Vec<String>, value: &str) -> (yes: bool)
    ensures
        yes == refused(how, text::texts(unwanted@), value@),
{
    let ghost all = text::texts(unwanted@);
    let mut i: usize = 0;
    while i < unwanted.len()
        invariant
            i <= unwanted.len(),
            all == text::texts(unwanted@),
            forall|k: int| 0 <= k < i ==> !how.fits(named_value(#[trigger] all[k]), value@),
        decreases unwanted.len() - i,
    {
        let entry = unwanted[i].as_str();
        assert(all[i as int] == entry@);
        if fits(how, matcher_value(entry), value) {
            return true;
        }
        i += 1;
    }
    false
}

/// Whether a value, if there is one, passes a list of wanted and a list of unwanted values.
pub fn matches_list(
    how: Comparison,
    wanted: &Vec<String>,
    unwanted: &Vec<String>,
    value: Option<&str>,
) -> (yes: bool)
    ensures
        yes == passes(how, text::texts(wanted@), text::texts(unwanted@), text::str_text(value)),
{
    let asked = any_wanted(wanted);
    match value {
        None => !asked,
        Some(value) => {
            (!asked || any_welcome(how, wanted, value)) && !any_crossed_out(how, wanted, value)
                && !any_refused(how, unwanted, value)
        },
    }
}

/// Whether a truth value passes a wanted value and an exclusion.
pub open spec fn passes_bool(wanted: Option<bool>, excluded: bool, value: bool) -> bool {
    (wanted is Some ==> wanted == Some(value)) && (excluded ==> !value)
}

pub fn matches_bool(wanted: Option<bool>, excluded: bool, value: bool) -> (yes: bool)
    ensures
        yes == passes_bool(wanted, excluded, value),
{
    (match wanted {
        Some(wanted) => wanted == value,
        None => true,
    }) && (!excluded || !value)
}

/// Empty lists let everything pass, an unknown value as well.
pub proof fn lemma_empty_lists_pass(how: Comparison, value: Option<Seq<char>>)
    ensures
        passes(how, Seq::empty(), Seq::empty(), value),
{
}

/// The entries of a list of wanted values are alternatives: without exclusions a known
/// value passes exactly when it fits one of them.
pub proof fn lemma_wanted_values_are_alternatives(
    how: Comparison,
    wanted: Seq<Seq<char>>,
    value: Seq<char>,
)
    requires
        wanted.len() > 0,
        forall|i: int| 0 <= i < wanted.len() ==> excluded(#[trigger] wanted[i]) is None,
    ensures
        passes(how, wanted, Seq::empty(), Some(value)) <==> exists|i: int|
            0 <= i < wanted.len() && how.fits(#[trigger] wanted[i], value),
{
    assert(excluded(wanted[0]) is None);
}

/// `!value` among the wanted values says the same as `value` among the unwanted ones.
pub proof fn lemma_exclusion_can_stand_in_either_list(
    how: Comparison,
    entry: Seq<char>,
    value: Option<Seq<char>>,
)
    requires
        excluded(entry) is Some,
        excluded(excluded(entry)->0) is None,
    ensures
        passes(how, seq![entry], Seq::empty(), value) == passes(
            how,
            Seq::empty(),
            seq![excluded(entry)->0],
            value,
        ),
        passes(how, Seq::empty(), seq![entry], value) == passes(
            how,
            Seq::empty(),
            seq![excluded(entry)->0],
            value,
        ),
{
    let plain = excluded(entry)->0;
    let with = seq![entry];
    let without = seq![plain];
    assert(with[0] == entry);
    if value is Some {
        let v = value->0;
        assert(refused(how, without, v) == how.fits(plain, v)) by {
            if how.fits(plain, v) {
                assert(how.fits(named_value(without[0]), v));
            }
        }
    }
}

/// Dots at the end of a host name make no difference.
pub proof fn lemma_host_form_settles(host: Seq<char>)
    ensures
        host_form(host_form(host)) == host_form(host),
        host_form(host.push('.')) == host_form(host),
    decreases host.len(),
{
    assert(host.push('.').drop_last() == host);
    if host.len() > 0 && host.last() == '.' {
        lemma_host_form_settles(host.drop_last());
    }
}

/// What it takes to pass two lists, entry by entry.
pub(crate) proof fn lemma_passes_entry_by_entry(
    how: Comparison,
    wanted: Vec<String>,
    unwanted: Vec<String>,
    value: Option<Seq<char>>,
)
    ensures
        passes(how, text::texts(wanted@), text::texts(unwanted@), value) <==> {
            &&& forall|k: int|
                0 <= k < wanted@.len() && !((#[trigger] wanted@[k])@.len() > 1
                    && wanted@[k]@[0] == '!') ==> value is Some && exists|i: int|
                    0 <= i < wanted@.len() && !((#[trigger] wanted@[i])@.len() > 1
                        && wanted@[i]@[0] == '!') && how.fits(wanted@[i]@, value->0)
            &&& forall|k: int|
                0 <= k < wanted@.len() && ((#[trigger] wanted@[k])@.len() > 1
                    && wanted@[k]@[0] == '!') && value is Some
                    ==> !how.fits(wanted@[k]@.skip(1), value->0)
            &&& forall|k: int|
                0 <= k < unwanted@.len() && value is Some ==> {
                    let entry = (#[trigger] unwanted@[k])@;
                    let named = if entry.len() > 1 && entry[0] == '!' {
                        entry.skip(1)
                    } else {
                        entry
                    };
                    !how.fits(named, value->0)
                }
        },
{
    let w = text::texts(wanted@);
    let u = text::texts(unwanted@);
    assert(forall|k: int| 0 <= k < wanted@.len() ==> w[k] == #[trigger] wanted@[k]@);
    assert(forall|k: int| 0 <= k < unwanted@.len() ==> u[k] == #[trigger] unwanted@[k]@);
    assert(forall|k: int| 0 <= k < w.len() ==> #[trigger] w[k] == wanted@[k]@);
    assert(forall|k: int| 0 <= k < u.len() ==> #[trigger] u[k] == unwanted@[k]@);
}

/// A host name and its plain form differ in dots at the end alone, and the plain form has none
/// there.
pub proof fn lemma_only_dots_at_the_end_are_dropped(host: &str, form: &str) -> (dots: Seq<char>)
    requires
        call_ensures(normalize_host, (host,), form),
    ensures
        form@ == host_form(host@),
        host@ == form@ + dots,
        forall|i: int| 0 <= i < dots.len() ==> (#[trigger] dots[i]) == '.',
        form@.len() > 0 ==> form@.last() != '.',
{
    lemma_host_form_drops_dots(host@)
}

/// A host name and its plain form differ in dots at the end alone, and the plain form has none
/// there.
pub proof fn lemma_host_form_drops_dots(host: Seq<char>) -> (dots: Seq<char>)
    ensures
        host == host_form(host) + dots,
        forall|i: int| 0 <= i < dots.len() ==> (#[trigger] dots[i]) == '.',
        host_form(host).len() > 0 ==> host_form(host).last() != '.',
    decreases host.len(),
{
    if host.len() > 0 && host.last() == '.' {
        let rest = lemma_host_form_drops_dots(host.drop_last());
        let dots = rest.push('.');
        assert(host =~= host.drop_last().push('.'));
        assert(host_form(host.drop_last()) + rest.push('.') =~= (host_form(host.drop_last())
            + rest).push('.'));
        dots
    } else {
        assert(host =~= host + Seq::empty());
        Seq::empty()
    }
}

/// How a value is held against an entry: equal up to case; equal as host names, up to case and
/// dots at the end; or with the entry as a part of the value, both in lower case.
pub proof fn lemma_ways_to_compare(how: Comparison, entry: &str, value: &str, yes: bool)
    requires
        call_ensures(fits, (how, entry, value), yes),
    ensures
        yes == how.fits(entry@, value@),
        how is Text ==> yes == text::same_ignoring_case(entry@, value@),
        how is Host ==> yes == text::same_ignoring_case(host_form(entry@), host_form(value@)),
        how is Part ==> yes == text::occurs_in(
            text::lowercase_text(value@),
            text::lowercase_text(entry@),
        ),
{
}

} // verus!

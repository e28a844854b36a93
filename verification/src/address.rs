//! IP addresses and their textual forms.
use crate::text::{self, hex_digit_value, split, to_chars};
use vstd::prelude::*;
use vstd::string::*;

verus! {

/// An IP address as a number: the octets, or the sixteen bytes, in network order.
#[derive(Debug, Clone, Copy, PartialEq, Eq, Structural)]
pub enum IpAddr {
    V4(u32),
    V6(u128),
}

/// The value of a dotted-quad octet: one to three digits, no superfluous leading zero.
pub open spec fn octet_value(text: Seq<char>) -> Option<int> {
    if text::is_digits(text) && text.len() <= 3 && (text.len() == 1 || text[0] != '0') && text::digits_value(
        text,
    ) < 256 {
        Some(text::digits_value(text) as int)
    } else {
        None
    }
}

/// The number that a dotted quad stands for.
pub open spec fn ipv4_value(text: Seq<char>) -> Option<int> {
    let parts = text::pieces(text, '.');
    if parts.len() == 4 && octet_value(parts[0]) is Some && octet_value(parts[1]) is Some
        && octet_value(parts[2]) is Some && octet_value(parts[3]) is Some {
        Some(
            octet_value(parts[0])->0 * 0x100_0000 + octet_value(parts[1])->0 * 0x1_0000
                + octet_value(parts[2])->0 * 0x100 + octet_value(parts[3])->0,
        )
    } else {
        None
    }
}

/// Whether every character is a hexadecimal digit.
pub open spec fn all_hex(text: Seq<char>) -> bool {
    forall|i: int| 0 <= i < text.len() ==> text::hex_value(#[trigger] text[i]) is Some
}

/// The number that a run of hexadecimal digits stands for.
pub open spec fn hex_number(text: Seq<char>) -> int
    decreases text.len(),
{
    if text.len() == 0 {
        0
    } else {
        hex_number(text.drop_last()) * 16 + text::hex_value(text.last())->0
    }
}

/// The value of a group between colons: one to four hexadecimal digits.
pub open spec fn group_value(text: Seq<char>) -> Option<int> {
    if 1 <= text.len() <= 4 && all_hex(text) {
        Some(hex_number(text))
    } else {
        None
    }
}

/// The values of hexadecimal groups, if all of them are such groups.
pub open spec fn group_values(parts: Seq<Seq<char>>) -> Option<Seq<int>> {
    if forall|i: int| 0 <= i < parts.len() ==> group_value(#[trigger] parts[i]) is Some {
        Some(parts.map_values(|part: Seq<char>| group_value(part)->0))
    } else {
        None
    }
}

/// The sixteen-bit words that a colon-separated text writes. Where `embedded` holds,
/// a dotted quad may stand in the place of the last two words.
pub open spec fn word_values(text: Seq<char>, embedded: bool) -> Option<Seq<int>> {
    let parts = text::pieces(text, ':');
    if text.len() == 0 {
        Some(Seq::empty())
    } else if group_values(parts) is Some {
        group_values(parts)
    } else if embedded && group_values(parts.drop_last()) is Some && ipv4_value(
        parts.last(),
    ) is Some {
        let quad = ipv4_value(parts.last())->0;
        Some(group_values(parts.drop_last())->0.push(quad / 0x1_0000).push(quad % 0x1_0000))
    } else {
        None
    }
}

/// Where the first double colon stands.
pub open spec fn first_gap(text: Seq<char>) -> Option<int>
    decreases text.len(),
{
    if text.len() < 2 {
        None
    } else if text[0] == ':' && text[1] == ':' {
        Some(0int)
    } else {
        match first_gap(text.skip(1)) {
            Some(i) => Some(i + 1),
            None => None,
        }
    }
}

/// The number with the given sixteen-bit words, most significant first.
pub open spec fn joined_words(words: Seq<int>) -> int
    decreases words.len(),
{
    if words.len() == 0 {
        0
    } else {
        joined_words(words.drop_last()) * 0x1_0000 + words.last()
    }
}

/// The number that a colon-separated address stands for: eight words, or fewer with
/// one double colon in the place of the zeros that are missing.
pub open spec fn ipv6_value(text: Seq<char>) -> Option<int> {
    match first_gap(text) {
        None => match word_values(text, true) {
            Some(words) => if words.len() == 8 {
                Some(joined_words(words))
            } else {
                None
            },
            None => None,
        },
        Some(i) => match (word_values(text.take(i), false), word_values(text.skip(i + 2), true)) {
            (Some(head), Some(tail)) => if head.len() + tail.len() <= 7 {
                Some(
                    joined_words(
                        head + Seq::new((8 - head.len() - tail.len()) as nat, |k: int| 0int) + tail,
                    ),
                )
            } else {
                None
            },
            _ => None,
        },
    }
}

/// The address that a text stands for, if it is the textual form of one.
pub open spec fn address_value(text: Seq<char>) -> Option<IpAddr> {
    if ipv4_value(text) is Some {
        Some(IpAddr::V4(ipv4_value(text)->0 as u32))
    } else if ipv6_value(text) is Some {
        Some(IpAddr::V6(ipv6_value(text)->0 as u128))
    } else {
        None
    }
}

fn parse_octet(text: &str) -> (value: Option<u32>)
    ensures
        match value {
            Some(v) => octet_value(text@) == Some(v as int) && v < 256,
            None => octet_value(text@) is None,
        },
{
    let chars = to_chars(text);
    if chars.len() == 0 || chars.len() > 3 {
        return None;
    }
    if chars.len() > 1 && chars[0] == '0' {
        return None;
    }
    let mut value: u32 = 0;
    let mut i: usize = 0;
    while i < chars.len()
        invariant
            chars@ == text@,
            chars.len() <= 3,
            i <= chars.len(),
            value == text::digits_value(text@.take(i as int)),
            i == 0 ==> value == 0,
            i == 1 ==> value < 10,
            i == 2 ==> value < 100,
            i == 3 ==> value < 1000,
            forall|k: int| 0 <= k < i ==> text::is_decimal_digit(#[trigger] text@[k]),
        decreases chars.len() - i,
    {
        let c = chars[i];
        if !('0' <= c && c <= '9') {
            return None;
        }
        assert(text@.take(i + 1).drop_last() == text@.take(i as int));
        value = value * 10 + (c as u32 - 48);
        i += 1;
    }
    assert(text@.take(text@.len() as int) == text@);
    if value < 256 {
        Some(value)
    } else {
        None
    }
}

fn parse_ipv4(text: &str) -> (value: Option<u32>)
    ensures
        match value {
            Some(v) => ipv4_value(text@) == Some(v as int),
            None => ipv4_value(text@) is None,
        },
{
    let parts = split(text, '.');
    if parts.len() != 4 {
        return None;
    }
    match (
        parse_octet(parts[0].as_str()),
        parse_octet(parts[1].as_str()),
        parse_octet(parts[2].as_str()),
        parse_octet(parts[3].as_str()),
    ) {
        (Some(a), Some(b), Some(c), Some(d)) => Some(
            a * 0x100_0000 + b * 0x1_0000 + c * 0x100 + d,
        ),
        _ => None,
    }
}

fn parse_group(text: &str) -> (value: Option<u32>)
    ensures
        match value {
            Some(v) => group_value(text@) == Some(v as int) && v < 0x1_0000,
            None => group_value(text@) is None,
        },
{
    let chars = to_chars(text);
    if chars.len() == 0 || chars.len() > 4 {
        return None;
    }
    let mut value: u32 = 0;
    let mut i: usize = 0;
    while i < chars.len()
        invariant
            chars@ == text@,
            chars.len() <= 4,
            i <= chars.len(),
            value == hex_number(text@.take(i as int)),
            i == 0 ==> value == 0,
            i == 1 ==> value < 16,
            i == 2 ==> value < 0x100,
            i == 3 ==> value < 0x1000,
            i == 4 ==> value < 0x1_0000,
            forall|k: int| 0 <= k < i ==> text::hex_value(#[trigger] text@[k]) is Some,
        decreases chars.len() - i,
    {
        let digit: u32 = match hex_digit_value(chars[i]) {
            Some(digit) => digit,
            None => {
                return None;
            },
        };
        assert(text@.take(i + 1).drop_last() == text@.take(i as int));
        value = value * 16 + digit;
        i += 1;
    }
    assert(text@.take(text@.len() as int) == text@);
    Some(value)
}

/// The words of `words` as mathematical integers.
spec fn ints(words: Seq<u32>) -> Seq<int> {
    words.map_values(|w: u32| w as int)
}

spec fn small(words: Seq<u32>) -> bool {
    forall|i: int| 0 <= i < words.len() ==> #[trigger] words[i] < 0x1_0000
}

fn parse_groups(parts: &Vec<String>, count: usize) -> (words: Option<Vec<u32>>)
    requires
        count <= parts.len(),
    ensures
        match words {
            Some(w) => group_values(text::texts(parts@).take(count as int)) == Some(ints(w@)) && small(
                w@,
            ),
            None => group_values(text::texts(parts@).take(count as int)) is None,
        },
{
    let ghost wanted = text::texts(parts@).take(count as int);
    let mut words: Vec<u32> = Vec::new();
    let mut i: usize = 0;
    while i < count
        invariant
            i <= count <= parts.len(),
            wanted == text::texts(parts@).take(count as int),
            words.len() == i,
            small(words@),
            forall|k: int|
                0 <= k < i ==> group_value(#[trigger] wanted[k]) == Some(words@[k] as int),
        decreases count - i,
    {
        assert(wanted[i as int] == parts@[i as int]@);
        match parse_group(parts[i].as_str()) {
            Some(word) => words.push(word),
            None => {
                return None;
            },
        }
        i += 1;
    }
    Some(words)
}

fn parse_words(text: &str, embedded: bool) -> (words: Option<Vec<u32>>)
    ensures
        match words {
            Some(w) => word_values(text@, embedded) == Some(ints(w@)) && small(w@),
            None => word_values(text@, embedded) is None,
        },
{
    if text.is_empty() {
        let none: Vec<u32> = Vec::new();
        return Some(none);
    }
    let parts = split(text, ':');
    let ghost all = text::pieces(text@, ':');
    assert(all.take(parts.len() as int) == all);
    match parse_groups(&parts, parts.len()) {
        Some(words) => {
            return Some(words);
        },
        None => {},
    }
    if !embedded {
        return None;
    }
    let last = parts.len() - 1;
    match (parse_groups(&parts, last), parse_ipv4(parts[last].as_str())) {
        (Some(words), Some(quad)) => {
            let mut words = words;
            words.push(quad / 0x1_0000);
            words.push(quad % 0x1_0000);
            Some(words)
        },
        _ => None,
    }
}

fn find_gap(chars: &Vec<char>) -> (gap: Option<usize>)
    ensures
        match gap {
            Some(i) => first_gap(chars@) == Some(i as int) && i + 2 <= chars.len(),
            None => first_gap(chars@) is None,
        },
{
    let mut i: usize = 0;
    assert(chars@.skip(0) == chars@);
    while i < chars.len() && chars.len() - i >= 2
        invariant
            i <= chars.len(),
            match first_gap(chars@.skip(i as int)) {
                Some(k) => first_gap(chars@) == Some(i + k),
                None => first_gap(chars@) is None,
            },
        decreases chars.len() - i,
    {
        let ghost rest = chars@.skip(i as int);
        assert(rest.skip(1) == chars@.skip(i + 1));
        if chars[i] == ':' && chars[i + 1] == ':' {
            return Some(i);
        }
        i += 1;
    }
    None
}

spec fn word_bound(n: nat) -> int
    decreases n,
{
    if n == 0 {
        1
    } else {
        word_bound((n - 1) as nat) * 0x1_0000
    }
}

fn join_words(words: &Vec<u32>) -> (value: u128)
    requires
        words.len() == 8,
        small(words@),
    ensures
        value == joined_words(ints(words@)),
{
    let ghost all = ints(words@);
    let mut value: u128 = 0;
    let mut i: usize = 0;
    while i < 8
        invariant
            words.len() == 8,
            small(words@),
            all == ints(words@),
            i <= 8,
            value == joined_words(all.take(i as int)),
            value < word_bound(i as nat),
        decreases 8 - i,
    {
        proof {
            reveal_with_fuel(word_bound, 9);
            assert(all.take(i + 1).drop_last() == all.take(i as int));
        }
        value = value * 0x1_0000 + words[i] as u128;
        i += 1;
    }
    assert(all.take(8) == all);
    value
}

fn parse_ipv6(text: &str) -> (value: Option<u128>)
    ensures
        match value {
            Some(v) => ipv6_value(text@) == Some(v as int),
            None => ipv6_value(text@) is None,
        },
{
    let chars = to_chars(text);
    match find_gap(&chars) {
        None => match parse_words(text, true) {
            Some(words) => {
                if words.len() == 8 {
                    Some(join_words(&words))
                } else {
                    None
                }
            },
            None => None,
        },
        Some(gap) => {
            let head_text = text.substring_char(0, gap);
            let tail_text = text.substring_char(gap + 2, chars.len());
            match (parse_words(head_text, false), parse_words(tail_text, true)) {
                (Some(head), Some(tail)) => {
                    if head.len() > 7 || tail.len() > 7 || head.len() + tail.len() > 7 {
                        return None;
                    }
                    let ghost front = head@;
                    let zeros: usize = 8 - head.len() - tail.len();
                    let mut words = head;
                    let mut i: usize = 0;
                    while i < zeros
                        invariant
                            i <= zeros,
                            small(front),
                            words@ == front + Seq::new(i as nat, |k: int| 0u32),
                        decreases zeros - i,
                    {
                        words.push(0);
                        i += 1;
                    }
                    let mut j: usize = 0;
                    while j < tail.len()
                        invariant
                            j <= tail.len(),
                            small(front),
                            small(tail@),
                            words@ == front + Seq::new(zeros as nat, |k: int| 0u32) + tail@.take(
                                j as int,
                            ),
                        decreases tail.len() - j,
                    {
                        words.push(tail[j]);
                        j += 1;
                    }
                    assert(ints(words@) =~= ints(front) + Seq::new(zeros as nat, |k: int| 0int)
                        + ints(tail@));
                    Some(join_words(&words))
                },
                _ => None,
            }
        },
    }
}

impl IpAddr {
    /// Reads an address from its textual form.
    pub fn parse(text: &str) -> (address: Option<IpAddr>)
        ensures
            address == address_value(text@),
    {
        match parse_ipv4(text) {
            Some(v) => Some(IpAddr::V4(v)),
            None => match parse_ipv6(text) {
                Some(v) => Some(IpAddr::V6(v)),
                None => None,
            },
        }
    }
}

proof fn lemma_short_decimal(n: nat)
    requires
        n < 256,
    ensures
        octet_value(text::decimal(n)) == Some(n as int),
        forall|i: int| 0 <= i < text::decimal(n).len() ==> (#[trigger] text::decimal(n)[i]) != '.',
{
    text::lemma_decimal_stands_for_its_number(n);
    reveal_with_fuel(text::decimal, 4);
    let written = text::decimal(n);
    assert forall|i: int| 0 <= i < written.len() implies (#[trigger] written[i]) != '.' by {
        assert(text::is_decimal_digit(written[i]));
    }
}

proof fn lemma_digits_are_decimal(digits: Seq<char>)
    requires
        text::is_digits(digits),
        digits.len() == 1 || digits[0] != '0',
    ensures
        text::decimal(text::digits_value(digits)) == digits,
        digits.len() > 1 ==> text::digits_value(digits) >= 10,
    decreases digits.len(),
{
    let last = digits.last();
    assert(text::is_decimal_digit(digits[digits.len() - 1]));
    if digits.len() == 1 {
        assert(digits.drop_last() =~= Seq::empty());
        assert(text::digits_value(digits.drop_last()) == 0);
        assert(text::decimal(text::digits_value(digits)) =~= digits);
    } else {
        let rest = digits.drop_last();
        assert forall|i: int| 0 <= i < rest.len() implies text::is_decimal_digit(
            #[trigger] rest[i],
        ) by {
            assert(rest[i] == digits[i]);
        }
        assert(rest[0] == digits[0]);
        lemma_digits_are_decimal(rest);
        let value = text::digits_value(rest);
        let digit = (last as int - 48) as nat;
        assert(text::is_decimal_digit(rest[0]));
        assert(value >= 1) by {
            if rest.len() == 1 {
                assert(rest.drop_last() =~= Seq::empty());
                assert(text::digits_value(rest.drop_last()) == 0);
            }
        }
        assert(text::digits_value(digits) == value * 10 + digit);
        assert((value * 10 + digit) / 10 == value && (value * 10 + digit) % 10 == digit)
            by (nonlinear_arith)
            requires
                digit < 10,
        ;
        assert(text::decimal(text::digits_value(digits)) =~= rest.push(last));
        assert(rest.push(last) =~= digits);
    }
}

/// The texts that are IPv4 addresses are exactly four numbers below 256 in decimal digits,
/// without leading zeros, with dots between them. The first is the most significant byte.
pub proof fn lemma_dotted_quads(
    text: &str,
    value: Option<IpAddr>,
    a: nat,
    b: nat,
    c: nat,
    d: nat,
)
    requires
        call_ensures(IpAddr::parse, (text,), value),
        a < 256 && b < 256 && c < 256 && d < 256,
    ensures
        text@ == text::decimal(a) + seq!['.'] + text::decimal(b) + seq!['.'] + text::decimal(c)
            + seq!['.'] + text::decimal(d) ==> value == Some(
            IpAddr::V4((a * 0x100_0000 + b * 0x1_0000 + c * 0x100 + d) as u32),
        ),
{
    lemma_short_decimal(a);
    lemma_short_decimal(b);
    lemma_short_decimal(c);
    lemma_short_decimal(d);
    let dot = seq!['.'];
    let t1 = text::decimal(a) + dot + text::decimal(b);
    let t2 = t1 + dot + text::decimal(c);
    let t3 = t2 + dot + text::decimal(d);
    text::lemma_pieces_stand_between_separators(Seq::empty(), text::decimal(a), '.');
    text::lemma_pieces_stand_between_separators(text::decimal(a), text::decimal(b), '.');
    text::lemma_pieces_stand_between_separators(t1, text::decimal(c), '.');
    text::lemma_pieces_stand_between_separators(t2, text::decimal(d), '.');
    assert(text::pieces(t3, '.') =~= seq![
        text::decimal(a),
        text::decimal(b),
        text::decimal(c),
        text::decimal(d),
    ]);
}

/// A text that is an IPv4 address is written in the one way that its four bytes have.
pub proof fn lemma_quads_are_written_in_one_way(text: &str, number: u32) -> (bytes: (
    nat,
    nat,
    nat,
    nat,
))
    requires
        call_ensures(IpAddr::parse, (text,), Some(IpAddr::V4(number))),
    ensures
        bytes.0 < 256 && bytes.1 < 256 && bytes.2 < 256 && bytes.3 < 256,
        number == bytes.0 * 0x100_0000 + bytes.1 * 0x1_0000 + bytes.2 * 0x100 + bytes.3,
        text@ == text::decimal(bytes.0) + seq!['.'] + text::decimal(bytes.1) + seq!['.']
            + text::decimal(bytes.2) + seq!['.'] + text::decimal(bytes.3),
{
    let parts = text::pieces(text@, '.');
    lemma_digits_are_decimal(parts[0]);
    lemma_digits_are_decimal(parts[1]);
    lemma_digits_are_decimal(parts[2]);
    lemma_digits_are_decimal(parts[3]);
    text::lemma_four_pieces(text@, '.');
    (
        text::digits_value(parts[0]),
        text::digits_value(parts[1]),
        text::digits_value(parts[2]),
        text::digits_value(parts[3]),
    )
}

/// A hexadecimal digit behind others adds its value to sixteen times theirs, and a word behind
/// others adds its value to 65536 times theirs.
pub proof fn lemma_words_have_place_value(
    digits: Seq<char>,
    digit: char,
    words: Seq<int>,
    word: int,
)
    requires
        text::hex_value(digit) is Some,
    ensures
        hex_number(Seq::<char>::empty()) == 0,
        hex_number(digits.push(digit)) == hex_number(digits) * 16 + text::hex_value(digit)->0,
        joined_words(Seq::<int>::empty()) == 0,
        joined_words(words.push(word)) == joined_words(words) * 65536 + word,
{
    assert(digits.push(digit).drop_last() =~= digits);
    assert(words.push(word).drop_last() =~= words);
}

proof fn lemma_first_gap(text: Seq<char>, i: int)
    requires
        0 <= i,
        forall|k: int|
            0 <= k < i && k < text.len() - 1 ==> !((#[trigger] text[k]) == ':' && text[k
                + 1] == ':'),
        i < text.len() - 1 ==> text[i] == ':' && text[i + 1] == ':',
    ensures
        i < text.len() - 1 ==> first_gap(text) == Some(i),
        i >= text.len() - 1 ==> first_gap(text) is None,
    decreases text.len(),
{
    if text.len() >= 2 {
        if i == 0 {
            assert(text[0] == ':' && text[1] == ':');
        } else {
            let rest = text.skip(1);
            assert(!(text[0] == ':' && text[0int + 1] == ':'));
            assert forall|k: int| 0 <= k < i - 1 && k < rest.len() - 1 implies !((
            #[trigger] rest[k]) == ':' && rest[k + 1] == ':') by {
                assert(rest[k] == text[k + 1] && rest[k + 1] == text[k + 2]);
                assert(!(text[k + 1] == ':' && text[k + 1 + 1] == ':'));
            }
            lemma_first_gap(rest, i - 1);
        }
    }
}

/// Whether all of the texts are one to four hexadecimal digits.
pub open spec fn are_groups(groups: Seq<Seq<char>>) -> bool {
    forall|i: int|
        0 <= i < groups.len() ==> 1 <= (#[trigger] groups[i]).len() <= 4 && forall|k: int|
            0 <= k < groups[i].len() ==> {
                let c = #[trigger] groups[i][k];
                '0' <= c <= '9' || 'a' <= c <= 'f' || 'A' <= c <= 'F'
            }
}

proof fn lemma_groups(groups: Seq<Seq<char>>)
    requires
        are_groups(groups),
    ensures
        forall|i: int| 0 <= i < groups.len() ==> (#[trigger] groups[i]).len() > 0,
        forall|i: int, k: int|
            0 <= i < groups.len() && 0 <= k < groups[i].len() ==> (#[trigger] groups[i][k]) != ':',
        group_values(groups) == Some(groups.map_values(|group: Seq<char>| hex_number(group))),
{
    assert forall|i: int, k: int| 0 <= i < groups.len() && 0 <= k < groups[i].len() implies (
    #[trigger] groups[i][k]) != ':' by {
        assert(1 <= groups[i].len());
    }
    assert forall|i: int| 0 <= i < groups.len() implies group_value(#[trigger] groups[i])
        == Some(hex_number(groups[i])) by {
        assert forall|k: int| 0 <= k < groups[i].len() implies text::hex_value(
            #[trigger] groups[i][k],
        ) is Some by {}
    }
    let values = groups.map_values(|part: Seq<char>| group_value(part)->0);
    let numbers = groups.map_values(|group: Seq<char>| hex_number(group));
    assert forall|i: int| 0 <= i < groups.len() implies values[i] == numbers[i] by {
        assert(group_value(groups[i]) == Some(hex_number(groups[i])));
    }
    assert(values =~= numbers);
}

proof fn lemma_rejoined_groups(groups: Seq<Seq<char>>, i: int)
    requires
        are_groups(groups),
        0 <= i < text::rejoined(groups, ':').len(),
    ensures
        ({
            let c = text::rejoined(groups, ':')[i];
            '0' <= c <= '9' || 'a' <= c <= 'f' || 'A' <= c <= 'F' || c == ':'
        }),
    decreases groups.len(),
{
    let whole = text::rejoined(groups, ':');
    if groups.len() == 1 {
        assert(whole == groups[0]);
        assert(whole[i] == groups[0][i]);
    } else {
        let rest = groups.drop_last();
        let front = text::rejoined(rest, ':');
        assert(groups[groups.len() - 1] == groups.last());
        assert forall|j: int| 0 <= j < rest.len() implies 1 <= (#[trigger] rest[j]).len() <= 4
            && forall|k: int|
            0 <= k < rest[j].len() ==> {
                let c = #[trigger] rest[j][k];
                '0' <= c <= '9' || 'a' <= c <= 'f' || 'A' <= c <= 'F'
            } by {
            assert(rest[j] == groups[j]);
        }
        if i < front.len() {
            lemma_rejoined_groups(rest, i);
            assert(whole[i] == front[i]);
        } else if i > front.len() {
            assert(whole[i] == groups[groups.len() - 1][i - front.len() - 1]);
        }
    }
}

proof fn lemma_no_quad(text: Seq<char>)
    requires
        forall|i: int| 0 <= i < text.len() ==> (#[trigger] text[i]) != '.',
    ensures
        ipv4_value(text) is None,
{
    text::lemma_pieces_stand_between_separators(Seq::empty(), text, '.');
}

/// Eight groups of up to four hexadecimal digits, with colons between them, are the IPv6
/// address with these sixteen-bit words, the most significant first.
pub proof fn lemma_eight_groups(text: &str, groups: Seq<Seq<char>>, value: Option<IpAddr>)
    requires
        call_ensures(IpAddr::parse, (text,), value),
        groups.len() == 8,
        are_groups(groups),
        text@ == text::rejoined(groups, ':'),
    ensures
        value == Some(
            IpAddr::V6(
                joined_words(groups.map_values(|group: Seq<char>| hex_number(group))) as u128,
            ),
        ),
{
    lemma_groups(groups);
    text::lemma_rejoined_texts_come_apart(groups, ':');
    text::lemma_rejoined_has_single_separators(groups, ':');
    assert forall|i: int| 0 <= i < text@.len() implies (#[trigger] text@[i]) != '.' by {
        lemma_rejoined_groups(groups, i);
    }
    lemma_no_quad(text@);
    lemma_first_gap(text@, text@.len() as int);
}

/// A double colon stands for the zero words that are missing: at least one, between the words
/// before it and those behind it.
pub proof fn lemma_double_colon_fills_with_zeros(
    text: &str,
    head: Seq<Seq<char>>,
    tail: Seq<Seq<char>>,
    value: Option<IpAddr>,
)
    requires
        call_ensures(IpAddr::parse, (text,), value),
        head.len() + tail.len() <= 7,
        are_groups(head),
        are_groups(tail),
        text@ == text::rejoined(head, ':') + seq![':', ':'] + text::rejoined(tail, ':'),
    ensures
        value == Some(
            IpAddr::V6(
                joined_words(
                    head.map_values(|group: Seq<char>| hex_number(group)) + Seq::new(
                        (8 - head.len() - tail.len()) as nat,
                        |k: int| 0int,
                    ) + tail.map_values(|group: Seq<char>| hex_number(group)),
                ) as u128,
            ),
        ),
{
    let front = text::rejoined(head, ':');
    let back = text::rejoined(tail, ':');
    lemma_groups(head);
    lemma_groups(tail);
    if head.len() > 0 {
        text::lemma_rejoined_texts_come_apart(head, ':');
        text::lemma_rejoined_has_single_separators(head, ':');
    }
    if tail.len() > 0 {
        text::lemma_rejoined_texts_come_apart(tail, ':');
        text::lemma_rejoined_has_single_separators(tail, ':');
    }
    assert forall|i: int| 0 <= i < text@.len() implies (#[trigger] text@[i]) != '.' by {
        if i < front.len() {
            lemma_rejoined_groups(head, i);
            assert(text@[i] == front[i]);
        } else if i >= front.len() + 2 {
            lemma_rejoined_groups(tail, i - front.len() - 2);
            assert(text@[i] == back[i - front.len() - 2]);
        }
    }
    lemma_no_quad(text@);
    let at = front.len() as int;
    assert(text@[at] == ':' && text@[at + 1] == ':');
    assert forall|k: int| 0 <= k < at && k < text@.len() - 1 implies !((#[trigger] text@[k]) == ':'
        && text@[k + 1] == ':') by {
        assert(text@[k] == front[k]);
        if k + 1 < at {
            assert(text@[k + 1] == front[k + 1]);
        } else {
            assert(front[k] == front.last());
        }
    }
    lemma_first_gap(text@, at);
    assert(text@.take(at) =~= front);
    assert(text@.skip(at + 2) =~= back);
    if head.len() == 0 {
        assert(front =~= Seq::empty());
        assert(head.map_values(|group: Seq<char>| hex_number(group)) =~= Seq::empty());
    }
    if tail.len() == 0 {
        assert(back =~= Seq::empty());
        assert(tail.map_values(|group: Seq<char>| hex_number(group)) =~= Seq::empty());
    }
    assert(word_values(front, false) == Some(
        head.map_values(|group: Seq<char>| hex_number(group)),
    ));
    assert(word_values(back, true) == Some(
        tail.map_values(|group: Seq<char>| hex_number(group)),
    ));
}

} // verus!

//! Text as sequences of characters: the small vocabulary that the rest of the
//! crate uses to speak about names, hosts, lists and messages.
use vstd::prelude::*;
use vstd::string::*;
use vstd::utf8;

verus! {

/// `String::push` appends one character.
pub assume_specification[ String::push ](string: &mut String, c: char)
    ensures
        final(string)@ == old(string)@.push(c),
;

/// What `str::to_lowercase` makes of a text.
pub uninterp spec fn lowercase_text(text: Seq<char>) -> Seq<char>;

/// Calls `str::to_lowercase`. The result is named `lowercase_text`; of texts made of
/// ASCII characters it is also stated that exactly the letters `A` to `Z` change.
#[verifier::external_body]
pub(crate) fn to_lowercase(text: &str) -> (lower: String)
    ensures
        lower@ == lowercase_text(text@),
        utf8::is_ascii_chars(text@) ==> lower@ == lower_ascii_text(text@),
{
    text.to_lowercase()
}

/// The characters that `char::to_lowercase` yields for a character.
pub uninterp spec fn lowercase_char(c: char) -> Seq<char>;

/// Calls `char::to_lowercase`. The result is named `lowercase_char`; an ASCII
/// character yields exactly its ASCII lower case.
#[verifier::external_body]
pub(crate) fn char_to_lowercase(c: char) -> (lower: Vec<char>)
    ensures
        lower@ == lowercase_char(c),
        (c as int) < 128 ==> lower@ == seq![lower_ascii(c)],
{
    c.to_lowercase().collect()
}

/// The characters with the Unicode property `White_Space`.
pub open spec fn is_space(c: char) -> bool {
    let v = c as int;
    ||| 9 <= v <= 13
    ||| v == 0x20
    ||| v == 0x85
    ||| v == 0xA0
    ||| v == 0x1680
    ||| 0x2000 <= v <= 0x200A
    ||| v == 0x2028
    ||| v == 0x2029
    ||| v == 0x202F
    ||| v == 0x205F
    ||| v == 0x3000
}

pub fn is_whitespace(c: char) -> (yes: bool)
    ensures
        yes == is_space(c),
{
    let v: u32 = c as u32;
    (9 <= v && v <= 13) || v == 0x20 || v == 0x85 || v == 0xA0 || v == 0x1680 || (0x2000 <= v && v
        <= 0x200A) || v == 0x2028 || v == 0x2029 || v == 0x202F || v == 0x205F || v == 0x3000
}

pub open spec fn is_upper_ascii(c: char) -> bool {
    'A' <= c <= 'Z'
}

pub open spec fn is_lower_ascii(c: char) -> bool {
    'a' <= c <= 'z'
}

pub open spec fn is_decimal_digit(c: char) -> bool {
    '0' <= c <= '9'
}

pub open spec fn is_alphanumeric_ascii(c: char) -> bool {
    is_upper_ascii(c) || is_lower_ascii(c) || is_decimal_digit(c)
}

pub fn is_ascii_alphanumeric(c: char) -> (yes: bool)
    ensures
        yes == is_alphanumeric_ascii(c),
{
    ('A' <= c && c <= 'Z') || ('a' <= c && c <= 'z') || ('0' <= c && c <= '9')
}

/// The value of a hexadecimal digit, in either case.
pub open spec fn hex_value(c: char) -> Option<int> {
    if '0' <= c <= '9' {
        Some(c as int - '0' as int)
    } else if 'a' <= c <= 'f' {
        Some(c as int - 'a' as int + 10)
    } else if 'A' <= c <= 'F' {
        Some(c as int - 'A' as int + 10)
    } else {
        None
    }
}

pub fn hex_digit_value(c: char) -> (value: Option<u32>)
    ensures
        match value {
            Some(v) => hex_value(c) == Some(v as int) && v < 16,
            None => hex_value(c) is None,
        },
{
    if '0' <= c && c <= '9' {
        Some(c as u32 - '0' as u32)
    } else if 'a' <= c && c <= 'f' {
        Some(c as u32 - 'a' as u32 + 10)
    } else if 'A' <= c && c <= 'F' {
        Some(c as u32 - 'A' as u32 + 10)
    } else {
        None
    }
}

/// A character with `A` to `Z` mapped to `a` to `z`.
pub open spec fn lower_ascii(c: char) -> char {
    if is_upper_ascii(c) {
        (c as int + 32) as char
    } else {
        c
    }
}

pub open spec fn lower_ascii_text(text: Seq<char>) -> Seq<char> {
    text.map_values(|c: char| lower_ascii(c))
}

pub fn to_ascii_lowercase(c: char) -> (lower: char)
    ensures
        lower == lower_ascii(c),
{
    if 'A' <= c && c <= 'Z' {
        (c as u8 + 32) as char
    } else {
        c
    }
}

/// Equality of texts up to the case of ASCII letters.
pub open spec fn same_ignoring_case(a: Seq<char>, b: Seq<char>) -> bool {
    lower_ascii_text(a) == lower_ascii_text(b)
}

/// The texts held by a sequence of strings.
pub open spec fn texts(strings: Seq<String>) -> Seq<Seq<char>> {
    strings.map_values(|s: String| s@)
}

/// The text held by an optional string.
pub open spec fn text_of(string: Option<String>) -> Option<Seq<char>> {
    match string {
        Some(s) => Some(s@),
        None => None,
    }
}

/// The text held by an optional string slice.
pub open spec fn str_text(string: Option<&str>) -> Option<Seq<char>> {
    match string {
        Some(s) => Some(s@),
        None => None,
    }
}

pub fn as_str_option(string: &Option<String>) -> (slice: Option<&str>)
    ensures
        str_text(slice) == text_of(*string),
{
    match string {
        Some(s) => Some(s.as_str()),
        None => None,
    }
}

/// The characters of `text`, in order.
pub fn to_chars(text: &str) -> (chars: Vec<char>)
    ensures
        chars@ == text@,
{
    let mut chars: Vec<char> = Vec::new();
    for c in it: text.chars()
        invariant
            it.seq() == text@,
            chars@ == text@.take(it.index()),
    {
        chars.push(c);
    }
    chars
}

/// The string with the characters `chars[from..to]`.
pub fn from_chars(chars: &Vec<char>, from: usize, to: usize) -> (text: String)
    requires
        from <= to <= chars.len(),
    ensures
        text@ == chars@.subrange(from as int, to as int),
{
    let mut text = String::new();
    let mut i: usize = from;
    while i < to
        invariant
            from <= i <= to <= chars.len(),
            text@ == chars@.subrange(from as int, i as int),
        decreases to - i,
    {
        text.push(chars[i]);
        i += 1;
    }
    text
}

/// Whether two texts are equal.
pub fn same_text(a: &str, b: &str) -> (same: bool)
    ensures
        same == (a@ == b@),
{
    let x = to_chars(a);
    let y = to_chars(b);
    if x.len() != y.len() {
        return false;
    }
    let mut i: usize = 0;
    while i < x.len()
        invariant
            x@ == a@,
            y@ == b@,
            i <= x.len() == y.len(),
            forall|k: int| 0 <= k < i ==> x@[k] == y@[k],
        decreases x.len() - i,
    {
        if x[i] != y[i] {
            return false;
        }
        i += 1;
    }
    assert(a@ =~= b@);
    true
}

/// Whether two texts are equal up to the case of ASCII letters.
pub fn eq_ignore_ascii_case(a: &str, b: &str) -> (same: bool)
    ensures
        same == same_ignoring_case(a@, b@),
{
    let x = to_chars(a);
    let y = to_chars(b);
    let ghost la = lower_ascii_text(a@);
    let ghost lb = lower_ascii_text(b@);
    if x.len() != y.len() {
        assert(la.len() != lb.len());
        return false;
    }
    let mut i: usize = 0;
    while i < x.len()
        invariant
            x@ == a@,
            y@ == b@,
            la == lower_ascii_text(a@),
            lb == lower_ascii_text(b@),
            i <= x.len() == y.len(),
            forall|k: int| 0 <= k < i ==> la[k] == lb[k],
        decreases x.len() - i,
    {
        if to_ascii_lowercase(x[i]) != to_ascii_lowercase(y[i]) {
            assert(la[i as int] != lb[i as int]);
            return false;
        }
        i += 1;
    }
    assert(la =~= lb);
    true
}

/// Equality up to ASCII case is an equivalence: it is reflexive, symmetric and transitive.
pub proof fn lemma_same_ignoring_case_equivalence(a: Seq<char>, b: Seq<char>, c: Seq<char>)
    ensures
        same_ignoring_case(a, a),
        same_ignoring_case(a, b) ==> same_ignoring_case(b, a),
        same_ignoring_case(a, b) && same_ignoring_case(b, c) ==> same_ignoring_case(a, c),
{
}

/// `text` without its leading whitespace.
pub open spec fn trim_start(text: Seq<char>) -> Seq<char>
    decreases text.len(),
{
    if text.len() > 0 && is_space(text[0]) {
        trim_start(text.skip(1))
    } else {
        text
    }
}

/// `text` without its trailing whitespace.
pub open spec fn trim_end(text: Seq<char>) -> Seq<char>
    decreases text.len(),
{
    if text.len() > 0 && is_space(text.last()) {
        trim_end(text.drop_last())
    } else {
        text
    }
}

/// `text` without whitespace at either end.
pub open spec fn trimmed(text: Seq<char>) -> Seq<char> {
    trim_end(trim_start(text))
}

/// Whether a text is empty or whitespace throughout.
pub open spec fn is_blank(text: Seq<char>) -> bool {
    forall|i: int| 0 <= i < text.len() ==> is_space(#[trigger] text[i])
}

/// The part of `text` between its first and its last character that is not whitespace.
pub fn trim(text: &str) -> (part: &str)
    ensures
        part@ == trimmed(text@),
{
    let chars = to_chars(text);
    let mut from: usize = 0;
    assert(text@.skip(0) == text@);
    while from < chars.len() && is_whitespace(chars[from])
        invariant
            chars@ == text@,
            from <= chars.len(),
            trim_start(text@) == trim_start(text@.skip(from as int)),
        decreases chars.len() - from,
    {
        assert(text@.skip(from as int).skip(1) == text@.skip(from + 1));
        from += 1;
    }
    let ghost front = text@.skip(from as int);
    let mut to: usize = chars.len();
    assert(front.take(to - from) == front);
    while to > from && is_whitespace(chars[to - 1])
        invariant
            chars@ == text@,
            from <= to <= chars.len(),
            front == text@.skip(from as int),
            trim_end(front) == trim_end(front.take(to - from)),
        decreases to,
    {
        assert(front.take(to - from).drop_last() == front.take(to - from - 1));
        to -= 1;
    }
    text.substring_char(from, to)
}

pub fn blank(text: &str) -> (yes: bool)
    ensures
        yes == is_blank(text@),
{
    let chars = to_chars(text);
    let mut i: usize = 0;
    while i < chars.len()
        invariant
            chars@ == text@,
            i <= chars.len(),
            forall|k: int| 0 <= k < i ==> is_space(#[trigger] text@[k]),
        decreases chars.len() - i,
    {
        if !is_whitespace(chars[i]) {
            return false;
        }
        i += 1;
    }
    true
}

/// A text is blank exactly when nothing is left of it after trimming.
pub proof fn lemma_blank_trims_to_nothing(text: Seq<char>)
    ensures
        is_blank(text) <==> trimmed(text).len() == 0,
    decreases text.len(),
{
    if text.len() > 0 {
        if is_space(text[0]) {
            let rest = text.skip(1);
            lemma_blank_trims_to_nothing(rest);
            if is_blank(rest) {
                assert forall|i: int| 0 <= i < text.len() implies is_space(#[trigger] text[i]) by {
                    if i > 0 {
                        assert(text[i] == rest[i - 1]);
                    }
                }
            }
        } else {
            lemma_trim_end_keeps_first(text);
        }
    }
}

proof fn lemma_trim_end_keeps_first(text: Seq<char>)
    requires
        text.len() > 0,
        !is_space(text[0]),
    ensures
        trim_end(text).len() > 0,
    decreases text.len(),
{
    if is_space(text.last()) {
        lemma_trim_end_keeps_first(text.drop_last());
    }
}

/// Whether `part` stands in `whole` at position `i`.
pub open spec fn occurs_at(whole: Seq<char>, part: Seq<char>, i: int) -> bool {
    0 <= i && i + part.len() <= whole.len() && whole.subrange(i, i + part.len()) == part
}

/// Whether `part` stands somewhere in `whole`.
pub open spec fn occurs_in(whole: Seq<char>, part: Seq<char>) -> bool {
    exists|i: int| occurs_at(whole, part, i)
}

fn stands_at(whole: &Vec<char>, part: &Vec<char>, at: usize) -> (yes: bool)
    requires
        at <= whole.len(),
    ensures
        yes == occurs_at(whole@, part@, at as int),
{
    if part.len() > whole.len() - at {
        return false;
    }
    let mut i: usize = 0;
    while i < part.len()
        invariant
            at + part.len() <= whole.len(),
            i <= part.len(),
            forall|k: int| 0 <= k < i ==> whole@[at + k] == part@[k],
        decreases part.len() - i,
    {
        if whole[at + i] != part[i] {
            return false;
        }
        i += 1;
    }
    assert(whole@.subrange(at as int, at + part.len()) =~= part@);
    true
}

/// Whether `part` stands somewhere in `whole`.
pub fn contains(whole: &str, part: &str) -> (yes: bool)
    ensures
        yes == occurs_in(whole@, part@),
{
    let w = to_chars(whole);
    let p = to_chars(part);
    let mut i: usize = 0;
    while i < w.len()
        invariant
            w@ == whole@,
            p@ == part@,
            i <= w.len(),
            forall|k: int| 0 <= k < i ==> !occurs_at(whole@, part@, k),
        decreases w.len() - i,
    {
        if stands_at(&w, &p, i) {
            return true;
        }
        i += 1;
    }
    stands_at(&w, &p, i)
}

/// `text` with every occurrence of `pattern`, taken from the left and without
/// overlaps, replaced by `value`.
pub open spec fn replaced(text: Seq<char>, pattern: Seq<char>, value: Seq<char>) -> Seq<char>
    decreases text.len(),
{
    if pattern.len() == 0 || text.len() < pattern.len() {
        text
    } else if text.take(pattern.len() as int) == pattern {
        value + replaced(text.skip(pattern.len() as int), pattern, value)
    } else {
        seq![text[0]] + replaced(text.skip(1), pattern, value)
    }
}

/// `text` with every occurrence of the non-empty `pattern` replaced by `value`.
pub fn replace(text: &str, pattern: &str, value: &str) -> (result: String)
    requires
        pattern@.len() > 0,
    ensures
        result@ == replaced(text@, pattern@, value@),
{
    let t = to_chars(text);
    let p = to_chars(pattern);
    let mut result = String::new();
    let mut i: usize = 0;
    assert(text@.skip(0) == text@);
    while i < t.len()
        invariant
            t@ == text@,
            p@ == pattern@,
            p.len() > 0,
            i <= t.len(),
            replaced(text@, pattern@, value@) == result@ + replaced(
                text@.skip(i as int),
                pattern@,
                value@,
            ),
        decreases t.len() - i,
    {
        let ghost rest = text@.skip(i as int);
        if stands_at(&t, &p, i) {
            proof {
                assert(rest.take(p@.len() as int) == text@.subrange(i as int, i + p@.len()));
                assert(rest.skip(p@.len() as int) == text@.skip(i + p@.len()));
            }
            result.append(value);
            i += p.len();
        } else {
            proof {
                assert(rest.skip(1) == text@.skip(i + 1));
                if rest.len() >= p@.len() {
                    assert(rest.take(p@.len() as int) == text@.subrange(i as int, i + p@.len()));
                }
            }
            result.push(t[i]);
            i += 1;
        }
    }
    result
}

/// A text without the pattern is left as it is.
pub proof fn lemma_replaced_without_occurrence(
    text: Seq<char>,
    pattern: Seq<char>,
    value: Seq<char>,
)
    requires
        !occurs_in(text, pattern),
    ensures
        replaced(text, pattern, value) == text,
    decreases text.len(),
{
    if pattern.len() > 0 && text.len() >= pattern.len() {
        if text.take(pattern.len() as int) == pattern {
            assert(occurs_at(text, pattern, 0));
        } else {
            let rest = text.skip(1);
            assert forall|i: int| !occurs_at(rest, pattern, i) by {
                if occurs_at(rest, pattern, i) {
                    assert(text.subrange(i + 1, i + 1 + pattern.len()) == rest.subrange(
                        i,
                        i + pattern.len(),
                    ));
                    assert(occurs_at(text, pattern, i + 1));
                }
            }
            lemma_replaced_without_occurrence(rest, pattern, value);
        }
    }
}

/// The pieces of `text` between the separators, from left to right.
pub open spec fn pieces(text: Seq<char>, separator: char) -> Seq<Seq<char>>
    decreases text.len(),
{
    if text.len() == 0 {
        seq![Seq::empty()]
    } else {
        let before = pieces(text.drop_last(), separator);
        if text.last() == separator {
            before.push(Seq::empty())
        } else {
            before.drop_last().push(before.last().push(text.last()))
        }
    }
}

pub proof fn lemma_pieces_nonempty(text: Seq<char>, separator: char)
    ensures
        pieces(text, separator).len() > 0,
    decreases text.len(),
{
}

/// Splits `text` at every `separator`.
pub fn split(text: &str, separator: char) -> (parts: Vec<String>)
    ensures
        texts(parts@) == pieces(text@, separator),
        parts.len() > 0,
{
    let chars = to_chars(text);
    let mut parts: Vec<String> = Vec::new();
    let mut current = String::new();
    let mut i: usize = 0;
    while i < chars.len()
        invariant
            chars@ == text@,
            i <= chars.len(),
            texts(parts@).push(current@) == pieces(text@.take(i as int), separator),
        decreases chars.len() - i,
    {
        assert(text@.take(i + 1).drop_last() == text@.take(i as int));
        if chars[i] == separator {
            parts.push(current);
            current = String::new();
        } else {
            current.push(chars[i]);
        }
        i += 1;
    }
    parts.push(current);
    assert(text@.take(text@.len() as int) == text@);
    parts
}

/// `n` in decimal digits, without leading zeros.
pub open spec fn decimal(n: nat) -> Seq<char>
    decreases n,
{
    if n < 10 {
        seq![(n + 48) as char]
    } else {
        decimal(n / 10).push((n % 10 + 48) as char)
    }
}

/// `n` in decimal digits, with a minus sign if it is negative.
pub open spec fn signed_decimal(n: int) -> Seq<char> {
    if n < 0 {
        seq!['-'] + decimal((-n) as nat)
    } else {
        decimal(n as nat)
    }
}

fn push_decimal(out: &mut String, n: u64)
    ensures
        final(out)@ == old(out)@ + decimal(n as nat),
    decreases n,
{
    if n >= 10 {
        push_decimal(out, n / 10);
    }
    out.push(((n % 10) as u8 + 48) as char);
}

pub fn unsigned_to_text(n: u64) -> (text: String)
    ensures
        text@ == decimal(n as nat),
{
    let mut text = String::new();
    push_decimal(&mut text, n);
    text
}

pub fn signed_to_text(n: i64) -> (text: String)
    requires
        n > i64::MIN,
    ensures
        text@ == signed_decimal(n as int),
{
    let mut text = String::new();
    if n < 0 {
        text.push('-');
        push_decimal(&mut text, (-n) as u64);
    } else {
        push_decimal(&mut text, n as u64);
    }
    text
}

/// The number that a run of decimal digits stands for.
pub open spec fn digits_value(text: Seq<char>) -> nat
    decreases text.len(),
{
    if text.len() == 0 {
        0
    } else {
        digits_value(text.drop_last()) * 10 + (text.last() as int - 48) as nat
    }
}

/// Whether a text is one or more decimal digits.
pub open spec fn is_digits(text: Seq<char>) -> bool {
    text.len() > 0 && forall|i: int| 0 <= i < text.len() ==> is_decimal_digit(#[trigger] text[i])
}

/// A text without the plus sign that it may begin with.
pub open spec fn without_plus(text: Seq<char>) -> Seq<char> {
    if text.len() > 0 && text[0] == '+' {
        text.skip(1)
    } else {
        text
    }
}

/// The number below `limit` that `text` writes: an optional plus sign, then decimal digits only.
pub open spec fn unsigned_value(text: Seq<char>, limit: nat) -> Option<nat> {
    let digits = without_plus(text);
    if is_digits(digits) && digits_value(digits) < limit {
        Some(digits_value(digits))
    } else {
        None
    }
}

/// How many decimal digits a text begins with.
pub open spec fn digits_ahead(text: Seq<char>) -> nat
    decreases text.len(),
{
    if text.len() > 0 && is_decimal_digit(text[0]) {
        1 + digits_ahead(text.skip(1))
    } else {
        0
    }
}

/// What is wrong with a text that writes no number below `limit`, reading from the left: it
/// is empty, the digits up to a wrong character are too much, or the character is wrong.
pub open spec fn number_fault(text: Seq<char>, limit: nat) -> Seq<char> {
    let digits = without_plus(text);
    if text.len() == 0 {
        "cannot parse integer from empty string"@
    } else if digits_value(digits.take(digits_ahead(digits) as int)) >= limit {
        "number too large to fit in target type"@
    } else {
        "invalid digit found in string"@
    }
}

proof fn lemma_digits_ahead(text: Seq<char>, i: int)
    requires
        0 <= i <= text.len(),
        forall|k: int| 0 <= k < i ==> is_decimal_digit(#[trigger] text[k]),
    ensures
        i <= digits_ahead(text) <= text.len(),
        forall|k: int| 0 <= k < digits_ahead(text) ==> is_decimal_digit(#[trigger] text[k]),
        i < text.len() && !is_decimal_digit(text[i]) ==> digits_ahead(text) == i,
    decreases text.len(),
{
    if text.len() > 0 && is_decimal_digit(text[0]) {
        let rest = text.skip(1);
        lemma_digits_ahead(rest, if i > 0 { i - 1 } else { 0 });
        assert forall|k: int| 0 <= k < digits_ahead(text) implies is_decimal_digit(
            #[trigger] text[k],
        ) by {
            if k > 0 {
                assert(rest[k - 1] == text[k]);
            }
        }
    }
}

proof fn lemma_digits_value_grows(text: Seq<char>, i: int)
    requires
        0 <= i <= text.len(),
        forall|k: int| 0 <= k < text.len() ==> is_decimal_digit(#[trigger] text[k]),
    ensures
        digits_value(text.take(i)) <= digits_value(text),
    decreases text.len() - i,
{
    if i < text.len() {
        lemma_digits_value_grows(text, i + 1);
        assert(text.take(i + 1).drop_last() == text.take(i));
    } else {
        assert(text.take(i) == text);
    }
}

/// Reads an eight-bit unsigned number, or says what is wrong with the text.
pub fn parse_u8(text: &str) -> (outcome: Result<u8, &'static str>)
    ensures
        match outcome {
            Ok(value) => unsigned_value(text@, 256) == Some(value as nat),
            Err(words) => unsigned_value(text@, 256) is None && words@ == number_fault(text@, 256),
        },
{
    let chars = to_chars(text);
    let from: usize = if chars.len() > 0 && chars[0] == '+' {
        1
    } else {
        0
    };
    let ghost digits = without_plus(text@);
    assert(digits == text@.skip(from as int));
    if chars.len() == 0 {
        return Err("cannot parse integer from empty string");
    }
    if chars.len() == from {
        assert(digits.take(0) == Seq::<char>::empty());
        return Err("invalid digit found in string");
    }
    let mut value: u32 = 0;
    let mut i: usize = from;
    while i < chars.len()
        invariant
            chars@ == text@,
            from <= i <= chars.len(),
            chars@.len() > 0,
            digits == without_plus(text@),
            digits == text@.skip(from as int),
            value == digits_value(digits.take(i - from)),
            value < 256,
            forall|k: int| 0 <= k < i - from ==> is_decimal_digit(#[trigger] digits[k]),
        decreases chars.len() - i,
    {
        let c = chars[i];
        assert(digits[i - from] == c);
        if !('0' <= c && c <= '9') {
            proof {
                lemma_digits_ahead(digits, i - from);
            }
            return Err("invalid digit found in string");
        }
        let next: u32 = value * 10 + (c as u32 - 48);
        assert(digits.take(i - from + 1).drop_last() == digits.take(i - from));
        if next >= 256 {
            proof {
                lemma_digits_ahead(digits, i - from + 1);
                let run = digits.take(digits_ahead(digits) as int);
                lemma_digits_value_grows(run, i - from + 1);
                assert(run.take(i - from + 1) == digits.take(i - from + 1));
                if is_digits(digits) {
                    lemma_digits_value_grows(digits, i - from + 1);
                }
            }
            return Err("number too large to fit in target type");
        }
        value = next;
        i += 1;
    }
    assert(digits.take(digits.len() as int) == digits);
    Ok(value as u8)
}

/// The texts of `a` and `b`, one after the other.
pub fn cat2(a: &str, b: &str) -> (text: String)
    ensures
        text@ == a@ + b@,
{
    let mut text = a.to_owned();
    text.append(b);
    text
}

/// The texts of the arguments, one after the other.
pub fn cat3(a: &str, b: &str, c: &str) -> (text: String)
    ensures
        text@ == a@ + b@ + c@,
{
    let mut text = cat2(a, b);
    text.append(c);
    text
}

/// The texts of the arguments, one after the other.
pub fn cat4(a: &str, b: &str, c: &str, d: &str) -> (text: String)
    ensures
        text@ == a@ + b@ + c@ + d@,
{
    let mut text = cat3(a, b, c);
    text.append(d);
    text
}

/// The texts of the arguments, one after the other.
pub fn cat5(a: &str, b: &str, c: &str, d: &str, e: &str) -> (text: String)
    ensures
        text@ == a@ + b@ + c@ + d@ + e@,
{
    let mut text = cat4(a, b, c, d);
    text.append(e);
    text
}

/// Texts are equal up to case exactly when they are equally long and agree character by
/// character, where a letter from `A` to `Z` agrees with its small form.
pub proof fn lemma_case_is_ignored_letter_by_letter(a: &str, b: &str, same: bool)
    requires
        call_ensures(eq_ignore_ascii_case, (a, b), same),
    ensures
        same == same_ignoring_case(a@, b@),
        same <==> a@.len() == b@.len() && forall|i: int|
            0 <= i < a@.len() ==> (#[trigger] a@[i]) == b@[i] || ('A' <= a@[i] <= 'Z'
                && b@[i] as int == a@[i] as int + 32) || ('A' <= b@[i] <= 'Z' && a@[i] as int
                == b@[i] as int + 32),
{
    lemma_same_ignoring_case_by_letter(a@, b@);
}

/// Texts are equal up to case exactly when they are equally long and agree character by
/// character, where a letter from `A` to `Z` agrees with its small form.
pub proof fn lemma_same_ignoring_case_by_letter(a: Seq<char>, b: Seq<char>)
    ensures
        same_ignoring_case(a, b) <==> a.len() == b.len() && forall|i: int|
            0 <= i < a.len() ==> (#[trigger] a[i]) == b[i] || ('A' <= a[i] <= 'Z' && b[i] as int
                == a[i] as int + 32) || ('A' <= b[i] <= 'Z' && a[i] as int == b[i] as int + 32),
{
    let la = lower_ascii_text(a);
    let lb = lower_ascii_text(b);
    if same_ignoring_case(a, b) {
        assert(la.len() == lb.len());
        assert forall|i: int| 0 <= i < a.len() implies (#[trigger] a[i]) == b[i] || ('A' <= a[i]
            <= 'Z' && b[i] as int == a[i] as int + 32) || ('A' <= b[i] <= 'Z' && a[i] as int
            == b[i] as int + 32) by {
            assert(la[i] == lb[i]);
            lemma_lower_ascii(a[i]);
            lemma_lower_ascii(b[i]);
        }
    }
    if a.len() == b.len() && forall|i: int|
        0 <= i < a.len() ==> (#[trigger] a[i]) == b[i] || ('A' <= a[i] <= 'Z' && b[i] as int
            == a[i] as int + 32) || ('A' <= b[i] <= 'Z' && a[i] as int == b[i] as int + 32) {
        assert forall|i: int| 0 <= i < a.len() implies la[i] == lb[i] by {
            lemma_lower_ascii(a[i]);
            lemma_lower_ascii(b[i]);
            assert(a[i] == b[i] || a[i] != b[i]);
        }
        assert(la =~= lb);
    }
}

proof fn lemma_lower_ascii(c: char)
    ensures
        'A' <= c <= 'Z' ==> lower_ascii(c) as int == c as int + 32,
        !('A' <= c <= 'Z') ==> lower_ascii(c) == c,
{
}

/// A text stands in another exactly when the other is made of it, something before it and
/// something behind it.
pub proof fn lemma_contained_text_has_surroundings(whole: &str, part: &str, yes: bool)
    requires
        call_ensures(contains, (whole, part), yes),
    ensures
        yes == occurs_in(whole@, part@),
        forall|before: Seq<char>, after: Seq<char>|
            whole@ == #[trigger] (before + part@ + after) ==> yes,
        yes ==> exists|before: Seq<char>, after: Seq<char>|
            whole@ == #[trigger] (before + part@ + after),
{
    assert forall|before: Seq<char>, after: Seq<char>|
        whole@ == #[trigger] (before + part@ + after) implies yes by {
        assert(whole@.subrange(before.len() as int, before.len() as int + part@.len()) =~= part@);
        assert(occurs_at(whole@, part@, before.len() as int));
    }
    if yes {
        let i = choose|i: int| occurs_at(whole@, part@, i);
        let before = whole@.take(i);
        let after = whole@.skip(i + part@.len());
        assert(whole@ =~= before + part@ + after);
    }
}

/// A text without the separator is one piece. What stands behind the last separator is the
/// last piece, and the pieces of what stands before it are the others.
pub proof fn lemma_pieces_stand_between_separators(
    before: Seq<char>,
    piece: Seq<char>,
    separator: char,
)
    requires
        forall|i: int| 0 <= i < piece.len() ==> (#[trigger] piece[i]) != separator,
    ensures
        pieces(piece, separator) == seq![piece],
        pieces(before + seq![separator]
            + piece, separator) == pieces(before, separator).push(piece),
    decreases piece.len(),
{
    let whole = before + seq![separator] + piece;
    if piece.len() == 0 {
        assert(piece =~= Seq::empty());
        assert(whole.drop_last() =~= before);
        assert(pieces(piece, separator) =~= seq![piece]);
    } else {
        let rest = piece.drop_last();
        assert forall|i: int| 0 <= i < rest.len() implies (#[trigger] rest[i]) != separator by {
            assert(rest[i] == piece[i]);
        }
        lemma_pieces_stand_between_separators(before, rest, separator);
        assert(piece[piece.len() - 1] != separator);
        assert(whole.drop_last() =~= before + seq![separator] + rest);
        assert(rest.push(piece.last()) =~= piece);
        assert(pieces(piece, separator) =~= seq![piece]);
        assert(pieces(before, separator).push(rest).drop_last() =~= pieces(before, separator));
    }
}

/// What trimming takes away is white space at either end, and it leaves none there.
pub proof fn lemma_trimming_takes_away_the_space_around(text: Seq<char>) -> (ends: (
    Seq<char>,
    Seq<char>,
))
    ensures
        text == ends.0 + trimmed(text) + ends.1,
        is_blank(ends.0),
        is_blank(ends.1),
        trimmed(text).len() > 0 ==> !is_space(trimmed(text)[0]) && !is_space(trimmed(text).last()),
{
    let a = lemma_trim_start_takes_space(text);
    let middle = trim_start(text);
    let b = lemma_trim_end_takes_space(middle);
    assert(text =~= a + trimmed(text) + b);
    if trimmed(text).len() > 0 {
        assert(trimmed(text)[0] == middle[0]);
    }
    (a, b)
}

proof fn lemma_trim_start_takes_space(text: Seq<char>) -> (front: Seq<char>)
    ensures
        text == front + trim_start(text),
        is_blank(front),
        trim_start(text).len() > 0 ==> !is_space(trim_start(text)[0]),
    decreases text.len(),
{
    if text.len() > 0 && is_space(text[0]) {
        let rest = lemma_trim_start_takes_space(text.skip(1));
        let front = seq![text[0]] + rest;
        assert(text =~= seq![text[0]] + text.skip(1));
        assert(front + trim_start(text) =~= seq![text[0]] + (rest + trim_start(text.skip(1))));
        assert forall|i: int| 0 <= i < front.len() implies is_space(#[trigger] front[i]) by {
            if i > 0 {
                assert(front[i] == rest[i - 1]);
            }
        }
        front
    } else {
        assert(text =~= Seq::empty() + text);
        Seq::empty()
    }
}

proof fn lemma_trim_end_takes_space(text: Seq<char>) -> (back: Seq<char>)
    ensures
        text == trim_end(text) + back,
        is_blank(back),
        trim_end(text).len() > 0 ==> !is_space(trim_end(text).last()),
    decreases text.len(),
{
    if text.len() > 0 && is_space(text.last()) {
        let rest = lemma_trim_end_takes_space(text.drop_last());
        let back = rest.push(text.last());
        assert(text =~= text.drop_last().push(text.last()));
        assert(trim_end(text) + back =~= (trim_end(text.drop_last()) + rest).push(text.last()));
        back
    } else {
        assert(text =~= text + Seq::empty());
        Seq::empty()
    }
}

/// The first occurrence of a pattern gives way to the value, and the rest is treated alike.
pub proof fn lemma_first_occurrence_is_replaced(
    before: Seq<char>,
    pattern: Seq<char>,
    after: Seq<char>,
    value: Seq<char>,
)
    requires
        pattern.len() > 0,
        forall|i: int| 0 <= i < before.len() ==> !occurs_at(before + pattern + after, pattern, i),
    ensures
        replaced(before + pattern + after, pattern, value) == before + value + replaced(
            after,
            pattern,
            value,
        ),
    decreases before.len(),
{
    let text = before + pattern + after;
    if before.len() == 0 {
        assert(text.take(pattern.len() as int) =~= pattern);
        assert(text.skip(pattern.len() as int) =~= after);
        assert(before + value =~= value);
    } else {
        let rest = before.skip(1);
        assert(text.skip(1) =~= rest + pattern + after);
        assert(!occurs_at(text, pattern, 0));
        assert(text.subrange(0, pattern.len() as int) =~= text.take(pattern.len() as int));
        assert forall|i: int| 0 <= i < rest.len() implies !occurs_at(
            rest + pattern + after,
            pattern,
            i,
        ) by {
            if occurs_at(rest + pattern + after, pattern, i) {
                assert(text.subrange(i + 1, i + 1 + pattern.len()) =~= (rest + pattern
                    + after).subrange(i, i + pattern.len()));
                assert(occurs_at(text, pattern, i + 1));
            }
        }
        lemma_first_occurrence_is_replaced(rest, pattern, after, value);
        assert(before =~= seq![before[0]] + rest);
        assert(text[0] == before[0]);
        assert(before + value + replaced(after, pattern, value) =~= seq![before[0]] + (rest + value
            + replaced(after, pattern, value)));
    }
}

/// The decimal digits of a number stand for that number, and do not begin with a zero unless
/// they are one.
pub proof fn lemma_decimal_stands_for_its_number(n: nat)
    ensures
        is_digits(decimal(n)),
        digits_value(decimal(n)) == n,
        decimal(n).len() > 1 ==> decimal(n)[0] != '0',
        n > 0 ==> decimal(n)[0] != '0',
    decreases n,
{
    if n < 10 {
        let text = decimal(n);
        assert(text.drop_last() =~= Seq::empty());
        assert(digits_value(text.drop_last()) == 0);
    } else {
        lemma_decimal_stands_for_its_number(n / 10);
        let text = decimal(n);
        assert(text.drop_last() =~= decimal(n / 10));
        assert forall|i: int| 0 <= i < text.len() implies is_decimal_digit(#[trigger] text[i]) by {
            if i < text.len() - 1 {
                assert(text[i] == decimal(n / 10)[i]);
            }
        }
    }
}

/// A digit behind other digits adds its value to ten times theirs.
pub proof fn lemma_digits_have_place_value(digits: Seq<char>, digit: char)
    requires
        '0' <= digit <= '9',
    ensures
        digits_value(Seq::<char>::empty()) == 0,
        digits_value(digits.push(digit)) == digits_value(digits) * 10 + (digit as int - '0' as int),
{
    assert(digits.push(digit).drop_last() =~= digits);
}

/// What stands before the first character that is no white space.
pub(crate) proof fn lemma_leading_space(text: Seq<char>) -> (front: Seq<char>)
    ensures
        text == front + trim_start(text),
        is_blank(front),
        trim_start(text).len() > 0 ==> !is_space(trim_start(text)[0]),
{
    lemma_trim_start_takes_space(text)
}

/// A separator makes for two pieces at least.
pub(crate) proof fn lemma_more_pieces(before: Seq<char>, after: Seq<char>, separator: char)
    ensures
        pieces(before + seq![separator] + after, separator).len() >= 2,
    decreases after.len(),
{
    let whole = before + seq![separator] + after;
    if after.len() == 0 {
        assert(whole.drop_last() =~= before);
        lemma_pieces_nonempty(before, separator);
    } else {
        lemma_more_pieces(before, after.drop_last(), separator);
        assert(whole.drop_last() =~= before + seq![separator] + after.drop_last());
    }
}

/// Texts in a row, with a separator between them.
pub open spec fn rejoined(parts: Seq<Seq<char>>, separator: char) -> Seq<char>
    decreases parts.len(),
{
    if parts.len() == 0 {
        Seq::empty()
    } else if parts.len() == 1 {
        parts[0]
    } else {
        rejoined(parts.drop_last(), separator) + seq![separator] + parts.last()
    }
}

proof fn lemma_rejoined(text: Seq<char>, separator: char)
    ensures
        pieces(text, separator).len() > 0,
        rejoined(pieces(text, separator), separator) == text,
    decreases text.len(),
{
    if text.len() == 0 {
        assert(text =~= Seq::empty());
    } else {
        let rest = text.drop_last();
        let before = pieces(rest, separator);
        let after = pieces(text, separator);
        lemma_rejoined(rest, separator);
        assert(text =~= rest.push(text.last()));
        if text.last() == separator {
            assert(after.drop_last() =~= before);
            assert(rejoined(after, separator) =~= rest + seq![separator] + Seq::empty());
        } else {
            let grown = before.last().push(text.last());
            assert(after == before.drop_last().push(grown));
            if before.len() == 1 {
                assert(rejoined(after, separator) =~= grown);
            } else {
                assert(after.drop_last() =~= before.drop_last());
                assert(rejoined(after, separator) =~= rejoined(before, separator).push(
                    text.last(),
                ));
            }
        }
    }
}

/// A text with four pieces is made of these, with separators between them.
pub(crate) proof fn lemma_four_pieces(text: Seq<char>, separator: char)
    requires
        pieces(text, separator).len() == 4,
    ensures
        ({
            let parts = pieces(text, separator);
            text == parts[0] + seq![separator] + parts[1] + seq![separator] + parts[2] + seq![
                separator,
            ] + parts[3]
        }),
{
    lemma_rejoined(text, separator);
    let parts = pieces(text, separator);
    reveal_with_fuel(rejoined, 5);
    assert(parts.drop_last().last() == parts[2]);
    assert(parts.drop_last().drop_last().last() == parts[1]);
    assert(parts.drop_last().drop_last().drop_last()[0] == parts[0]);
}

/// Taking texts apart at a separator undoes putting it between them.
pub proof fn lemma_rejoined_texts_come_apart(parts: Seq<Seq<char>>, separator: char)
    requires
        parts.len() > 0,
        forall|i: int, k: int|
            0 <= i < parts.len() && 0 <= k < parts[i].len() ==> (#[trigger] parts[i][k])
                != separator,
    ensures
        pieces(rejoined(parts, separator), separator) == parts,
    decreases parts.len(),
{
    if parts.len() == 1 {
        assert forall|k: int| 0 <= k < parts[0].len() implies (#[trigger] parts[0][k])
            != separator by {}
        lemma_pieces_stand_between_separators(Seq::empty(), parts[0], separator);
        assert(seq![parts[0]] =~= parts);
    } else {
        let rest = parts.drop_last();
        assert forall|i: int, k: int|
            0 <= i < rest.len() && 0 <= k < rest[i].len() implies (#[trigger] rest[i][k])
            != separator by {
            assert(rest[i] == parts[i]);
            assert(parts[i][k] != separator);
        }
        lemma_rejoined_texts_come_apart(rest, separator);
        let last = parts.last();
        assert forall|k: int| 0 <= k < last.len() implies (#[trigger] last[k]) != separator by {
            assert(parts[parts.len() - 1][k] != separator);
        }
        lemma_pieces_stand_between_separators(rejoined(rest, separator), last, separator);
        assert(rest.push(last) =~= parts);
    }
}

/// Texts that are not empty and hold no separator, once put together, neither begin nor end
/// with a separator, and have no two of them side by side.
pub(crate) proof fn lemma_rejoined_has_single_separators(parts: Seq<Seq<char>>, separator: char)
    requires
        parts.len() > 0,
        forall|i: int| 0 <= i < parts.len() ==> (#[trigger] parts[i]).len() > 0,
        forall|i: int, k: int|
            0 <= i < parts.len() && 0 <= k < parts[i].len() ==> (#[trigger] parts[i][k])
                != separator,
    ensures
        ({
            let text = rejoined(parts, separator);
            &&& text.len() > 0
            &&& text[0] != separator
            &&& text.last() != separator
            &&& forall|k: int|
                0 <= k < text.len() - 1 ==> !((#[trigger] text[k]) == separator && text[k + 1]
                    == separator)
        }),
    decreases parts.len(),
{
    let text = rejoined(parts, separator);
    let last = parts.last();
    assert(parts[parts.len() - 1] == last);
    assert forall|k: int| 0 <= k < last.len() implies (#[trigger] last[k]) != separator by {
        assert(parts[parts.len() - 1][k] != separator);
    }
    if parts.len() > 1 {
        let rest = parts.drop_last();
        assert forall|i: int| 0 <= i < rest.len() implies (#[trigger] rest[i]).len() > 0 by {
            assert(rest[i] == parts[i]);
        }
        assert forall|i: int, k: int|
            0 <= i < rest.len() && 0 <= k < rest[i].len() implies (#[trigger] rest[i][k])
            != separator by {
            assert(rest[i] == parts[i]);
            assert(parts[i][k] != separator);
        }
        lemma_rejoined_has_single_separators(rest, separator);
        let front = rejoined(rest, separator);
        assert(text =~= front + seq![separator] + last);
        assert(text.last() == last[last.len() - 1]);
        assert forall|k: int| 0 <= k < text.len() - 1 implies !((#[trigger] text[k]) == separator
            && text[k + 1] == separator) by {
            if k + 1 < front.len() {
                assert(text[k] == front[k] && text[k + 1] == front[k + 1]);
            } else if k + 1 == front.len() {
                assert(text[k] == front.last());
            } else if k == front.len() {
                assert(text[k + 1] == last[0]);
            } else {
                assert(text[k] == last[k - front.len() - 1]);
            }
        }
    }
}

/// The characters that count as white space, by their numbers.
pub proof fn lemma_white_space(c: char, yes: bool)
    requires
        call_ensures(is_whitespace, (c,), yes),
    ensures
        yes <==> {
            let n = c as int;
            n == 9 || n == 10 || n == 11 || n == 12 || n == 13 || n == 32 || n == 133 || n == 160
                || n == 5760 || 8192 <= n <= 8202 || n == 8232 || n == 8233 || n == 8239
                    || n == 8287
                || n == 12288
        },
{
}

/// A number in decimal digits is read as that number exactly when it is below 256.
pub proof fn lemma_small_numbers_are_read(n: nat, text: &str, outcome: Result<u8, &'static str>)
    requires
        call_ensures(parse_u8, (text,), outcome),
        text@ == decimal(n),
    ensures
        outcome is Ok <==> n < 256,
        outcome is Ok ==> outcome->Ok_0 == n,
{
    lemma_decimal_stands_for_its_number(n);
    assert(is_decimal_digit(text@[0]));
}

/// A negative number has a minus sign before the digits of its opposite.
pub proof fn lemma_negative_numbers_have_a_sign(n: i64, text: String)
    requires
        n > i64::MIN,
        call_ensures(signed_to_text, (n,), text),
    ensures
        n >= 0 ==> text@ == decimal(n as nat),
        n < 0 ==> text@ == seq!['-'] + decimal((0 - n) as nat),
{
}

} // verus!

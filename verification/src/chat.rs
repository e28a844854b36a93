//! Legacy formatting codes in text, and the JSON text components they stand for.
use crate::json::{self, add_entry, json_bool, json_list, json_object, json_text, JsonView};
use crate::text::{self, cat2, from_chars, hex_digit_value, to_ascii_lowercase, to_chars};
use vstd::prelude::*;
use vstd::string::*;

verus! {

/// How a run of text looks.
pub struct LegacyStyle {
    pub color: Option<String>,
    pub obfuscated: bool,
    pub bold: bool,
    pub strikethrough: bool,
    pub underlined: bool,
    pub italic: bool,
}

/// The contents of a [`LegacyStyle`].
pub struct StyleView {
    pub color: Option<Seq<char>>,
    pub obfuscated: bool,
    pub bold: bool,
    pub strikethrough: bool,
    pub underlined: bool,
    pub italic: bool,
}

impl View for LegacyStyle {
    type V = StyleView;

    open spec fn view(&self) -> StyleView {
        StyleView {
            color: text::text_of(self.color),
            obfuscated: self.obfuscated,
            bold: self.bold,
            strikethrough: self.strikethrough,
            underlined: self.underlined,
            italic: self.italic,
        }
    }
}

/// The style of text without any codes, but for its color.
pub open spec fn colored(color: Option<Seq<char>>) -> StyleView {
    StyleView {
        color,
        obfuscated: false,
        bold: false,
        strikethrough: false,
        underlined: false,
        italic: false,
    }
}

impl LegacyStyle {
    fn with_color(color: Option<String>) -> (style: Self)
        ensures
            style@ == colored(text::text_of(color)),
    {
        LegacyStyle {
            color,
            obfuscated: false,
            bold: false,
            strikethrough: false,
            underlined: false,
            italic: false,
        }
    }
}

impl Clone for LegacyStyle {
    fn clone(&self) -> (copy: Self)
        ensures
            copy@ == self@,
    {
        let color = match &self.color {
            Some(color) => Some(color.clone()),
            None => None,
        };
        LegacyStyle {
            color,
            obfuscated: self.obfuscated,
            bold: self.bold,
            strikethrough: self.strikethrough,
            underlined: self.underlined,
            italic: self.italic,
        }
    }
}

impl Default for LegacyStyle {
    fn default() -> (style: Self)
        ensures
            style@ == colored(None),
    {
        LegacyStyle::with_color(None)
    }
}

/// Text in one style.
pub struct TextRun {
    pub text: String,
    pub style: LegacyStyle,
}

/// The contents of a [`TextRun`].
pub struct RunView {
    pub text: Seq<char>,
    pub style: StyleView,
}

impl View for TextRun {
    type V = RunView;

    open spec fn view(&self) -> RunView {
        RunView { text: self.text@, style: self.style@ }
    }
}

pub open spec fn run_views(runs: Seq<TextRun>) -> Seq<RunView> {
    runs.map_values(|run: TextRun| run@)
}

/// Whether a character introduces a formatting code.
pub open spec fn is_marker(c: char) -> bool {
    c == '&' || c == '\u{A7}'
}

/// The color that a code letter stands for.
pub open spec fn color_name(code: char) -> Option<Seq<char>> {
    if code == '0' {
        Some("black"@)
    } else if code == '1' {
        Some("dark_blue"@)
    } else if code == '2' {
        Some("dark_green"@)
    } else if code == '3' {
        Some("dark_aqua"@)
    } else if code == '4' {
        Some("dark_red"@)
    } else if code == '5' {
        Some("dark_purple"@)
    } else if code == '6' {
        Some("gold"@)
    } else if code == '7' {
        Some("gray"@)
    } else if code == '8' {
        Some("dark_gray"@)
    } else if code == '9' {
        Some("blue"@)
    } else if code == 'a' {
        Some("green"@)
    } else if code == 'b' {
        Some("aqua"@)
    } else if code == 'c' {
        Some("red"@)
    } else if code == 'd' {
        Some("light_purple"@)
    } else if code == 'e' {
        Some("yellow"@)
    } else if code == 'f' {
        Some("white"@)
    } else {
        None
    }
}

fn legacy_color(code: char) -> (name: Option<&'static str>)
    ensures
        match name {
            Some(n) => color_name(code) == Some(n@),
            None => color_name(code) is None,
        },
{
    if code == '0' {
        Some("black")
    } else if code == '1' {
        Some("dark_blue")
    } else if code == '2' {
        Some("dark_green")
    } else if code == '3' {
        Some("dark_aqua")
    } else if code == '4' {
        Some("dark_red")
    } else if code == '5' {
        Some("dark_purple")
    } else if code == '6' {
        Some("gold")
    } else if code == '7' {
        Some("gray")
    } else if code == '8' {
        Some("dark_gray")
    } else if code == '9' {
        Some("blue")
    } else if code == 'a' {
        Some("green")
    } else if code == 'b' {
        Some("aqua")
    } else if code == 'c' {
        Some("red")
    } else if code == 'd' {
        Some("light_purple")
    } else if code == 'e' {
        Some("yellow")
    } else if code == 'f' {
        Some("white")
    } else {
        None
    }
}

/// The style after a format code: one more property, or none at all after a reset.
pub open spec fn formatted(style: StyleView, code: char) -> Option<StyleView> {
    if code == 'k' {
        Some(StyleView { obfuscated: true, ..style })
    } else if code == 'l' {
        Some(StyleView { bold: true, ..style })
    } else if code == 'm' {
        Some(StyleView { strikethrough: true, ..style })
    } else if code == 'n' {
        Some(StyleView { underlined: true, ..style })
    } else if code == 'o' {
        Some(StyleView { italic: true, ..style })
    } else if code == 'r' {
        Some(colored(None))
    } else {
        None
    }
}

fn apply_legacy_format(style: &mut LegacyStyle, code: char) -> (known: bool)
    ensures
        known <==> formatted(old(style)@, code) is Some,
        known ==> formatted(old(style)@, code) == Some(final(style)@),
        !known ==> final(style)@ == old(style)@,
{
    if code == 'k' {
        style.obfuscated = true;
    } else if code == 'l' {
        style.bold = true;
    } else if code == 'm' {
        style.strikethrough = true;
    } else if code == 'n' {
        style.underlined = true;
    } else if code == 'o' {
        style.italic = true;
    } else if code == 'r' {
        *style = LegacyStyle::with_color(None);
    } else {
        return false;
    }
    true
}

pub open spec fn is_hex(c: char) -> bool {
    text::hex_value(c) is Some
}

/// The color of the form `&#rrggbb` at position `i`.
pub open spec fn short_hex_at(chars: Seq<char>, i: int) -> Option<Seq<char>> {
    if i + 8 <= chars.len() && chars[i + 1] == '#' && forall|k: int|
        2 <= k < 8 ==> is_hex(#[trigger] chars[i + k]) {
        Some("#"@ + chars.subrange(i + 2, i + 8))
    } else {
        None
    }
}

/// Whether the pair `k` of the form below is a marker and a hexadecimal digit.
pub open spec fn digit_pair_at(chars: Seq<char>, i: int, k: int) -> bool {
    is_marker(chars[i + 2 + 2 * k]) && is_hex(chars[i + 3 + 2 * k])
}

/// The color of the form `&x&r&r&g&g&b&b` at position `i`.
pub open spec fn long_hex_at(chars: Seq<char>, i: int) -> Option<Seq<char>> {
    if i + 14 <= chars.len() && text::lower_ascii(chars[i + 1]) == 'x' && forall|k: int|
        0 <= k < 6 ==> #[trigger] digit_pair_at(chars, i, k) {
        Some("#"@ + Seq::new(6, |k: int| chars[i + 3 + 2 * k]))
    } else {
        None
    }
}

/// The color that is spelled out in hexadecimal at position `i`, and how many characters it takes.
pub open spec fn hex_color_at(chars: Seq<char>, i: int) -> Option<(Seq<char>, int)> {
    if short_hex_at(chars, i) is Some {
        Some((short_hex_at(chars, i)->0, 8))
    } else if long_hex_at(chars, i) is Some {
        Some((long_hex_at(chars, i)->0, 14))
    } else {
        None
    }
}

fn parse_hex_color(chars: &Vec<char>, index: usize) -> (color: Option<(String, usize)>)
    requires
        index + 1 < chars.len(),
        is_marker(chars@[index as int]),
    ensures
        match color {
            Some((name, consumed)) => hex_color_at(chars@, index as int) == Some(
                (name@, consumed as int),
            ) && index + consumed <= chars.len(),
            None => hex_color_at(chars@, index as int) is None,
        },
{
    let ghost s = chars@;
    let ghost i = index as int;
    if chars[index + 1] == '#' {
        if chars.len() - index < 8 {
            return None;
        }
        let mut k: usize = 2;
        while k < 8
            invariant
                2 <= k <= 8,
                s == chars@,
                i == index,
                index + 8 <= chars.len(),
                s[i + 1] == '#',
                text::lower_ascii('#') != 'x',
                forall|j: int| 2 <= j < k ==> is_hex(#[trigger] s[i + j]),
            decreases 8 - k,
        {
            if hex_digit_value(chars[index + k]).is_none() {
                return None;
            }
            k += 1;
        }
        let digits = from_chars(chars, index + 2, index + 8);
        return Some((cat2("#", digits.as_str()), 8));
    }
    if to_ascii_lowercase(chars[index + 1]) != 'x' {
        return None;
    }
    if chars.len() - index < 14 {
        return None;
    }
    let mut digits = String::new();
    let mut k: usize = 0;
    while k < 6
        invariant
            k <= 6,
            s == chars@,
            i == index,
            index + 14 <= chars.len(),
            s[i + 1] != '#',
            text::lower_ascii(s[i + 1]) == 'x',
            digits@ == Seq::new(k as nat, |j: int| s[i + 3 + 2 * j]),
            forall|j: int|
                0 <= j < k ==> #[trigger] digit_pair_at(s, i, j),
        decreases 6 - k,
    {
        let separator = chars[index + 2 + k * 2];
        let digit = chars[index + 3 + k * 2];
        if separator != '&' && separator != '\u{A7}' {
            assert(!digit_pair_at(s, i, k as int));
            return None;
        }
        if hex_digit_value(digit).is_none() {
            assert(!digit_pair_at(s, i, k as int));
            return None;
        }
        digits.push(digit);
        k += 1;
    }
    Some((cat2("#", digits.as_str()), 14))
}

/// The code at position `i`, if there is one: the style after it and how many characters it takes.
pub open spec fn code_at(chars: Seq<char>, i: int, style: StyleView) -> Option<(StyleView, int)> {
    if !(is_marker(chars[i]) && i + 1 < chars.len()) {
        None
    } else if hex_color_at(chars, i) is Some {
        match hex_color_at(chars, i) {
            Some((color, n)) => Some((colored(Some(color)), n)),
            None => None,
        }
    } else if color_name(text::lower_ascii(chars[i + 1])) is Some {
        Some((colored(color_name(text::lower_ascii(chars[i + 1]))), 2))
    } else if formatted(style, text::lower_ascii(chars[i + 1])) is Some {
        Some((formatted(style, text::lower_ascii(chars[i + 1]))->0, 2))
    } else {
        None
    }
}

/// The run that collected text makes, if any was collected.
pub open spec fn finished(buffer: Seq<char>, style: StyleView) -> Seq<RunView> {
    if buffer.len() == 0 {
        Seq::empty()
    } else {
        seq![RunView { text: buffer, style }]
    }
}

/// The runs of the text from position `i` on, where `buffer` was already collected in `style`.
pub open spec fn runs_from(
    chars: Seq<char>,
    i: int,
    style: StyleView,
    buffer: Seq<char>,
) -> Seq<RunView>
    decreases chars.len() - i,
{
    if i >= chars.len() || i < 0 {
        finished(buffer, style)
    } else {
        match code_at(chars, i, style) {
            Some((next, n)) => if n > 0 {
                finished(buffer, style) + runs_from(chars, i + n, next, Seq::empty())
            } else {
                Seq::empty()
            },
            None => runs_from(chars, i + 1, style, buffer.push(chars[i])),
        }
    }
}

/// The runs that a text with formatting codes stands for.
pub open spec fn runs_of(text: Seq<char>) -> Seq<RunView> {
    runs_from(text, 0, colored(None), Seq::empty())
}

fn finish_run(runs: &mut Vec<TextRun>, buffer: String, style: LegacyStyle)
    ensures
        run_views(final(runs)@) == run_views(old(runs)@) + finished(buffer@, style@),
{
    if !buffer.as_str().is_empty() {
        runs.push(TextRun { text: buffer, style });
    }
}

/// Takes a text with formatting codes apart into runs of one style each.
pub fn legacy_runs(text: &str) -> (runs: Vec<TextRun>)
    ensures
        run_views(runs@) == runs_of(text@),
{
    let chars = to_chars(text);
    let mut runs: Vec<TextRun> = Vec::new();
    let mut style = LegacyStyle::default();
    let mut buffer = String::new();
    let mut index: usize = 0;
    while index < chars.len()
        invariant
            chars@ == text@,
            index <= chars.len(),
            run_views(runs@) + runs_from(text@, index as int, style@, buffer@) == runs_of(text@),
        decreases chars.len() - index,
    {
        let character = chars[index];
        if (character == '&' || character == '\u{A7}') && chars.len() - index > 1 {
            match parse_hex_color(&chars, index) {
                Some((color, consumed)) => {
                    finish_run(&mut runs, buffer, style);
                    style = LegacyStyle::with_color(Some(color));
                    buffer = String::new();
                    index += consumed;
                    continue ;
                },
                None => {},
            }
            let code = to_ascii_lowercase(chars[index + 1]);
            match legacy_color(code) {
                Some(color) => {
                    finish_run(&mut runs, buffer, style);
                    style = LegacyStyle::with_color(Some(color.to_owned()));
                    buffer = String::new();
                    index += 2;
                    continue ;
                },
                None => {},
            }
            let previous_style = style.clone();
            if apply_legacy_format(&mut style, code) {
                finish_run(&mut runs, buffer, previous_style);
                buffer = String::new();
                index += 2;
                continue ;
            }
        }
        buffer.push(character);
        index += 1;
    }
    finish_run(&mut runs, buffer, style);
    runs
}

/// The JSON of one run: its text, and the properties that it has.
pub open spec fn run_json(run: RunView) -> Map<Seq<char>, JsonView> {
    let yes = JsonView::Bool(true);
    let m0 = Map::<Seq<char>, JsonView>::empty().insert("text"@, JsonView::Text(run.text));
    let m1 = match run.style.color {
        Some(color) => m0.insert("color"@, JsonView::Text(color)),
        None => m0,
    };
    let m2 = if run.style.obfuscated {
        m1.insert("obfuscated"@, yes)
    } else {
        m1
    };
    let m3 = if run.style.bold {
        m2.insert("bold"@, yes)
    } else {
        m2
    };
    let m4 = if run.style.strikethrough {
        m3.insert("strikethrough"@, yes)
    } else {
        m3
    };
    let m5 = if run.style.underlined {
        m4.insert("underlined"@, yes)
    } else {
        m4
    };
    if run.style.italic {
        m5.insert("italic"@, yes)
    } else {
        m5
    }
}

fn text_component(run: TextRun) -> (json: serde_json::Value)
    ensures
        json::contents(json) == JsonView::Object(run_json(run@)),
{
    proof {
        reveal_strlit("text");
        reveal_strlit("color");
        reveal_strlit("obfuscated");
        reveal_strlit("bold");
        reveal_strlit("strikethrough");
        reveal_strlit("underlined");
        reveal_strlit("italic");
        assert("text"@.len() == 4 && "color"@.len() == 5 && "obfuscated"@.len() == 10 &&
            "bold"@.len() == 4 && "strikethrough"@.len() == 13 && "underlined"@.len() == 10 &&
            "italic"@.len() == 6);
        assert("text"@[0] != "bold"@[0]);
        assert("obfuscated"@[0] != "underlined"@[0]);
    }
    let mut component: Vec<(String, serde_json::Value)> = Vec::new();
    add_entry(&mut component, "text", json_text(run.text));
    match run.style.color {
        Some(color) => {
            add_entry(&mut component, "color", json_text(color));
        },
        None => {},
    }
    if run.style.obfuscated {
        add_entry(&mut component, "obfuscated", json_bool(true));
    }
    if run.style.bold {
        add_entry(&mut component, "bold", json_bool(true));
    }
    if run.style.strikethrough {
        add_entry(&mut component, "strikethrough", json_bool(true));
    }
    if run.style.underlined {
        add_entry(&mut component, "underlined", json_bool(true));
    }
    if run.style.italic {
        add_entry(&mut component, "italic", json_bool(true));
    }
    json_object(component)
}

/// The text component for runs of text: an empty text, and the runs as its extra parts.
pub open spec fn component_json(runs: Seq<RunView>) -> JsonView {
    let root = Map::<Seq<char>, JsonView>::empty().insert("text"@, JsonView::Text(Seq::empty()));
    JsonView::Object(
        if runs.len() == 0 {
            root
        } else {
            root.insert(
                "extra"@,
                JsonView::List(runs.map_values(|run: RunView| JsonView::Object(run_json(run)))),
            )
        },
    )
}

/// The text component for a text with formatting codes.
pub fn legacy_text_to_json(text: &str) -> (json: serde_json::Value)
    ensures
        json::contents(json) == component_json(runs_of(text@)),
{
    let mut runs = legacy_runs(text);
    let ghost all = run_views(runs@);
    let ghost wanted = all.map_values(|run: RunView| JsonView::Object(run_json(run)));
    let mut components: Vec<serde_json::Value> = Vec::new();
    while runs.len() > 0
        invariant
            all == runs_of(text@),
            components.len() + runs.len() == all.len(),
            wanted == all.map_values(|run: RunView| JsonView::Object(run_json(run))),
            run_views(runs@) == all.skip(components.len() as int),
            json::all_contents(components@) == wanted.take(components.len() as int),
        decreases runs.len(),
    {
        let ghost before = components@;
        let ghost left = runs@;
        let run = runs.remove(0);
        assert(run@ == run_views(left)[0]);
        components.push(text_component(run));
        assert(all.skip(before.len() as int).skip(1) =~= all.skip(components.len() as int));
    }
    assert(wanted.take(all.len() as int) =~= wanted);
    proof {
        reveal_strlit("text");
        reveal_strlit("extra");
        assert("text"@.len() == 4 && "extra"@.len() == 5);
    }
    let mut root: Vec<(String, serde_json::Value)> = Vec::new();
    add_entry(&mut root, "text", json_text(String::new()));
    if !components.is_empty() {
        add_entry(&mut root, "extra", json_list(components));
    }
    json_object(root)
}

proof fn lemma_plain_runs(text: Seq<char>, i: int, style: StyleView, buffer: Seq<char>)
    requires
        0 <= i <= text.len(),
        forall|k: int| 0 <= k < text.len() ==> !is_marker(#[trigger] text[k]),
    ensures
        runs_from(text, i, style, buffer) == finished(buffer + text.skip(i), style),
    decreases text.len() - i,
{
    if i < text.len() {
        lemma_plain_runs(text, i + 1, style, buffer.push(text[i]));
        assert(buffer.push(text[i]) + text.skip(i + 1) =~= buffer + text.skip(i));
    }
}

/// A text without marker characters is one run without any style, or no run if it is empty.
pub proof fn lemma_unmarked_text_is_one_run(text: Seq<char>)
    requires
        forall|k: int| 0 <= k < text.len() ==> !is_marker(#[trigger] text[k]),
    ensures
        runs_of(text) == finished(text, colored(None)),
{
    lemma_plain_runs(text, 0, colored(None), Seq::empty());
    assert(Seq::<char>::empty() + text.skip(0) =~= text);
}

/// No run is empty.
pub proof fn lemma_runs_hold_text(chars: Seq<char>, i: int, style: StyleView, buffer: Seq<char>)
    ensures
        forall|k: int|
            0 <= k < runs_from(chars, i, style, buffer).len() ==> (#[trigger] runs_from(
                chars,
                i,
                style,
                buffer,
            )[k]).text.len() > 0,
    decreases chars.len() - i,
{
    if 0 <= i < chars.len() {
        match code_at(chars, i, style) {
            Some((next, n)) => {
                if n > 0 {
                    lemma_runs_hold_text(chars, i + n, next, Seq::empty());
                }
            },
            None => {
                lemma_runs_hold_text(chars, i + 1, style, buffer.push(chars[i]));
            },
        }
    }
}

proof fn lemma_code_shift(front: Seq<char>, chars: Seq<char>, i: int, style: StyleView)
    requires
        0 <= i < chars.len(),
    ensures
        code_at(front + chars, front.len() + i, style) == code_at(chars, i, style),
{
    let all = front + chars;
    let at = front.len() + i;
    assert(forall|k: int| 0 <= k < chars.len() ==> all[front.len() + k] == #[trigger] chars[k]);
    if is_marker(chars[i]) && i + 1 < chars.len() {
        assert(all[at + 1] == chars[i + 1]);
        if i + 8 <= chars.len() {
            assert(all.subrange(at + 2, at + 8) =~= chars.subrange(i + 2, i + 8));
            if forall|k: int| 2 <= k < 8 ==> is_hex(#[trigger] chars[i + k]) {
                assert forall|k: int| 2 <= k < 8 implies is_hex(#[trigger] all[at + k]) by {
                    assert(all[at + k] == chars[i + k]);
                }
            }
            if forall|k: int| 2 <= k < 8 ==> is_hex(#[trigger] all[at + k]) {
                assert forall|k: int| 2 <= k < 8 implies is_hex(#[trigger] chars[i + k]) by {
                    assert(all[at + k] == chars[i + k]);
                }
            }
        }
        assert(short_hex_at(all, at) == short_hex_at(chars, i));
        if i + 14 <= chars.len() {
            assert forall|k: int| 0 <= k < 6 implies #[trigger] digit_pair_at(all, at, k)
                == digit_pair_at(chars, i, k) by {
                assert(all[at + 2 + 2 * k] == chars[i + 2 + 2 * k]);
                assert(all[at + 3 + 2 * k] == chars[i + 3 + 2 * k]);
            }
            assert forall|k: int| 0 <= k < 6 implies digit_pair_at(all, at, k)
                == #[trigger] digit_pair_at(chars, i, k) by {}
            let here = Seq::new(6, |k: int| chars[i + 3 + 2 * k]);
            let there = Seq::new(6, |k: int| all[at + 3 + 2 * k]);
            assert forall|k: int| 0 <= k < 6 implies here[k] == there[k] by {
                assert(all[at + 3 + 2 * k] == chars[i + 3 + 2 * k]);
            }
            assert(here =~= there);
        }
        assert(long_hex_at(all, at) == long_hex_at(chars, i));
    }
}

proof fn lemma_runs_shift(
    front: Seq<char>,
    chars: Seq<char>,
    i: int,
    style: StyleView,
    buffer: Seq<char>,
)
    requires
        0 <= i <= chars.len(),
    ensures
        runs_from(front + chars, front.len() + i, style, buffer) == runs_from(
            chars,
            i,
            style,
            buffer,
        ),
    decreases chars.len() - i,
{
    if i < chars.len() {
        lemma_code_shift(front, chars, i, style);
        match code_at(chars, i, style) {
            Some((next, n)) => {
                if n > 0 {
                    assert(i + n <= chars.len());
                    lemma_runs_shift(front, chars, i + n, next, Seq::empty());
                    assert(front.len() + i + n == front.len() + (i + n));
                }
            },
            None => {
                assert((front + chars)[front.len() + i] == chars[i]);
                lemma_runs_shift(front, chars, i + 1, style, buffer.push(chars[i]));
            },
        }
    }
}

proof fn lemma_plain_prefix(plain: Seq<char>, tail: Seq<char>, i: int, style: StyleView)
    requires
        0 <= i <= plain.len(),
        forall|k: int| 0 <= k < plain.len() ==> !is_marker(#[trigger] plain[k]),
    ensures
        runs_from(plain + tail, i, style, plain.take(i)) == runs_from(
            plain + tail,
            plain.len() as int,
            style,
            plain,
        ),
    decreases plain.len() - i,
{
    if i < plain.len() {
        assert((plain + tail)[i] == plain[i]);
        assert(plain.take(i).push(plain[i]) =~= plain.take(i + 1));
        lemma_plain_prefix(plain, tail, i + 1, style);
    } else {
        assert(plain.take(i) =~= plain);
    }
}

proof fn lemma_code_behind_plain_text(
    plain: Seq<char>,
    code: Seq<char>,
    rest: Seq<char>,
    style: StyleView,
    next: StyleView,
)
    requires
        forall|k: int| 0 <= k < plain.len() ==> !is_marker(#[trigger] plain[k]),
        code.len() > 0,
        code_at(code + rest, 0, style) == Some((next, code.len() as int)),
    ensures
        runs_from(plain + code + rest, 0, style, Seq::empty()) == finished(plain, style)
            + runs_from(rest, 0, next, Seq::empty()),
{
    let tail = code + rest;
    let all = plain + code + rest;
    assert(all =~= plain + tail);
    assert(plain.take(0) =~= Seq::empty());
    lemma_plain_prefix(plain, tail, 0, style);
    lemma_runs_shift(plain, tail, 0, style, plain);
    assert(runs_from(tail, 0, style, plain) == finished(plain, style) + runs_from(
        tail,
        code.len() as int,
        next,
        Seq::empty(),
    ));
    lemma_runs_shift(code, rest, 0, next, Seq::empty());
}

/// The runs of a text start without color and without any property.
pub proof fn lemma_text_starts_without_style(text: &str, runs: Vec<TextRun>)
    requires
        call_ensures(legacy_runs, (text,), runs),
    ensures
        run_views(runs@) == runs_from(
            text@,
            0,
            StyleView {
                color: None,
                obfuscated: false,
                bold: false,
                strikethrough: false,
                underlined: false,
                italic: false,
            },
            Seq::empty(),
        ),
{
}

/// The letters and digits that stand for colors.
pub proof fn lemma_color_letters()
    ensures
        color_name('0') == Some("black"@),
        color_name('1') == Some("dark_blue"@),
        color_name('2') == Some("dark_green"@),
        color_name('3') == Some("dark_aqua"@),
        color_name('4') == Some("dark_red"@),
        color_name('5') == Some("dark_purple"@),
        color_name('6') == Some("gold"@),
        color_name('7') == Some("gray"@),
        color_name('8') == Some("dark_gray"@),
        color_name('9') == Some("blue"@),
        color_name('a') == Some("green"@),
        color_name('b') == Some("aqua"@),
        color_name('c') == Some("red"@),
        color_name('d') == Some("light_purple"@),
        color_name('e') == Some("yellow"@),
        color_name('f') == Some("white"@),
{
}

/// A color code, in either case and behind either marker, ends the run before it; what follows
/// has that color and no other property.
pub proof fn lemma_color_code_starts_a_run(
    plain: Seq<char>,
    marker: char,
    letter: char,
    rest: Seq<char>,
    style: StyleView,
)
    requires
        forall|k: int| 0 <= k < plain.len() ==> (#[trigger] plain[k]) != '&'
            && plain[k] != '\u{A7}',
        marker == '&' || marker == '\u{A7}',
        '0' <= letter <= '9' || 'a' <= letter <= 'f' || 'A' <= letter <= 'F',
    ensures
        runs_from(plain + seq![marker, letter]
            + rest, 0, style, Seq::empty()) == (if plain.len() == 0 {
            Seq::empty()
        } else {
            seq![RunView { text: plain, style }]
        }) + runs_from(
            rest,
            0,
            StyleView {
                color: color_name(
                    if 'A' <= letter <= 'F' {
                        (letter as int + 32) as char
                    } else {
                        letter
                    },
                ),
                obfuscated: false,
                bold: false,
                strikethrough: false,
                underlined: false,
                italic: false,
            },
            Seq::empty(),
        ),
{
    let code = seq![marker, letter];
    let all = code + rest;
    assert(all[0] == marker && all[1] == letter);
    let lower = text::lower_ascii(letter);
    assert('0' <= lower <= '9' || 'a' <= lower <= 'f');
    assert(color_name(lower) is Some) by {
        let n = lower as int;
        assert(48 <= n <= 57 || 97 <= n <= 102);
    }
    assert(lower != 'x' && letter != '#');
    assert(hex_color_at(all, 0) is None);
    lemma_code_behind_plain_text(plain, code, rest, style, colored(color_name(lower)));
}

/// A format code, in either case and behind either marker, ends the run before it; what follows
/// has one property more: `k` obfuscated, `l` bold, `m` struck through, `n` underlined, `o`
/// italic. The code `r` takes color and properties away.
pub proof fn lemma_format_code_adds_a_property(
    plain: Seq<char>,
    marker: char,
    letter: char,
    rest: Seq<char>,
    style: StyleView,
)
    requires
        forall|k: int| 0 <= k < plain.len() ==> (#[trigger] plain[k]) != '&'
            && plain[k] != '\u{A7}',
        marker == '&' || marker == '\u{A7}',
        'k' <= letter <= 'o' || 'K' <= letter <= 'O' || letter == 'r' || letter == 'R',
    ensures
        runs_from(plain + seq![marker, letter]
            + rest, 0, style, Seq::empty()) == (if plain.len() == 0 {
            Seq::empty()
        } else {
            seq![RunView { text: plain, style }]
        }) + runs_from(
            rest,
            0,
            if letter == 'r' || letter == 'R' {
                StyleView {
                    color: None,
                    obfuscated: false,
                    bold: false,
                    strikethrough: false,
                    underlined: false,
                    italic: false,
                }
            } else {
                StyleView {
                    color: style.color,
                    obfuscated: style.obfuscated || letter == 'k' || letter == 'K',
                    bold: style.bold || letter == 'l' || letter == 'L',
                    strikethrough: style.strikethrough || letter == 'm' || letter == 'M',
                    underlined: style.underlined || letter == 'n' || letter == 'N',
                    italic: style.italic || letter == 'o' || letter == 'O',
                }
            },
            Seq::empty(),
        ),
{
    let code = seq![marker, letter];
    let all = code + rest;
    assert(all[0] == marker && all[1] == letter);
    let lower = text::lower_ascii(letter);
    let n = letter as int;
    assert(107 <= n <= 111 || 75 <= n <= 79 || n == 114 || n == 82);
    assert('k' <= lower <= 'o' || lower == 'r');
    assert(lower != 'x' && letter != '#');
    assert(hex_color_at(all, 0) is None);
    assert(color_name(lower) is None);
    assert(formatted(style, lower) is Some);
    lemma_code_behind_plain_text(plain, code, rest, style, formatted(style, lower)->0);
}

/// A color that is spelled out with six hexadecimal digits behind a marker and `#` ends the run
/// before it; what follows has that color and no other property.
pub proof fn lemma_spelled_color_starts_a_run(
    plain: Seq<char>,
    marker: char,
    digits: Seq<char>,
    rest: Seq<char>,
    style: StyleView,
)
    requires
        forall|k: int| 0 <= k < plain.len() ==> (#[trigger] plain[k]) != '&'
            && plain[k] != '\u{A7}',
        marker == '&' || marker == '\u{A7}',
        digits.len() == 6,
        forall|k: int|
            0 <= k < 6 ==> '0' <= (#[trigger] digits[k]) <= '9' || 'a' <= digits[k] <= 'f' || 'A'
                <= digits[k] <= 'F',
    ensures
        runs_from(plain + (seq![marker, '#'] + digits) + rest, 0, style, Seq::empty()) == (
        if plain.len() == 0 {
            Seq::empty()
        } else {
            seq![RunView { text: plain, style }]
        }) + runs_from(
            rest,
            0,
            StyleView {
                color: Some("#"@ + digits),
                obfuscated: false,
                bold: false,
                strikethrough: false,
                underlined: false,
                italic: false,
            },
            Seq::empty(),
        ),
{
    let code = seq![marker, '#'] + digits;
    let all = code + rest;
    assert(all[0] == marker && all[1] == '#');
    assert forall|k: int| 2 <= k < 8 implies is_hex(#[trigger] all[0 + k]) by {
        assert(all[0 + k] == digits[k - 2]);
    }
    assert(all.subrange(2, 8) =~= digits);
    lemma_code_behind_plain_text(plain, code, rest, style, colored(Some("#"@ + digits)));
}

/// A run becomes a component with its text; with its color, if it has one; and with each of
/// its properties, set to true, and no others.
pub proof fn lemma_component_of_a_run(run: RunView)
    ensures
        ({
            let json = run_json(run);
            &&& json.dom().contains("text"@) && json["text"@] == JsonView::Text(run.text)
            &&& json.dom().contains("color"@) <==> run.style.color is Some
            &&& run.style.color is Some ==> json["color"@] == JsonView::Text(run.style.color->0)
            &&& json.dom().contains("obfuscated"@) <==> run.style.obfuscated
            &&& json.dom().contains("bold"@) <==> run.style.bold
            &&& json.dom().contains("strikethrough"@) <==> run.style.strikethrough
            &&& json.dom().contains("underlined"@) <==> run.style.underlined
            &&& json.dom().contains("italic"@) <==> run.style.italic
            &&& run.style.obfuscated ==> json["obfuscated"@] == JsonView::Bool(true)
            &&& run.style.bold ==> json["bold"@] == JsonView::Bool(true)
            &&& run.style.strikethrough ==> json["strikethrough"@] == JsonView::Bool(true)
            &&& run.style.underlined ==> json["underlined"@] == JsonView::Bool(true)
            &&& run.style.italic ==> json["italic"@] == JsonView::Bool(true)
        }),
{
    reveal_strlit("text");
    reveal_strlit("color");
    reveal_strlit("obfuscated");
    reveal_strlit("bold");
    reveal_strlit("strikethrough");
    reveal_strlit("underlined");
    reveal_strlit("italic");
    assert("text"@.len() == 4 && "color"@.len() == 5 && "obfuscated"@.len() == 10
        && "bold"@.len() == 4 && "strikethrough"@.len() == 13 && "underlined"@.len() == 10
        && "italic"@.len() == 6);
    assert("text"@[0] != "bold"@[0]);
    assert("obfuscated"@[0] != "underlined"@[0]);
}

/// The component of a text is an empty text with the components of its runs, in order, as its
/// extra parts, if there are any.
pub proof fn lemma_component_of_a_text(text: &str, runs: Vec<TextRun>, json: serde_json::Value)
    requires
        call_ensures(legacy_runs, (text,), runs),
        call_ensures(legacy_text_to_json, (text,), json),
    ensures
        json::contents(json) is Object,
        ({
            let root = json::contents(json)->Object_0;
            &&& root.dom().contains("text"@) && root["text"@] == JsonView::Text(Seq::empty())
            &&& root.dom().contains("extra"@) <==> runs@.len() > 0
            &&& runs@.len() > 0 ==> root["extra"@] == JsonView::List(
                run_views(runs@).map_values(|run: RunView| JsonView::Object(run_json(run))),
            )
        }),
{
    reveal_strlit("text");
    reveal_strlit("extra");
    assert("text"@.len() == 4 && "extra"@.len() == 5);
}

/// A color that is spelled out in the long form, a marker and `x` and then a marker before each
/// of six hexadecimal digits, ends the run before it; what follows has that color and no other
/// property.
pub proof fn lemma_long_spelled_color_starts_a_run(
    plain: Seq<char>,
    code: Seq<char>,
    rest: Seq<char>,
    style: StyleView,
)
    requires
        forall|k: int| 0 <= k < plain.len() ==> (#[trigger] plain[k]) != '&'
            && plain[k] != '\u{A7}',
        code.len() == 14,
        code[0] == '&' || code[0] == '\u{A7}',
        code[1] == 'x' || code[1] == 'X',
        forall|k: int|
            0 <= k < 6 ==> {
                let c = #[trigger] code[3 + 2 * k];
                '0' <= c <= '9' || 'a' <= c <= 'f' || 'A' <= c <= 'F'
            },
        forall|k: int|
            0 <= k < 6 ==> (#[trigger] code[2 + 2 * k]) == '&' || code[2 + 2 * k] == '\u{A7}',
    ensures
        runs_from(plain + code + rest, 0, style, Seq::empty()) == (if plain.len() == 0 {
            Seq::empty()
        } else {
            seq![RunView { text: plain, style }]
        }) + runs_from(
            rest,
            0,
            StyleView {
                color: Some("#"@ + seq![code[3], code[5], code[7], code[9], code[11], code[13]]),
                obfuscated: false,
                bold: false,
                strikethrough: false,
                underlined: false,
                italic: false,
            },
            Seq::empty(),
        ),
{
    let all = code + rest;
    assert(all[0] == code[0] && all[1] == code[1]);
    assert forall|k: int| 0 <= k < 6 implies #[trigger] digit_pair_at(all, 0, k) by {
        assert(all[0 + 2 + 2 * k] == code[2 + 2 * k]);
        assert(all[0 + 3 + 2 * k] == code[3 + 2 * k]);
    }
    let digits = Seq::new(6, |k: int| all[0 + 3 + 2 * k]);
    assert(digits =~= seq![code[3], code[5], code[7], code[9], code[11], code[13]]);
    lemma_code_behind_plain_text(plain, code, rest, style, colored(Some("#"@ + digits)));
}

/// A marker before a letter that stands for nothing is text like any other.
pub proof fn lemma_unknown_code_is_text(
    marker: char,
    letter: char,
    rest: Seq<char>,
    style: StyleView,
    buffer: Seq<char>,
)
    requires
        marker == '&' || marker == '\u{A7}',
        'g' <= letter <= 'j' || letter == 'p' || letter == 'q' || 's' <= letter <= 'w' || 'y'
            <= letter <= 'z' || letter == ' ',
    ensures
        runs_from(seq![marker, letter] + rest, 0, style, buffer) == runs_from(
            seq![marker, letter] + rest,
            1,
            style,
            buffer.push(marker),
        ),
{
    let all = seq![marker, letter] + rest;
    assert(all[0] == marker && all[1] == letter);
    let n = letter as int;
    assert(103 <= n <= 106 || n == 112 || n == 113 || 115 <= n <= 119 || 121 <= n <= 122
        || n == 32);
    assert(text::lower_ascii(letter) == letter);
    assert(hex_color_at(all, 0) is None);
    assert(color_name(letter) is None);
    assert(formatted(style, letter) is None);
}

} // verus!

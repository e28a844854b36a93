//! The messages of the gateway, in the language of its users.
use crate::document::{self, parse_values};
use crate::json::{self, list_items, object_entry, object_keys, text_value, whole_number, JsonView};
use crate::names::NameMap;
use crate::problem::{self, Problem, Report};
use crate::templates::{BUILTIN_EN_US, BUILTIN_ZH_CN};
use crate::text::{self, cat3, replace, same_text};
use vstd::prelude::*;
use vstd::string::*;

verus! {

pub const DEFAULT_LOCALE: &'static str = "zh-CN";

pub const DEFAULT_LANGUAGE_DIRECTORY: &'static str = "./lang";

/// The messages of a language, by key.
#[derive(Debug, Clone)]
pub struct Language {
    pub locale: String,
    pub messages: NameMap<String>,
}

/// Whether the entry of a table, if there is one, is a text.
pub open spec fn text_or_absent(table: Map<Seq<char>, JsonView>, key: Seq<char>) -> bool {
    table.dom().contains(key) ==> table[key] is Text
}

/// Whether a value can be the version of a language file.
pub open spec fn is_version(value: JsonView) -> bool {
    value is Int && 0 <= value->Int_0 <= u32::MAX
}

/// Whether what a language file says of itself has the right shape: its locale, its name and
/// its version, each of which may be left out, by key or in this order.
pub open spec fn meta_fits(meta: JsonView) -> bool {
    match meta {
        JsonView::Object(table) => {
            &&& text_or_absent(table, "locale"@)
            &&& text_or_absent(table, "name"@)
            &&& table.dom().contains("version"@) ==> is_version(table["version"@])
        },
        JsonView::List(items) => {
            &&& items.len() > 0 ==> items[0] is Text
            &&& items.len() > 1 ==> items[1] is Text
            &&& items.len() > 2 ==> is_version(items[2])
        },
        _ => false,
    }
}

/// Whether all entries of a table are texts.
pub open spec fn all_texts(table: Map<Seq<char>, JsonView>) -> bool {
    forall|key: Seq<char>| #[trigger] table.dom().contains(key) ==> table[key] is Text
}

/// Whether a document has the shape of a language file: a table, whose `meta` and
/// `messages`, where it has them, have the right shape.
pub open spec fn is_language_file(document: JsonView) -> bool {
    match document {
        JsonView::Object(table) => {
            &&& table.dom().contains("meta"@) ==> meta_fits(table["meta"@])
            &&& table.dom().contains("messages"@) ==> (table["messages"@] is Object && all_texts(
                table["messages"@]->Object_0,
            ))
        },
        _ => false,
    }
}

/// The message that a language file has under a key.
pub open spec fn message_in(document: JsonView, key: Seq<char>) -> Option<Seq<char>> {
    match document {
        JsonView::Object(table) if table.dom().contains("messages"@) => match table["messages"@] {
            JsonView::Object(messages) if messages.dom().contains(key) => match messages[key] {
                JsonView::Text(message) => Some(message),
                _ => None,
            },
            _ => None,
        },
        _ => None,
    }
}

/// What a language map has under a key.
pub open spec fn message_text(messages: NameMap<String>, key: Seq<char>) -> Option<Seq<char>> {
    match messages.find(key) {
        Some(message) => Some(message@),
        None => None,
    }
}

fn entry_is_text(value: &serde_json::Value, key: &str) -> (yes: bool)
    requires
        json::contents(*value) is Object,
    ensures
        yes == text_or_absent(json::contents(*value)->Object_0, key@),
{
    match object_entry(value, key) {
        Some(item) => text_value(item).is_some(),
        None => true,
    }
}

fn check_version(value: &serde_json::Value) -> (yes: bool)
    ensures
        yes == is_version(json::contents(*value)),
{
    match whole_number(value) {
        Some(version) => version <= 4294967295,
        None => false,
    }
}

fn check_meta(meta: &serde_json::Value) -> (yes: bool)
    ensures
        yes == meta_fits(json::contents(*meta)),
{
    if let Some(items) = list_items(meta) {
        return (items.len() == 0 || text_value(&items[0]).is_some()) && (items.len() <= 1
            || text_value(&items[1]).is_some()) && (items.len() <= 2 || check_version(&items[2]));
    }
    if object_keys(meta).is_none() {
        return false;
    }
    let version_fits = match object_entry(meta, "version") {
        Some(item) => check_version(item),
        None => true,
    };
    entry_is_text(meta, "locale") && entry_is_text(meta, "name") && version_fits
}

/// The words for a document that is no language file.
pub open spec fn shape_report() -> Report {
    problem::plain("a language file holds a table of messages"@)
}

/// The messages of a document, if it has the shape of a language file.
pub fn read_messages(document: &serde_json::Value) -> (outcome: Result<NameMap<String>, Problem>)
    ensures
        match outcome {
            Ok(messages) => is_language_file(json::contents(*document)) && forall|key: Seq<char>|
                #[trigger]
                message_text(messages, key) == message_in(json::contents(*document), key),
            Err(problem) => !is_language_file(json::contents(*document)) && problem@
                == shape_report(),
        },
{
    let wrong = Problem::new("a language file holds a table of messages".to_owned());
    if object_keys(document).is_none() {
        return Err(wrong);
    }
    match object_entry(document, "meta") {
        Some(meta) => {
            if !check_meta(meta) {
                return Err(wrong);
            }
        },
        None => {},
    }
    let mut messages: NameMap<String> = NameMap::new();
    let table = match object_entry(document, "messages") {
        Some(table) => table,
        None => {
            return Ok(messages);
        },
    };
    let keys = match object_keys(table) {
        Some(keys) => keys,
        None => {
            return Err(wrong);
        },
    };
    let ghost held = json::contents(*table)->Object_0;
    let ghost all = text::texts(keys@);
    let mut i: usize = 0;
    while i < keys.len()
        invariant
            i <= keys.len(),
            all == text::texts(keys@),
            json::contents(*table) == JsonView::Object(held),
            all.to_set() == held.dom(),
            wrong@ == shape_report(),
            json::contents(*document) is Object,
            json::contents(*document)->Object_0.dom().contains("messages"@),
            json::contents(*document)->Object_0["messages"@] == JsonView::Object(held),
            json::contents(*document)->Object_0.dom().contains("meta"@) ==> meta_fits(
                json::contents(*document)->Object_0["meta"@],
            ),
            forall|k: int| 0 <= k < i ==> held[#[trigger] all[k]] is Text,
            forall|key: Seq<char>| #[trigger]
                message_text(messages, key) == if all.take(i as int).contains(key) {
                    Some(held[key]->Text_0)
                } else {
                    None
                },
        decreases keys.len() - i,
    {
        let key = keys[i].as_str();
        let ghost before = messages;
        assert(all[i as int] == key@);
        let message = match object_entry(table, key) {
            Some(item) => match text_value(item) {
                Some(message) => message.to_owned(),
                None => {
                    return Err(wrong);
                },
            },
            None => {
                return Err(wrong);
            },
        };
        messages.insert(key.to_owned(), message);
        proof {
            assert forall|other: Seq<char>| #[trigger]
                message_text(messages, other) == if all.take(i + 1).contains(other) {
                    Some(held[other]->Text_0)
                } else {
                    None
                } by {
                if other == key@ {
                    assert(all.take(i + 1)[i as int] == other);
                } else {
                    assert(message_text(before, other) == message_text(messages, other));
                }
            }
        }
        i += 1;
    }
    proof {
        assert(all.take(all.len() as int) == all);
        assert forall|key: Seq<char>| #[trigger]
            message_text(messages, key) == message_in(json::contents(*document), key) by {}
    }
    Ok(messages)
}

/// What the documents of a language file and of the built-in file come to: nothing, if one
/// of them is not a language file.
pub open spec fn language_report(
    selected: Result<JsonView, Seq<char>>,
    fallback: Result<JsonView, Seq<char>>,
) -> Option<Report> {
    match (selected, fallback) {
        (Err(words), _) => Some(problem::plain(words)),
        (Ok(selected), _) if !is_language_file(selected) => Some(shape_report()),
        (_, Err(words)) => Some(problem::inside(fallback_words(), problem::plain(words))),
        (_, Ok(fallback)) if !is_language_file(fallback) => Some(
            problem::inside(fallback_words(), shape_report()),
        ),
        _ => None,
    }
}

/// Whether a text is that of a language file.
pub open spec fn is_readable(source: Seq<char>) -> bool {
    document::values_of(source) matches Ok(document) && is_language_file(document)
}

pub open spec fn fallback_words() -> Seq<char> {
    "built-in en-US language file must contain valid TOML"@
}

/// The message under a key: that of the first document, or else that of the second.
pub open spec fn first_message(
    selected: Option<Seq<char>>,
    fallback: Option<Seq<char>>,
) -> Option<Seq<char>> {
    match selected {
        Some(message) => Some(message),
        None => fallback,
    }
}

/// A message with its placeholders `{name}` filled in, one after the other.
pub open spec fn filled(message: Seq<char>, values: Seq<(Seq<char>, Seq<char>)>) -> Seq<char>
    decreases values.len(),
{
    if values.len() == 0 {
        message
    } else {
        let (name, value) = values.last();
        text::replaced(filled(message, values.drop_last()), "{"@ + name + "}"@, value)
    }
}

/// The texts of the values for placeholders.
pub open spec fn value_texts(values: Seq<(&str, &str)>) -> Seq<(Seq<char>, Seq<char>)> {
    values.map_values(|value: (&str, &str)| (value.0@, value.1@))
}

impl Language {
    /// The message under a key; the key itself where there is none.
    pub open spec fn message(self, key: Seq<char>) -> Seq<char> {
        match message_text(self.messages, key) {
            Some(message) => message,
            None => key,
        }
    }

    /// The message under a key, with its placeholders filled in.
    pub open spec fn rendered(self, key: Seq<char>, values: Seq<(Seq<char>, Seq<char>)>) -> Seq<
        char,
    > {
        filled(self.message(key), values)
    }

    /// Whether the messages are those of a language file, and the English ones under the keys
    /// that it lacks.
    pub open spec fn has_messages_of(self, source: Seq<char>) -> bool {
        forall|key: Seq<char>| #[trigger]
            message_text(self.messages, key) == first_message(
                message_in(document::values_of(source)->Ok_0, key),
                message_in(document::values_of(BUILTIN_EN_US@)->Ok_0, key),
            )
    }

    /// The language with the messages of `selected`, and those of `fallback` under the keys
    /// that `selected` lacks.
    pub fn from_messages(
        locale: &str,
        selected: NameMap<String>,
        fallback: NameMap<String>,
    ) -> (language: Self)
        ensures
            language.locale@ == locale@,
            forall|key: Seq<char>| #[trigger]
                message_text(language.messages, key) == first_message(
                    message_text(selected, key),
                    message_text(fallback, key),
                ),
    {
        let ghost base = fallback;
        let mut messages = fallback;
        let count = selected.len();
        let mut i: usize = 0;
        while i < count
            invariant
                i <= count == selected.names().len(),
                selected.well_formed(),
                forall|key: Seq<char>| #[trigger]
                    message_text(messages, key) == if selected.names().take(i as int).contains(
                        key,
                    ) {
                        message_text(selected, key)
                    } else {
                        message_text(base, key)
                    },
            decreases count - i,
        {
            let ghost before = messages;
            let name = selected.name_at(i).to_owned();
            let value = selected.value_at(i).clone();
            let ghost names = selected.names();
            proof {
                crate::names::lemma_index_of_name(selected, i as int);
            }
            messages.insert(name, value);
            proof {
                assert forall|key: Seq<char>| #[trigger]
                    message_text(messages, key) == if names.take(i + 1).contains(key) {
                        message_text(selected, key)
                    } else {
                        message_text(base, key)
                    } by {
                    if key == name@ {
                        assert(names.take(i + 1)[i as int] == key);
                    } else {
                        assert(message_text(before, key) == message_text(messages, key));
                    }
                }
            }
            i += 1;
        }
        proof {
            assert(selected.names().take(count as int) == selected.names());
        }
        Language { locale: locale.to_owned(), messages }
    }

    /// Reads a language file.
    pub fn from_source(locale: &str, source: &str) -> (outcome: Result<Self, Problem>)
        ensures
            problem::failure(outcome) == language_report(
                document::values_of(source@),
                document::values_of(BUILTIN_EN_US@),
            ),
            outcome matches Ok(language) ==> language.locale@ == locale@ && language.has_messages_of(
                source@,
            ),
    {
        let selected = match parse_values(source) {
            Ok(document) => match read_messages(&document) {
                Ok(messages) => messages,
                Err(problem) => {
                    return Err(problem);
                },
            },
            Err(words) => {
                return Err(Problem::new(words));
            },
        };
        let words = "built-in en-US language file must contain valid TOML".to_owned();
        let fallback = match parse_values(BUILTIN_EN_US) {
            Ok(document) => match read_messages(&document) {
                Ok(messages) => messages,
                Err(problem) => {
                    return Err(problem.within(words));
                },
            },
            Err(cause) => {
                return Err(Problem::new(cause).within(words));
            },
        };
        Ok(Language::from_messages(locale, selected, fallback))
    }

    /// Reads the text of a language file that lies at `path`.
    pub fn load(path: &str, locale: &str, source: &str) -> (outcome: Result<Self, Problem>)
        ensures
            problem::failure(outcome) == match language_report(
                document::values_of(source@),
                document::values_of(BUILTIN_EN_US@),
            ) {
                Some(report) => Some(problem::inside("invalid language file "@ + path@, report)),
                None => None,
            },
            outcome matches Ok(language) ==> language.locale@ == locale@ && language.has_messages_of(
                source@,
            ),
    {
        match Language::from_source(locale, source) {
            Ok(language) => Ok(language),
            Err(problem) => Err(problem.within(crate::text::cat2("invalid language file ", path))),
        }
    }

    /// The built-in language for a locale.
    pub fn builtin(locale: &str) -> (outcome: Result<Self, Problem>)
        ensures
            problem::failure(outcome) == language_report(
                document::values_of(template_for(locale@)),
                document::values_of(BUILTIN_EN_US@),
            ),
            outcome matches Ok(language) ==> language.locale@ == locale@ && language.has_messages_of(
                template_for(locale@),
            ),
    {
        Language::from_source(locale, builtin_template(locale))
    }

    /// The message under a key, with its placeholders filled in.
    pub fn render(&self, key: &str, replacements: &[(&str, &str)]) -> (text: String)
        ensures
            text@ == self.rendered(key@, value_texts(replacements@)),
    {
        let mut message = match self.messages.get(key) {
            Some(message) => message.clone(),
            None => key.to_owned(),
        };
        let ghost values = value_texts(replacements@);
        let mut i: usize = 0;
        while i < replacements.len()
            invariant
                i <= replacements.len(),
                values == value_texts(replacements@),
                message@ == filled(self.message(key@), values.take(i as int)),
            decreases replacements.len() - i,
        {
            let (name, value) = replacements[i];
            let pattern = cat3("{", name, "}");
            assert(values.take(i + 1).drop_last() == values.take(i as int));
            proof {
                reveal_strlit("{");
            }
            message = replace(message.as_str(), pattern.as_str(), value);
            i += 1;
        }
        assert(values.take(values.len() as int) == values);
        message
    }
}

/// The built-in language file for a locale: that of the locale, or else the English one.
pub open spec fn template_for(locale: Seq<char>) -> Seq<char> {
    if locale == "zh-CN"@ {
        BUILTIN_ZH_CN@
    } else {
        BUILTIN_EN_US@
    }
}

/// The built-in language file for a locale: that of the locale, or else the English one.
pub fn builtin_template(locale: &str) -> (template: &'static str)
    ensures
        template@ == template_for(locale@),
{
    if same_text(locale, "zh-CN") {
        BUILTIN_ZH_CN
    } else {
        BUILTIN_EN_US
    }
}

/// A key without a message is shown as it is.
pub proof fn lemma_unknown_key_shows_itself(language: Language, key: Seq<char>)
    requires
        language.messages.find(key) is None,
    ensures
        language.rendered(key, Seq::empty()) == key,
{
}

/// Where both built-in files can be read, every locale has its built-in language.
pub proof fn lemma_every_locale_has_a_language(locale: Seq<char>)
    ensures
        is_readable(BUILTIN_EN_US@) && is_readable(BUILTIN_ZH_CN@) ==> language_report(
            document::values_of(template_for(locale)),
            document::values_of(BUILTIN_EN_US@),
        ) is None,
{
}

/// Every locale without a built-in file of its own speaks English: its file is the English
/// one, and it shows the same texts.
pub proof fn lemma_other_locales_speak_english(
    locale: Seq<char>,
    language: Language,
    english: Language,
    key: Seq<char>,
    values: Seq<(Seq<char>, Seq<char>)>,
)
    requires
        locale != "zh-CN"@,
        language.has_messages_of(template_for(locale)),
        english.has_messages_of(template_for("en-US"@)),
    ensures
        template_for(locale) == template_for("en-US"@),
        language.rendered(key, values) == english.rendered(key, values),
{
    reveal_strlit("zh-CN");
    reveal_strlit("en-US");
    assert("zh-CN"@[0] != "en-US"@[0]);
    assert(message_text(language.messages, key) == message_text(english.messages, key));
}

/// A message is the one under its key, or the key itself where there is none. Each value in
/// turn takes the place of its name in braces, everywhere in what has come of the message.
pub proof fn lemma_values_are_filled_in_one_by_one(
    language: Language,
    key: &str,
    values: &[(&str, &str)],
    text: String,
    shorter: &[(&str, &str)],
    before: String,
)
    requires
        call_ensures(Language::render, (&language, key, values), text),
        call_ensures(Language::render, (&language, key, shorter), before),
        values@.len() > 0 ==> shorter@ == values@.drop_last(),
    ensures
        values@.len() == 0 && language.messages.find(key@) is Some ==> text@
            == language.messages.find(key@)->0@,
        values@.len() == 0 && language.messages.find(key@) is None ==> text@ == key@,
        values@.len() > 0 ==> text@ == text::replaced(
            before@,
            "{"@ + values@.last().0@ + "}"@,
            values@.last().1@,
        ),
{
    let texts = value_texts(values@);
    if values@.len() > 0 {
        assert(texts.drop_last() =~= value_texts(shorter@));
        assert(texts.last() == (values@.last().0@, values@.last().1@));
    }
}

/// A language has the messages of its own file, and those of the built-in English file under
/// the keys that its own lacks.
pub proof fn lemma_own_messages_come_first(
    locale: &str,
    source: &str,
    language: Language,
    key: Seq<char>,
)
    requires
        call_ensures(
            Language::from_source,
            (locale, source),
            Ok::<Language, Problem>(language),
        ),
    ensures
        language.locale@ == locale@,
        is_readable(source@),
        is_readable(BUILTIN_EN_US@),
        ({
            let own = document::values_of(source@)->Ok_0->Object_0;
            let english = document::values_of(BUILTIN_EN_US@)->Ok_0->Object_0;
            let has_own = own.dom().contains("messages"@)
                && own["messages"@]->Object_0.dom().contains(key);
            let has_english = english.dom().contains("messages"@)
                && english["messages"@]->Object_0.dom().contains(key);
            &&& has_own ==> language.messages.find(key) is Some && JsonView::Text(
                language.messages.find(key)->0@,
            ) == own["messages"@]->Object_0[key]
            &&& !has_own && has_english ==> language.messages.find(key) is Some && JsonView::Text(
                language.messages.find(key)->0@,
            ) == english["messages"@]->Object_0[key]
            &&& !has_own && !has_english ==> language.messages.find(key) is None
        }),
{
    assert(message_text(language.messages, key) == first_message(
        message_in(document::values_of(source@)->Ok_0, key),
        message_in(document::values_of(BUILTIN_EN_US@)->Ok_0, key),
    ));
}

} // verus!

use mc_transfer_gateway::identity::{
    fresh_uuid, grouped_text, offline_uuid, simple_text, uuid_from_digest,
};
use mc_transfer_gateway::language::{
    builtin_template, read_messages, Language, DEFAULT_LANGUAGE_DIRECTORY, DEFAULT_LOCALE,
};
use mc_transfer_gateway::names::NameMap;
use mc_transfer_gateway::protocol::Uuid;
use mc_transfer_gateway::templates::{BUILTIN_EN_US, BUILTIN_ZH_CN};
use mc_transfer_gateway::text::{
    contains, eq_ignore_ascii_case, parse_u8, replace, signed_to_text, split, trim,
    unsigned_to_text,
};

#[test]
fn built_in_languages_can_be_read() {
    let chinese = Language::builtin("zh-CN").unwrap();
    assert_eq!(chinese.locale, "zh-CN");
    assert_eq!(
        chinese.render("disconnect.no_route", &[]),
        "当前没有可用的线路"
    );
    let english = Language::builtin("fr-FR").unwrap();
    assert_eq!(english.locale, "fr-FR");
    assert_eq!(
        english.render("disconnect.no_route", &[]),
        "No route is available at the moment"
    );
    assert_eq!(chinese.messages.len(), english.messages.len());
    assert_eq!(builtin_template("zh-CN"), BUILTIN_ZH_CN);
    assert_eq!(builtin_template("zh-cn"), BUILTIN_EN_US);
    assert_eq!(DEFAULT_LOCALE, "zh-CN");
    assert_eq!(DEFAULT_LANGUAGE_DIRECTORY, "./lang");
}

#[test]
fn missing_messages_fall_back_to_english_and_then_to_the_key() {
    let language = Language::from_source(
        "x",
        "[messages]\n\"disconnect.no_route\" = \"nothing\"\n\"own\" = \"mine\"\n",
    )
    .unwrap();
    assert_eq!(language.render("disconnect.no_route", &[]), "nothing");
    assert_eq!(language.render("own", &[]), "mine");
    assert_eq!(
        language.render("log.config_reloaded", &[]),
        "configuration reloaded"
    );
    assert_eq!(language.render("no.such.key", &[]), "no.such.key");
    assert!(Language::from_source("x", "").is_ok());
}

#[test]
fn placeholders_are_filled_in_one_after_the_other() {
    let mut messages = NameMap::new();
    messages.insert("k".to_owned(), "{a} and {b} and {a} and {c}".to_owned());
    let language = Language::from_messages("x", messages, NameMap::new());
    assert_eq!(
        language.render("k", &[("a", "1"), ("b", "2")]),
        "1 and 2 and 1 and {c}"
    );
    assert_eq!(
        language.render("k", &[("a", "{b}"), ("b", "2")]),
        "2 and 2 and 2 and {c}"
    );
    assert_eq!(language.render("{a}", &[("a", "1")]), "1");
}

#[test]
fn other_documents_are_no_language_files() {
    let words = "a language file holds a table of messages";
    let problem = |source: &str| Language::from_source("x", source).unwrap_err().message;
    assert_eq!(problem("messages = 1"), words);
    assert_eq!(problem("[messages]\nkey = 1"), words);
    assert_eq!(problem("meta = 1"), words);
    assert_eq!(problem("[meta]\nlocale = 1"), words);
    assert_eq!(problem("[meta]\nname = true"), words);
    assert_eq!(problem("[meta]\nversion = \"1\""), words);
    assert_eq!(problem("[meta]\nversion = -1"), words);
    assert_eq!(problem("[meta]\nversion = 4294967296"), words);
    assert!(Language::from_source("x", "[meta]\nversion = 4294967295\nother = 1\n").is_ok());
    assert!(problem("= 1").contains("TOML parse error"));

    let problem = Language::load("./lang/x.toml", "x", "messages = 1").unwrap_err();
    assert_eq!(problem.message, "invalid language file ./lang/x.toml");
    assert_eq!(problem.cause.as_deref(), Some(words));
    assert!(Language::load("./lang/x.toml", "x", "").is_ok());

    assert!(read_messages(&serde_json::Value::from(1)).is_err());
    let mut messages = serde_json::Map::new();
    messages.insert("k".to_owned(), serde_json::Value::from("v"));
    let mut document = serde_json::Map::new();
    document.insert("messages".to_owned(), serde_json::Value::Object(messages));
    let read = read_messages(&serde_json::Value::Object(document)).unwrap();
    assert_eq!(read.len(), 1);
    assert_eq!(read.get("k").map(String::as_str), Some("v"));
}

#[test]
fn a_language_file_may_say_of_itself_what_it_likes() {
    let good = [
        "meta = []",
        "meta = [\"x\"]",
        "meta = [\"x\", \"X\"]",
        "meta = [\"x\", \"X\", 4294967295]",
        "meta = [\"x\", \"X\", 1, true]",
        "meta = 2024-05-27",
        "meta = { other = 1.5, more = [nan, 2024-05-27T07:32:00Z] }",
        "number = 18446744073709551615",
        "number = -9223372036854775808",
    ];
    for source in good {
        assert!(Language::from_source("x", source).is_ok(), "{source}");
    }
    let words = "a language file holds a table of messages";
    let bad = [
        "meta = [1]",
        "meta = [\"x\", 1]",
        "meta = [\"x\", \"X\", \"1\"]",
        "meta = [\"x\", \"X\", -1]",
        "meta = [\"x\", \"X\", 4294967296]",
        "meta = \"x\"",
        "messages = []",
        "[messages]\nkey = 2024-05-27",
    ];
    for source in bad {
        let problem = Language::from_source("x", source).unwrap_err();
        assert_eq!(problem.message, words, "{source}");
    }
    let dated = Language::from_source("x", "messages = 2024-05-27").unwrap();
    let english = Language::builtin("en-US").unwrap();
    assert_eq!(dated.messages.len(), english.messages.len() + 1);
}

#[test]
fn players_keep_their_identifier() {
    let notch = offline_uuid("Notch");
    assert_eq!(grouped_text(&notch), "b50ad385-829d-3141-a216-7e7d7539ba7f");
    assert_eq!(simple_text(&notch), "b50ad385829d3141a2167e7d7539ba7f");
    assert_eq!(offline_uuid("Notch").as_bytes(), notch.as_bytes());
    assert_ne!(offline_uuid("notch").as_bytes(), notch.as_bytes());
    let marked = uuid_from_digest([0xff; 16]);
    assert_eq!(
        grouped_text(&marked),
        "ffffffff-ffff-3fff-bfff-ffffffffffff"
    );
}

#[test]
fn sessions_have_random_identifiers() {
    let first = fresh_uuid();
    let second = fresh_uuid();
    assert_ne!(first.as_bytes(), second.as_bytes());
    for uuid in [&first, &second] {
        assert_eq!(uuid.as_bytes()[6] >> 4, 4);
        assert_eq!(uuid.as_bytes()[8] >> 6, 2);
    }
    let bytes = Uuid::from_bytes([0, 1, 2, 3, 4, 5, 6, 7, 8, 9, 10, 11, 12, 13, 14, 15]);
    assert_eq!(simple_text(&bytes), "000102030405060708090a0b0c0d0e0f");
}

#[test]
fn texts_are_taken_apart_and_put_together() {
    assert_eq!(trim(" \t\u{3000}a b\n"), "a b");
    assert_eq!(trim(" \u{85}\u{a0}\u{2003} "), "");
    assert!(eq_ignore_ascii_case("ABÉ", "abÉ"));
    assert!(!eq_ignore_ascii_case("É", "é"));
    assert!(contains("China Telecom", "Tele"));
    assert!(!contains("China Telecom", "tele"));
    assert_eq!(replace("aaa", "aa", "b"), "ba");
    assert_eq!(replace("{x}{x}", "{x}", "{x}y"), "{x}y{x}y");
    assert_eq!(split("a||b|", '|'), ["a", "", "b", ""]);
    assert_eq!(split("", '|'), [""]);
    assert_eq!(unsigned_to_text(u64::MAX), "18446744073709551615");
    assert_eq!(unsigned_to_text(0), "0");
    assert_eq!(signed_to_text(i64::MIN + 1), "-9223372036854775807");
    assert_eq!(parse_u8("255"), Ok(255));
    assert_eq!(parse_u8("+7"), Ok(7));
    assert_eq!(parse_u8("007"), Ok(7));
    let bad_texts = [
        "256", "-1", "", "+", "-", "++1", " 1", "1 ", "٣", "25x", "256x", "2x56", "+999", "x999",
        "0000000256", "99999999999999999999999",
    ];
    for bad in bad_texts {
        let words = bad.parse::<u8>().unwrap_err().to_string();
        assert_eq!(parse_u8(bad), Err(words.as_str()), "{bad}");
    }
}

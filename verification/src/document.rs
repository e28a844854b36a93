//! TOML documents, as far as the gateway looks into them itself.
use crate::json::{self, JsonView};
use vstd::prelude::*;
use vstd::string::*;

verus! {

/// The values of the `toml` crate.
#[verifier::external_type_specification]
#[verifier::external_body]
pub struct ExTomlValue(toml::Value);

/// What a TOML value holds; of one that is no table, only that it is none.
pub enum TomlView {
    Table(Map<Seq<char>, TomlView>),
    Other,
}

/// What a `toml::Value` holds.
pub uninterp spec fn toml_contents(value: toml::Value) -> TomlView;

/// What `toml::from_str` makes of a text that is read as a `toml::Value`: what the document
/// holds, or the words for why it is none.
pub uninterp spec fn document_of(source: Seq<char>) -> Result<TomlView, Seq<char>>;

/// What an outcome that holds a TOML value holds.
pub open spec fn outcome_contents(outcome: Result<toml::Value, String>) -> Result<
    TomlView,
    Seq<char>,
> {
    match outcome {
        Ok(value) => Ok(toml_contents(value)),
        Err(words) => Err(words@),
    }
}

/// Calls `toml::from_str` for a `toml::Value`. Which texts are TOML, and what they say, is
/// left to the parser: the outcome is named `document_of`.
#[verifier::external_body]
pub(crate) fn parse_document(source: &str) -> (outcome: Result<toml::Value, String>)
    ensures
        outcome_contents(outcome) == document_of(source@),
{
    match toml::from_str::<toml::Value>(source) {
        Ok(value) => Ok(value),
        Err(error) => Err(error.to_string()),
    }
}

/// Calls `toml::Value::get` with a key: the entry of a table, if the value is a table that
/// has one with that key.
#[verifier::external_body]
pub(crate) fn entry<'a>(value: &'a toml::Value, key: &str) -> (found: Option<&'a toml::Value>)
    ensures
        match (toml_contents(*value), found) {
            (TomlView::Table(table), Some(item)) => table.dom().contains(key@) && table[key@]
                == toml_contents(*item),
            (TomlView::Table(table), None) => !table.dom().contains(key@),
            (_, found) => found is None,
        },
{
    value.get(key)
}

/// What `toml::from_str` makes of a text that is read as a `serde_json::Value`: what the
/// document holds, or the words for why it is none.
pub uninterp spec fn values_of(source: Seq<char>) -> Result<JsonView, Seq<char>>;

/// What an outcome that holds a JSON value holds.
pub open spec fn values_contents(outcome: Result<serde_json::Value, String>) -> Result<
    JsonView,
    Seq<char>,
> {
    match outcome {
        Ok(value) => Ok(json::contents(value)),
        Err(words) => Err(words@),
    }
}

/// Calls `toml::from_str` for a `serde_json::Value`, in which a date is an object with one
/// entry. Which texts are TOML, and what they say, is left to the parser: the outcome is
/// named `values_of`.
#[verifier::external_body]
pub(crate) fn parse_values(source: &str) -> (outcome: Result<serde_json::Value, String>)
    ensures
        values_contents(outcome) == values_of(source@),
{
    match toml::from_str::<serde_json::Value>(source) {
        Ok(value) => Ok(value),
        Err(error) => Err(error.to_string()),
    }
}

} // verus!

//! JSON values, as far as the gateway writes and reads them.
use crate::text;
use vstd::prelude::*;
use vstd::string::*;

verus! {

/// The JSON values of `serde_json`.
#[verifier::external_type_specification]
#[verifier::external_body]
pub struct ExJsonValue(serde_json::Value);

/// What a JSON value holds; a number that is no integer is taken by its text.
pub enum JsonView {
    Null,
    Bool(bool),
    Fraction(Seq<char>),
    Int(int),
    Text(Seq<char>),
    List(Seq<JsonView>),
    Object(Map<Seq<char>, JsonView>),
}

/// What a `serde_json::Value` holds.
pub uninterp spec fn contents(value: serde_json::Value) -> JsonView;

/// What `serde_json` writes for a JSON value in its compact form.
pub uninterp spec fn compact_text(value: JsonView) -> Seq<char>;

/// What the values of a list hold.
pub open spec fn all_contents(values: Seq<serde_json::Value>) -> Seq<JsonView> {
    values.map_values(|value: serde_json::Value| contents(value))
}

/// Whether no two entries have the same key.
pub open spec fn distinct_keys(entries: Seq<(String, serde_json::Value)>) -> bool {
    forall|i: int, j: int|
        0 <= i < j < entries.len() ==> (#[trigger] entries[i]).0@ != (#[trigger] entries[j]).0@
}

/// The object with the given entries, no two of which have the same key.
pub open spec fn entries_map(entries: Seq<(String, serde_json::Value)>) -> Map<Seq<char>, JsonView>
    decreases entries.len(),
{
    if entries.len() == 0 {
        Map::empty()
    } else {
        entries_map(entries.drop_last()).insert(entries.last().0@, contents(entries.last().1))
    }
}

/// Calls `serde_json::Value::Bool`: the value holds that truth value.
#[verifier::external_body]
pub(crate) fn json_bool(value: bool) -> (json: serde_json::Value)
    ensures
        contents(json) == JsonView::Bool(value),
{
    serde_json::Value::Bool(value)
}

/// Calls `serde_json::Value::from` on an integer: the value holds that integer.
#[verifier::external_body]
pub(crate) fn json_int(value: i64) -> (json: serde_json::Value)
    ensures
        contents(json) == JsonView::Int(value as int),
{
    serde_json::Value::from(value)
}

/// Calls `serde_json::Value::String`: the value holds that text.
#[verifier::external_body]
pub(crate) fn json_text(value: String) -> (json: serde_json::Value)
    ensures
        contents(json) == JsonView::Text(value@),
{
    serde_json::Value::String(value)
}

/// Calls `serde_json::Value::Array`: the value holds the list of what the items hold.
#[verifier::external_body]
pub(crate) fn json_list(items: Vec<serde_json::Value>) -> (json: serde_json::Value)
    ensures
        contents(json) == JsonView::List(all_contents(items@)),
{
    serde_json::Value::Array(items)
}

/// Calls `serde_json::Value::from_iter` on pairs with different keys: the value holds the
/// object with those entries.
#[verifier::external_body]
pub(crate) fn json_object(entries: Vec<(String, serde_json::Value)>) -> (json: serde_json::Value)
    requires
        distinct_keys(entries@),
    ensures
        contents(json) == JsonView::Object(entries_map(entries@)),
{
    serde_json::Value::from_iter(entries)
}

/// Calls `to_string` on a `serde_json::Value`. The result is the compact form, which
/// depends on what the value holds alone, since an object keeps its entries sorted by key;
/// it is named `compact_text`.
#[verifier::external_body]
pub(crate) fn json_to_string(value: &serde_json::Value) -> (text: String)
    ensures
        text@ == compact_text(contents(*value)),
{
    value.to_string()
}

/// Calls `serde_json::Value::get` with a key: the entry of an object, if the value is an
/// object that has one with that key.
#[verifier::external_body]
pub(crate) fn object_entry<'a>(value: &'a serde_json::Value, key: &str) -> (found: Option<
    &'a serde_json::Value,
>)
    ensures
        match (contents(*value), found) {
            (JsonView::Object(object), Some(item)) => object.dom().contains(key@) && object[key@]
                == contents(*item),
            (JsonView::Object(object), None) => !object.dom().contains(key@),
            (_, found) => found is None,
        },
{
    value.get(key)
}

/// Calls `serde_json::Value::as_object` and hands out the keys: all of them, if the value is
/// an object.
#[verifier::external_body]
pub(crate) fn object_keys(value: &serde_json::Value) -> (found: Option<Vec<String>>)
    ensures
        match (contents(*value), found) {
            (JsonView::Object(object), Some(keys)) => text::texts(keys@).to_set() == object.dom(),
            (JsonView::Object(object), None) => false,
            (_, found) => found is None,
        },
{
    match value.as_object() {
        Some(object) => Some(object.keys().cloned().collect()),
        None => None,
    }
}

/// Calls `serde_json::Value::as_array`: the items, if the value is a list.
#[verifier::external_body]
pub(crate) fn list_items<'a>(value: &'a serde_json::Value) -> (found: Option<
    &'a Vec<serde_json::Value>,
>)
    ensures
        match (contents(*value), found) {
            (JsonView::List(held), Some(items)) => all_contents(items@) == held,
            (JsonView::List(held), None) => false,
            (_, found) => found is None,
        },
{
    value.as_array()
}

/// Calls `serde_json::Value::as_str`: the text, if the value is one.
#[verifier::external_body]
pub(crate) fn text_value<'a>(value: &'a serde_json::Value) -> (found: Option<&'a str>)
    ensures
        match (contents(*value), found) {
            (JsonView::Text(held), Some(words)) => words@ == held,
            (JsonView::Text(held), None) => false,
            (_, found) => found is None,
        },
{
    value.as_str()
}

/// Calls `serde_json::Value::as_u64`: the number, if the value is an integer that is not
/// negative.
#[verifier::external_body]
pub(crate) fn whole_number(value: &serde_json::Value) -> (found: Option<u64>)
    ensures
        match (contents(*value), found) {
            (JsonView::Int(held), Some(number)) => number as int == held,
            (JsonView::Int(held), None) => held < 0,
            (_, found) => found is None,
        },
{
    value.as_u64()
}

/// The keys of an object are those of its entries.
proof fn lemma_entry_has_its_key(entries: Seq<(String, serde_json::Value)>, i: int)
    requires
        0 <= i < entries.len(),
    ensures
        entries_map(entries).dom().contains(entries[i].0@),
    decreases entries.len(),
{
    if i < entries.len() - 1 {
        lemma_entry_has_its_key(entries.drop_last(), i);
    }
}

/// Adds an entry under a new key to the entries of an object.
pub(crate) fn add_entry(
    entries: &mut Vec<(String, serde_json::Value)>,
    key: &str,
    value: serde_json::Value,
)
    requires
        distinct_keys(old(entries)@),
        !entries_map(old(entries)@).dom().contains(key@),
    ensures
        distinct_keys(final(entries)@),
        entries_map(final(entries)@) == entries_map(old(entries)@).insert(key@, contents(value)),
{
    proof {
        assert forall|i: int| 0 <= i < entries@.len() implies (#[trigger] entries@[i]).0@
            != key@ by {
            lemma_entry_has_its_key(entries@, i);
        }
    }
    entries.push((key.to_owned(), value));
    assert(entries@.drop_last() == old(entries)@);
}

} // verus!

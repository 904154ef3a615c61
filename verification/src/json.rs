//! The JSON that records carry. Attribute objects and event lists are built
//! from `serde_json` values, maps and arrays, written to text, parsed and
//! taken apart by `serde_json` behind the trusted items of this module; a
//! value is known to verified code by the name of the construction that
//! made it.
use vstd::prelude::*;

verus! {

/// `serde_json::Value`, carried opaquely.
#[verifier::external_type_specification]
#[verifier::external_body]
pub struct ExJsonValue(serde_json::Value);

/// `serde_json::Number`, carried opaquely.
#[verifier::external_type_specification]
#[verifier::external_body]
pub struct ExJsonNumber(serde_json::Number);

/// `serde_json::Map`, carried opaquely.
#[verifier::external_type_specification]
#[verifier::external_body]
#[verifier::reject_recursive_types(K)]
#[verifier::reject_recursive_types(V)]
pub struct ExJsonMap<K, V>(serde_json::Map<K, V>);

/// `Clone` for `serde_json::Number`: a derived clone of plain data, equal to
/// the number it was made from.
pub assume_specification[ <serde_json::Number as Clone>::clone ](n: &serde_json::Number) -> (r:
    serde_json::Number)
    ensures
        r == *n,
;

/// A JSON object's map, as `serde_json` holds it.
pub type JsonMap = serde_json::Map<String, serde_json::Value>;

/// The JSON string `s` (`Value::String`).
pub uninterp spec fn json_string(s: Seq<char>) -> serde_json::Value;

/// The JSON number of an `i64` (`Value::Number` of `Number::from`).
pub uninterp spec fn json_i64(n: i64) -> serde_json::Value;

/// The JSON number of a `u64` (`Value::Number` of `Number::from`).
pub uninterp spec fn json_u64(n: u64) -> serde_json::Value;

/// The JSON boolean `b` (`Value::Bool`).
pub uninterp spec fn json_bool(b: bool) -> serde_json::Value;

/// The JSON value of an optional number: the number (`Value::Number`), or
/// `null` where there is none (`Value::Null`).
pub uninterp spec fn json_number_or_null(n: Option<serde_json::Number>) -> serde_json::Value;

/// The JSON array of `items`, in order (`Value::Array`).
pub uninterp spec fn json_array(items: Seq<serde_json::Value>) -> serde_json::Value;

/// The JSON object with the entries of a map (`Value::Object`).
pub uninterp spec fn json_object(entries: Map<Seq<char>, serde_json::Value>) -> serde_json::Value;

/// The entries that a `serde_json::Map` holds, by key.
pub uninterp spec fn json_map_contents(m: JsonMap) -> Map<
    Seq<char>,
    serde_json::Value,
>;

/// No entries.
pub open spec fn empty_entries() -> Map<Seq<char>, serde_json::Value> {
    Map::empty()
}

/// The text that `serde_json::to_string` gives for a map with these
/// entries (the empty text where it fails).
pub uninterp spec fn map_text(entries: Map<Seq<char>, serde_json::Value>) -> Seq<char>;

/// The text that `serde_json::to_string` gives for a list of values (the
/// empty text where it fails).
pub uninterp spec fn array_text(items: Seq<serde_json::Value>) -> Seq<char>;

/// `Value::String(s)`. Only the name of the value is stated.
#[verifier::external_body]
pub(crate) fn json_from_string(s: String) -> (r: serde_json::Value)
    ensures
        r == json_string(s@),
{
    serde_json::Value::String(s)
}

/// `Value::Number(n.into())` for an `i64`. Only the name of the value is
/// stated.
#[verifier::external_body]
pub(crate) fn json_from_i64(n: i64) -> (r: serde_json::Value)
    ensures
        r == json_i64(n),
{
    serde_json::Value::Number(n.into())
}

/// `Value::Number(n.into())` for a `u64`. Only the name of the value is
/// stated.
#[verifier::external_body]
pub(crate) fn json_from_u64(n: u64) -> (r: serde_json::Value)
    ensures
        r == json_u64(n),
{
    serde_json::Value::Number(n.into())
}

/// `Value::Bool(b)`. Only the name of the value is stated.
#[verifier::external_body]
pub(crate) fn json_from_bool(b: bool) -> (r: serde_json::Value)
    ensures
        r == json_bool(b),
{
    serde_json::Value::Bool(b)
}

/// `n.map(Value::Number).unwrap_or(Value::Null)`: the number's value, or
/// `null`. Only the name of the value is stated.
#[verifier::external_body]
pub(crate) fn json_from_number_or_null(n: Option<serde_json::Number>) -> (r: serde_json::Value)
    ensures
        r == json_number_or_null(n),
{
    n.map(serde_json::Value::Number).unwrap_or(serde_json::Value::Null)
}

/// `Value::Array(items)`. Only the name of the value is stated.
#[verifier::external_body]
pub(crate) fn json_from_values(items: Vec<serde_json::Value>) -> (r: serde_json::Value)
    ensures
        r == json_array(items@),
{
    serde_json::Value::Array(items)
}

/// `Value::Object(m)`: the object with the map's entries. Only the name of
/// the value is stated.
#[verifier::external_body]
pub(crate) fn json_from_map(m: JsonMap) -> (r: serde_json::Value)
    ensures
        r == json_object(json_map_contents(m)),
{
    serde_json::Value::Object(m)
}

/// `serde_json::Map::new()`: a map with no entries.
#[verifier::external_body]
pub(crate) fn json_map_new() -> (r: JsonMap)
    ensures
        json_map_contents(r) == empty_entries(),
{
    serde_json::Map::new()
}

/// `Map::insert`: the entry for `k` becomes `v`, the others stay.
#[verifier::external_body]
pub(crate) fn json_map_insert(m: &mut JsonMap, k: String, v: serde_json::Value)
    ensures
        json_map_contents(*final(m)) == json_map_contents(*old(m)).insert(k@, v),
{
    m.insert(k, v);
}

/// `Map::is_empty`: whether the map has no entries.
#[verifier::external_body]
pub(crate) fn json_map_is_empty(m: &JsonMap) -> (r: bool)
    ensures
        r == (json_map_contents(*m) == empty_entries()),
{
    m.is_empty()
}

/// `serde_json::to_string` of a map (the empty text where it fails). Only
/// the name of the text is stated.
#[verifier::external_body]
pub(crate) fn map_to_text(m: &JsonMap) -> (r: String)
    ensures
        r@ == map_text(json_map_contents(*m)),
{
    serde_json::to_string(m).unwrap_or_default()
}

/// `serde_json::to_string` of a list of values (the empty text where it
/// fails). Only the name of the text is stated.
#[verifier::external_body]
pub(crate) fn values_to_text(items: &Vec<serde_json::Value>) -> (r: String)
    ensures
        r@ == array_text(items@),
{
    serde_json::to_string(items).unwrap_or_default()
}

/// Whether `serde_json::from_str::<serde_json::Value>` accepts a text.
pub uninterp spec fn is_json_document(s: Seq<char>) -> bool;

/// The entries of the JSON object that `s` is, each value written back to
/// text by `Display` for `serde_json::Value`, in the order in which a
/// `serde_json::Map` iterates them; `None` where `s` is not a JSON object.
pub uninterp spec fn object_entries(s: Seq<char>) -> Option<Seq<(Seq<char>, Seq<char>)>>;

/// Whether `serde_json::from_str::<serde_json::Value>(s)` succeeds.
#[verifier::external_body]
pub(crate) fn json_parses(s: &str) -> (r: bool)
    ensures
        r == is_json_document(s@),
{
    serde_json::from_str::<serde_json::Value>(s).is_ok()
}

/// The entries of the JSON object in `s` (parsed by `serde_json::from_str`,
/// taken by `Value::as_object`, each value written by `to_string`).
#[verifier::external_body]
pub(crate) fn json_object_entries(s: &str) -> (r: Option<Vec<(String, String)>>)
    ensures
        match (r, object_entries(s@)) {
            (Some(v), Some(e)) => v@.map_values(|p: (String, String)| (p.0@, p.1@)) == e,
            (None, None) => true,
            _ => false,
        },
{
    let value: serde_json::Value = serde_json::from_str(s).ok()?;
    Some(value.as_object()?.iter().map(|(k, v)| (k.clone(), v.to_string())).collect())
}

} // verus!

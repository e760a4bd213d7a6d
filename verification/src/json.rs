//! JSON values, as `serde_json` reads and writes them.

use vstd::prelude::*;

verus! {

/// A JSON value of `serde_json`.
#[verifier::external_type_specification]
#[verifier::external_body]
pub struct ExValue(serde_json::Value);

/// Why `serde_json` could not read a text.
#[verifier::external_type_specification]
#[verifier::external_body]
pub struct ExError(serde_json::Error);

/// The value that `serde_json::from_str` reads from `text`, if it reads one.
pub uninterp spec fn json_value(text: Seq<char>) -> Option<serde_json::Value>;

/// The compact text that `serde_json` writes for `value`.
pub uninterp spec fn json_text(value: serde_json::Value) -> Seq<char>;

/// Calls `serde_json::from_str`. Claimed of it: whether it succeeds, and with
/// what value, depends on the text alone.
#[verifier::external_body]
fn read_value(text: &str) -> (r: Result<serde_json::Value, serde_json::Error>)
    ensures
        r matches Ok(v) ==> json_value(text@) == Some(v),
        r is Err ==> json_value(text@) is None,
{
    serde_json::from_str(text)
}

/// The JSON value null, `serde_json::Value::Null`. Claimed of it: it is what
/// the text `null` is read as, and it is written as that text.
#[verifier::external_body]
fn null_value() -> (r: serde_json::Value)
    ensures
        json_value("null"@) == Some(r),
        json_text(r) == "null"@,
{
    serde_json::Value::Null
}

/// Calls `to_string` of `serde_json::Value`. Claimed of it: the text depends
/// on the value alone.
#[verifier::external_body]
pub(crate) fn value_text(value: &serde_json::Value) -> (r: String)
    ensures
        r@ == json_text(*value),
{
    value.to_string()
}

/// Calls `serde_json::Value::is_null`. Claimed of it: it holds of the one
/// value that is written as `null`.
#[verifier::external_body]
pub(crate) fn is_null(value: &serde_json::Value) -> (r: bool)
    ensures
        r == (json_text(*value) == "null"@),
{
    value.is_null()
}

/// Compares with the empty object by `==` of `serde_json::Value`. Claimed of
/// it: the empty object is the one value that is written as `{}`.
#[verifier::external_body]
pub(crate) fn is_empty_object(value: &serde_json::Value) -> (r: bool)
    ensures
        r == (json_text(*value) == "{}"@),
{
    *value == serde_json::Value::Object(serde_json::Map::new())
}

/// The JSON value null.
pub open spec fn json_null() -> serde_json::Value {
    json_value("null"@)->0
}

/// The value that `text` stands for; null where it is not JSON.
pub open spec fn value_or_null(text: Seq<char>) -> serde_json::Value {
    match json_value(text) {
        Some(v) => v,
        None => json_null(),
    }
}

/// The value that a reading gave; null where it gave none.
pub fn or_null(read: Option<serde_json::Value>) -> (r: serde_json::Value)
    ensures
        r == (match read {
            Some(v) => v,
            None => json_null(),
        }),
{
    match read {
        Some(v) => v,
        None => null_value(),
    }
}

/// Reads `text` as JSON; null where it is not.
pub fn parse_or_null(text: &str) -> (r: serde_json::Value)
    ensures
        r == value_or_null(text@),
{
    match read_value(text) {
        Ok(v) => or_null(Some(v)),
        Err(_) => or_null(None),
    }
}

/// A text is read as the value it stands for, and what is not JSON as null.
pub proof fn law_what_is_not_json_is_null(text: Seq<char>)
    ensures
        json_value(text) matches Some(v) ==> value_or_null(text) == v,
        json_value(text) is None ==> value_or_null(text) == json_value("null"@)->0,
{
}

} // verus!

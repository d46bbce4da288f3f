//! The structured documents that the inference returns, read through
//! `serde_json`.

use vstd::prelude::*;

verus! {

/// A JSON value of `serde_json`.
#[verifier::external_type_specification]
#[verifier::external_body]
pub struct ExValue(serde_json::Value);

/// The error of `serde_json`.
#[verifier::external_type_specification]
#[verifier::external_body]
pub struct ExDocumentError(serde_json::Error);

/// The value that a text holds when it is read as one JSON document; `None`
/// where it is none.
pub uninterp spec fn json_document(text: Seq<char>) -> Option<serde_json::Value>;

/// The member of an object under a key; `None` where the value is no object
/// or has no such member.
pub uninterp spec fn json_member(value: serde_json::Value, key: Seq<char>) -> Option<
    serde_json::Value,
>;

/// The text of a value that is a string; `None` for any other value.
pub uninterp spec fn json_text(value: serde_json::Value) -> Option<Seq<char>>;

/// The elements of a value that is an array; `None` for any other value.
pub uninterp spec fn json_items(value: serde_json::Value) -> Option<Seq<serde_json::Value>>;

/// The truth value of a value that is a boolean; `None` for any other value.
pub uninterp spec fn json_flag(value: serde_json::Value) -> Option<bool>;

/// `serde_json::from_str` for a `Value`: the text is read as one JSON
/// document. What comes back depends on the text alone; it is named
/// `json_document`.
#[verifier::external_body]
pub(crate) fn parse_document(text: &str) -> (parsed: Result<serde_json::Value, serde_json::Error>)
    ensures
        match parsed {
            Ok(value) => json_document(text@) == Some(value),
            Err(_) => json_document(text@) is None,
        },
{
    serde_json::from_str(text)
}

/// `Value::get` with a string index: the member of an object under `key`,
/// and `None` for a missing member or a value that is no object.
#[verifier::external_body]
pub(crate) fn member<'a>(value: &'a serde_json::Value, key: &str) -> (found: Option<
    &'a serde_json::Value,
>)
    ensures
        match found {
            Some(inner) => json_member(*value, key@) == Some(*inner),
            None => json_member(*value, key@) is None,
        },
{
    value.get(key)
}

/// `Value::as_str`: the text of a string value, `None` for any other value.
#[verifier::external_body]
pub(crate) fn text_of<'a>(value: &'a serde_json::Value) -> (found: Option<&'a str>)
    ensures
        match found {
            Some(text) => json_text(*value) == Some(text@),
            None => json_text(*value) is None,
        },
{
    value.as_str()
}

/// `Value::as_array`: the elements of an array value, `None` for any other
/// value.
#[verifier::external_body]
pub(crate) fn items_of<'a>(value: &'a serde_json::Value) -> (found: Option<
    &'a Vec<serde_json::Value>,
>)
    ensures
        match found {
            Some(items) => json_items(*value) == Some(items@),
            None => json_items(*value) is None,
        },
{
    value.as_array()
}

/// `Value::as_bool`: the truth value of a boolean value, `None` for any
/// other value.
#[verifier::external_body]
pub(crate) fn flag_of(value: &serde_json::Value) -> (found: Option<bool>)
    ensures
        found == json_flag(*value),
{
    value.as_bool()
}

/// The text of the member under `key`, where there is such a member and it
/// is a string.
pub open spec fn text_member(value: serde_json::Value, key: Seq<char>) -> Option<Seq<char>> {
    match json_member(value, key) {
        Some(inner) => json_text(inner),
        None => None,
    }
}

/// The text of the member under `key`.
pub fn member_text<'a>(value: &'a serde_json::Value, key: &str) -> (found: Option<&'a str>)
    ensures
        match found {
            Some(text) => text_member(*value, key@) == Some(text@),
            None => text_member(*value, key@) is None,
        },
{
    match member(value, key) {
        Some(inner) => text_of(inner),
        None => None,
    }
}

} // verus!

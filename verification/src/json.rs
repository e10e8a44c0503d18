//! JSON values, as far as the library reads them.
//!
//! No contract in this file is proved: each says what `serde_json`
//! documents of the function that the body calls. A value is opaque here;
//! what the library knows of one it knows through the names below.

use vstd::prelude::*;
use vstd::utf8::encode_utf8;

verus! {

/// `serde_json::Value`: any JSON value. Nothing inside it is seen here.
#[verifier::external_type_specification]
#[verifier::external_body]
pub struct ExValue(serde_json::Value);

/// `serde_json::Error`: why a text was not read or a value not written.
#[verifier::external_type_specification]
#[verifier::external_body]
pub struct ExJsonError(serde_json::Error);

/// The value that a text denotes: what `serde_json::from_str` returns for
/// it, `None` where it returns an error.
pub uninterp spec fn json_parsed(text: Seq<char>) -> Option<serde_json::Value>;

/// The compact text of a value: what `serde_json::to_string` returns for
/// it.
pub uninterp spec fn json_text(value: serde_json::Value) -> Seq<char>;

/// The bytes of a value: its compact text in UTF-8.
pub open spec fn text_bytes(value: serde_json::Value) -> Seq<u8> {
    encode_utf8(json_text(value))
}

/// The keys of an object, in the order in which its map holds them;
/// `None` for a value that is no object.
pub uninterp spec fn json_keys(value: serde_json::Value) -> Option<Seq<Seq<char>>>;

/// The array that holds the given values in the given order: what
/// `Value::from` returns for a vector of them.
pub uninterp spec fn json_array(items: Seq<serde_json::Value>) -> serde_json::Value;

/// The items of an array, in order; `None` for a value that is no array.
pub uninterp spec fn json_items(value: serde_json::Value) -> Option<Seq<serde_json::Value>>;

/// The member of an object under a key; `None` where the value is no
/// object or has no such key.
pub uninterp spec fn json_member(value: serde_json::Value, key: Seq<char>) -> Option<
    serde_json::Value,
>;

/// The characters of a string; `None` for a value that is no string.
pub uninterp spec fn json_string(value: serde_json::Value) -> Option<Seq<char>>;

/// `Value::clone`: a copy that is equal to the value.
pub assume_specification[ <serde_json::Value as Clone>::clone ](
    value: &serde_json::Value,
) -> (copy: serde_json::Value)
    ensures
        copy == *value,
;

/// `serde_json::from_str` at the type `Value`: the value that `text`
/// denotes, or the parser's error.
#[verifier::external_body]
pub(crate) fn parse_value(text: &str) -> (parsed: Result<serde_json::Value, serde_json::Error>)
    ensures
        match parsed {
            Ok(value) => json_parsed(text@) == Some(value),
            Err(_) => json_parsed(text@) is None,
        },
{
    serde_json::from_str::<serde_json::Value>(text)
}

/// `serde_json::to_string` at the type `Value`: the compact text of
/// `value`. The call does not fail for a `Value`: its `Serialize` impl
/// makes no error of its own and writes no key but a string, and the
/// serializer has an error only where its writer has one, which is a
/// vector here.
#[verifier::external_body]
pub(crate) fn value_text(value: &serde_json::Value) -> (text: Result<String, serde_json::Error>)
    ensures
        text is Ok,
        text->Ok_0@ == json_text(*value),
{
    serde_json::to_string(value)
}

/// `Value::as_object` and `Map::keys`: the keys of an object, each once,
/// or `None` for any other value.
#[verifier::external_body]
pub(crate) fn value_keys(value: &serde_json::Value) -> (keys: Option<Vec<String>>)
    ensures
        match keys {
            Some(ks) => json_keys(*value) == Some(ks.deep_view()) && ks.deep_view().no_duplicates(),
            None => json_keys(*value) is None,
        },
{
    match value.as_object() {
        Some(map) => Some(map.keys().cloned().collect()),
        None => None,
    }
}

/// `Value::from` at `Vec<Value>`: the array of the given values, which are
/// then its items.
#[verifier::external_body]
pub(crate) fn array_value(items: Vec<serde_json::Value>) -> (array: serde_json::Value)
    ensures
        array == json_array(items@),
        json_items(array) == Some(items@),
{
    serde_json::Value::from(items)
}

/// `Value::as_array`: a copy of the items of an array, or `None` for any
/// other value.
#[verifier::external_body]
pub(crate) fn value_items(value: &serde_json::Value) -> (items: Option<Vec<serde_json::Value>>)
    ensures
        match items {
            Some(found) => json_items(*value) == Some(found@),
            None => json_items(*value) is None,
        },
{
    match value.as_array() {
        Some(items) => Some(items.clone()),
        None => None,
    }
}

/// `Value::get` with a string: a copy of the member under `key`, or `None`
/// where the value is no object or has no such member.
#[verifier::external_body]
pub(crate) fn value_member(value: &serde_json::Value, key: &str) -> (member: Option<
    serde_json::Value,
>)
    ensures
        member == json_member(*value, key@),
{
    match value.get(key) {
        Some(member) => Some(member.clone()),
        None => None,
    }
}

/// `Value::as_str`: the characters of a string, or `None` for any other
/// value.
#[verifier::external_body]
pub(crate) fn value_string(value: &serde_json::Value) -> (text: Option<String>)
    ensures
        match text {
            Some(s) => json_string(*value) == Some(s@),
            None => json_string(*value) is None,
        },
{
    match value.as_str() {
        Some(text) => Some(text.to_owned()),
        None => None,
    }
}

/// The compact text of a value. This one is proved, from the contract of
/// `value_text`.
pub fn text_of(value: &serde_json::Value) -> (text: String)
    ensures
        text@ == json_text(*value),
{
    match value_text(value) {
        Ok(text) => text,
        Err(_) => vstd::pervasive::unreached(),
    }
}

} // verus!

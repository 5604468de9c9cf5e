//! The few things that request and error bodies need of JSON.

use vstd::prelude::*;
use vstd::utf8::encode_utf8;

verus! {

/// The string that the JSON document `text`, as it is read, has under `key`: nothing when `text` is
/// not valid JSON, not an object, without that key, or has something else than a string there.
pub uninterp spec fn json_string_member(text: Seq<u8>, key: Seq<char>) -> Option<Seq<char>>;

/// The JSON object `text`, as far as it is read as one, written anew with the string `value` under
/// `key`: nothing when `text` is not read as an object.
pub uninterp spec fn json_with_member(text: Seq<u8>, key: Seq<char>, value: Seq<char>) -> Option<
    Seq<u8>,
>;

/// The JSON object whose one member is the string `value` under `key`, as text.
pub uninterp spec fn json_single_member(key: Seq<char>, value: Seq<char>) -> Seq<char>;

/// The JSON object with the string `value` under `key` and the number `n` under `other`, as text.
pub uninterp spec fn json_string_and_number(
    key: Seq<char>,
    value: Seq<char>,
    other: Seq<char>,
    n: i64,
) -> Seq<char>;

/// The JSON object whose one member, under `outer`, is an object with the string `v1` under `k1`
/// and the string `v2` under `k2`, as text.
pub uninterp spec fn json_nested_strings(
    outer: Seq<char>,
    k1: Seq<char>,
    v1: Seq<char>,
    k2: Seq<char>,
    v2: Seq<char>,
) -> Seq<char>;

/// The key that `serde_json` keeps for itself: an object that begins with it is not read as an
/// object; the string under it is read as JSON in its place.
pub open spec fn raw_value_key() -> Seq<char> {
    "$serde_json::private::RawValue"@
}

/// Calls `serde_json::from_slice`, `Value::get` and `Value::as_str`. The result is a function of
/// the text and the key; the JSON grammar is not spelled out.
#[verifier::external_body]
pub(crate) fn string_member(text: &[u8], key: &str) -> (r: Option<String>)
    ensures
        r is Some <==> json_string_member(text@, key@) is Some,
        r is Some ==> Some(r->0@) == json_string_member(text@, key@),
{
    let v: serde_json::Value = serde_json::from_slice(text).ok()?;
    v.get(key)?.as_str().map(|s| s.to_string())
}

/// Calls `serde_json::from_slice`, `Map::insert` and `serde_json::to_vec`. The result is a
/// function of the text, the key and the value. It is there for every text that has some string
/// under `key`. Where the new text has a string under `key`, that string is `value`, and under every
/// other key the two texts have the same string, if any; of members that are no strings nothing is
/// stated. That the new text reads back at all is not stated: a number at the edge of the floating-point range may
/// not survive being written and read, nor does an object that comes to begin with
/// `raw_value_key`.
#[verifier::external_body]
pub(crate) fn with_string_member(text: &[u8], key: &str, value: &str) -> (r: Option<Vec<u8>>)
    requires
        key@ != raw_value_key(),
    ensures
        r is Some <==> json_with_member(text@, key@, value@) is Some,
        r is Some ==> Some(r->0@) == json_with_member(text@, key@, value@),
        json_string_member(text@, key@) is Some ==> r is Some,
        r is Some && json_string_member(r->0@, key@) is Some ==> json_string_member(r->0@, key@)
            == Some(value@),
        r is Some && json_string_member(r->0@, key@) is Some ==> forall|k: Seq<char>|
            k != key@ ==> #[trigger] json_string_member(r->0@, k) == json_string_member(text@, k),
{
    let mut v: serde_json::Value = serde_json::from_slice(text).ok()?;
    let s = serde_json::Value::String(value.to_string());
    v.as_object_mut()?.insert(key.to_string(), s);
    serde_json::to_vec(&v).ok()
}

/// Calls `serde_json::Map::insert` and writes the map out with `Value::to_string`. The result is
/// a function of the key and the value, and reads back with `value` under `key`.
#[verifier::external_body]
pub(crate) fn single_member(key: &str, value: &str) -> (r: String)
    requires
        key@ != raw_value_key(),
    ensures
        r@ == json_single_member(key@, value@),
        json_string_member(encode_utf8(r@), key@) == Some(value@),
{
    let mut m = serde_json::Map::new();
    m.insert(key.to_string(), serde_json::Value::String(value.to_string()));
    serde_json::Value::Object(m).to_string()
}

/// Calls `serde_json::Map::insert` and writes the map out with `Value::to_string`. The result is
/// a function of the keys, the string and the number. With two different keys it reads back with
/// `value` under `key`.
#[verifier::external_body]
pub(crate) fn string_and_number(key: &str, value: &str, other: &str, n: i64) -> (r: String)
    requires
        key@ != raw_value_key(),
        other@ != raw_value_key(),
    ensures
        r@ == json_string_and_number(key@, value@, other@, n),
        key@ != other@ ==> json_string_member(encode_utf8(r@), key@) == Some(value@),
{
    let mut m = serde_json::Map::new();
    m.insert(key.to_string(), serde_json::Value::String(value.to_string()));
    m.insert(other.to_string(), serde_json::Value::from(n));
    serde_json::Value::Object(m).to_string()
}

/// Calls `serde_json::Map::insert` and writes the outer map out with `Value::to_string`. The
/// result is a function of the keys and the strings.
#[verifier::external_body]
pub(crate) fn nested_strings(outer: &str, k1: &str, v1: &str, k2: &str, v2: &str) -> (r: String)
    ensures
        r@ == json_nested_strings(outer@, k1@, v1@, k2@, v2@),
{
    let mut inner = serde_json::Map::new();
    inner.insert(k1.to_string(), serde_json::Value::String(v1.to_string()));
    inner.insert(k2.to_string(), serde_json::Value::String(v2.to_string()));
    let mut m = serde_json::Map::new();
    m.insert(outer.to_string(), serde_json::Value::Object(inner));
    serde_json::Value::Object(m).to_string()
}

} // verus!

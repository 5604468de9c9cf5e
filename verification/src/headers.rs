//! Reading and trimming HTTP headers.

use crate::text::{
    ascii_lowered, has_prefix, lemma_utf8_injective, opt_str, starts_with, utf8_text,
};
use axum::http::{HeaderMap, HeaderValue};
use vstd::prelude::*;
use vstd::string::*;
use vstd::utf8::*;

verus! {

/// The header map of the `http` crate.
#[verifier::external_type_specification]
#[verifier::external_body]
#[verifier::reject_recursive_types(T)]
pub struct ExHeaderMap<T>(axum::http::HeaderMap<T>);

/// A header value of the `http` crate.
#[verifier::external_type_specification]
#[verifier::external_body]
pub struct ExHeaderValue(axum::http::HeaderValue);

/// A request method of the `http` crate.
#[verifier::external_type_specification]
#[verifier::external_body]
pub struct ExMethod(axum::http::Method);

/// What a header map holds: under each name, in lower case, the bytes of its values in order.
pub uninterp spec fn header_fields(headers: HeaderMap<HeaderValue>) -> Map<
    Seq<char>,
    Seq<Seq<u8>>,
>;

/// Calls `HeaderMap::get` and hands out the bytes of the value: the first value under `name`,
/// whatever the case of its ASCII letters, and nothing for a name without values.
#[verifier::external_body]
pub(crate) fn first_header<'a>(headers: &'a HeaderMap<HeaderValue>, name: &str) -> (r: Option<
    &'a [u8],
>)
    ensures
        r is Some <==> header_fields(*headers).dom().contains(ascii_lowered(name@)),
        r is Some ==> header_fields(*headers)[ascii_lowered(name@)].len() > 0 && r->0@
            == header_fields(*headers)[ascii_lowered(name@)][0],
{
    headers.get(name).map(|v| v.as_bytes())
}

/// Calls `HeaderMap::remove`: all values under `name` leave, whatever the case of its ASCII
/// letters, and everything else stays.
#[verifier::external_body]
pub(crate) fn remove_header(headers: &mut HeaderMap<HeaderValue>, name: &str)
    ensures
        header_fields(*final(headers)) == header_fields(*old(headers)).remove(
            ascii_lowered(name@),
        ),
{
    headers.remove(name);
}

/// Visible ASCII, the space or the tab.
pub open spec fn is_visible(b: u8) -> bool {
    32 <= b < 127 || b == 9
}

/// The bytes as text, when all of them are visible ASCII.
pub open spec fn visible_text(bytes: Seq<u8>) -> Option<Seq<char>> {
    if forall|i: int| 0 <= i < bytes.len() ==> is_visible(#[trigger] bytes[i]) {
        Some(Seq::new(bytes.len(), |i: int| bytes[i] as char))
    } else {
        None
    }
}

/// The first value under `name` as text, when there is one and it is visible ASCII.
pub open spec fn field_text(fields: Map<Seq<char>, Seq<Seq<u8>>>, name: Seq<char>) -> Option<
    Seq<char>,
> {
    if fields.dom().contains(ascii_lowered(name)) {
        visible_text(fields[ascii_lowered(name)][0])
    } else {
        None
    }
}

/// The token of an `Authorization` value: what follows `Bearer `.
pub open spec fn bearer(value: Option<Seq<char>>) -> Option<Seq<char>> {
    match value {
        Some(v) => if has_prefix(v, "Bearer "@) {
            Some(v.skip("Bearer "@.len() as int))
        } else {
            None
        },
        None => None,
    }
}

/// The bytes as text, when all of them are visible ASCII.
pub fn text_of_bytes(bytes: &[u8]) -> (r: Option<&str>)
    ensures
        opt_str(r) == visible_text(bytes@),
{
    let mut i: usize = 0;
    while i < bytes.len()
        invariant
            i <= bytes@.len(),
            forall|j: int| 0 <= j < i ==> is_visible(#[trigger] bytes@[j]),
        decreases bytes@.len() - i,
    {
        let b: u8 = bytes[i];
        if !((32 <= b && b < 127) || b == 9) {
            assert(!is_visible(bytes@[i as int]));
            return None;
        }
        i += 1;
    }
    proof {
        let chars = Seq::new(bytes@.len(), |i: int| bytes@[i] as char);
        assert forall|j: int| 0 <= j < chars.len() implies #[trigger] chars[j] as u8 == bytes@[j]
            && '\0' <= chars[j] <= '\u{7f}' by {
            assert(is_visible(bytes@[j]));
        }
        assert(is_ascii_chars(chars));
        is_ascii_chars_encode_utf8(chars);
        assert(encode_utf8(chars) =~= bytes@);
        encode_utf8_valid_utf8(chars);
        assert forall|t: Seq<char>| encode_utf8(t) == bytes@ implies t == chars by {
            lemma_utf8_injective(t, chars);
        }
    }
    utf8_text(bytes)
}

/// The first value under `name` as text, when there is one and it is visible ASCII.
pub fn header_text<'a>(headers: &'a HeaderMap<HeaderValue>, name: &str) -> (r: Option<&'a str>)
    ensures
        opt_str(r) == field_text(header_fields(*headers), name@),
{
    match first_header(headers, name) {
        Some(bytes) => text_of_bytes(bytes),
        None => None,
    }
}

/// What follows `Bearer ` in an `Authorization` value.
pub fn bearer_token<'a>(value: Option<&'a str>) -> (r: Option<&'a str>)
    ensures
        opt_str(r) == bearer(opt_str(value)),
{
    match value {
        Some(v) => if starts_with(v, "Bearer ") {
            let n: usize = "Bearer ".unicode_len();
            let end: usize = v.unicode_len();
            assert(v@.subrange(n as int, end as int) =~= v@.skip(n as int));
            Some(v.substring_char(n, end))
        } else {
            None
        },
        None => None,
    }
}

} // verus!

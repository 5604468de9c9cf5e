//! Timestamps.

use vstd::prelude::*;

verus! {

/// The Unix timestamp of a text in RFC 3339 form.
pub uninterp spec fn rfc3339_timestamp(text: Seq<char>) -> Option<i64>;

/// The Unix timestamp of a text in the form that `format` describes.
pub uninterp spec fn formatted_timestamp(text: Seq<char>, format: Seq<char>) -> Option<i64>;

/// Calls `chrono::DateTime::parse_from_rfc3339` and `DateTime::timestamp`. The result is a
/// function of the text; the grammar of dates is not spelled out.
#[verifier::external_body]
pub(crate) fn parse_rfc3339(text: &str) -> (r: Option<i64>)
    ensures
        r == rfc3339_timestamp(text@),
{
    chrono::DateTime::parse_from_rfc3339(text).ok().map(|d| d.timestamp())
}

/// Calls `chrono::DateTime::parse_from_str` and `DateTime::timestamp`. The result is a function
/// of the text and the format; the grammar of dates is not spelled out.
#[verifier::external_body]
pub(crate) fn parse_formatted(text: &str, format: &str) -> (r: Option<i64>)
    ensures
        r == formatted_timestamp(text@, format@),
{
    chrono::DateTime::parse_from_str(text, format).ok().map(|d| d.timestamp())
}

/// Calls `chrono::Utc::now` and `DateTime::timestamp`: the current Unix timestamp, which is not
/// negative. Which time it is is not stated. A machine whose clock stands before 1970 makes
/// `Utc::now` panic.
#[verifier::external_body]
pub(crate) fn now() -> (r: i64)
    ensures
        r >= 0,
{
    chrono::Utc::now().timestamp()
}

/// How backends write times that are not in RFC 3339 form.
pub open spec fn backend_time_format() -> Seq<char> {
    "%Y-%m-%d %H:%M:%S.%f%#z"@
}

/// The timestamp that a modification time stands for, when it can be read.
pub open spec fn read_timestamp(modified_at: Seq<char>) -> Option<i64> {
    match rfc3339_timestamp(modified_at) {
        Some(t) => Some(t),
        None => formatted_timestamp(modified_at, backend_time_format()),
    }
}

/// The first reading that succeeded, else the current time.
pub fn created_from(rfc3339: Option<i64>, formatted: Option<i64>, current: i64) -> (r: i64)
    ensures
        r == match (rfc3339, formatted) {
            (Some(t), _) => t,
            (None, Some(t)) => t,
            (None, None) => current,
        },
{
    match rfc3339 {
        Some(t) => t,
        None => match formatted {
            Some(t) => t,
            None => current,
        },
    }
}

/// Parse Unix timestamp from Ollama modified_at format or return current time
pub fn parse_created_timestamp(modified_at: &str) -> (r: i64)
    ensures
        read_timestamp(modified_at@) is Some ==> Some(r) == read_timestamp(modified_at@),
        read_timestamp(modified_at@) is None ==> r >= 0,
{
    let rfc3339 = parse_rfc3339(modified_at);
    let formatted = parse_formatted(modified_at, "%Y-%m-%d %H:%M:%S.%f%#z");
    let current: i64 = if rfc3339.is_none() && formatted.is_none() {
        now()
    } else {
        0
    };
    created_from(rfc3339, formatted, current)
}

} // verus!

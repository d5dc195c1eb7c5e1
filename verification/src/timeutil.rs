//! Timestamps as whole seconds since the Unix epoch, UTC. Parsing a
//! timestamp string is done by `chrono` behind named outcomes; the ordered
//! list of accepted formats and the first-success policy are the library's
//! own and are verified.

use vstd::prelude::*;

verus! {

/// The outcome of parsing `value` under the chrono format string `format`:
/// the instant as Unix seconds in UTC, or `None` when `value` does not parse
/// under that format. A zoned parse is tried first and a naive parse (read
/// as UTC) second; the outcome depends on the two strings alone.
pub uninterp spec fn timestamp_parse_of(value: Seq<char>, format: Seq<char>) -> Option<i64>;

/// The outcome of parsing `value` as an RFC 3339 timestamp, as Unix seconds
/// in UTC; it depends on `value` alone.
pub uninterp spec fn rfc3339_parse_of(value: Seq<char>) -> Option<i64>;

/// Relies on `chrono::DateTime::parse_from_str`,
/// `chrono::NaiveDateTime::parse_from_str`, `NaiveDateTime::and_utc`,
/// `DateTime::with_timezone` and `DateTime::timestamp`: the parse outcome is
/// a function of the two strings alone.
#[verifier::external_body]
pub fn parse_timestamp_format(value: &str, format: &str) -> (r: Option<i64>)
    ensures
        r == timestamp_parse_of(value@, format@),
{
    if let Ok(dt) = chrono::DateTime::parse_from_str(value, format) {
        return Some(dt.with_timezone(&chrono::Utc).timestamp());
    }
    if let Ok(dt) = chrono::NaiveDateTime::parse_from_str(value, format) {
        return Some(dt.and_utc().timestamp());
    }
    None
}

/// Relies on `chrono::DateTime::parse_from_rfc3339`,
/// `DateTime::with_timezone` and `DateTime::timestamp`: the parse outcome is
/// a function of `value` alone.
#[verifier::external_body]
pub fn parse_rfc3339(value: &str) -> (r: Option<i64>)
    ensures
        r == rfc3339_parse_of(value@),
{
    match chrono::DateTime::parse_from_rfc3339(value) {
        Ok(dt) => Some(dt.with_timezone(&chrono::Utc).timestamp()),
        Err(_) => None,
    }
}

/// Relies on `chrono::Utc::now` and `DateTime::timestamp`: the current
/// wall-clock instant; nothing can be promised of its value.
#[verifier::external_body]
pub fn now_seconds() -> i64 {
    chrono::Utc::now().timestamp()
}

/// The ordered list of timestamp formats the parser accepts.
pub open spec fn supported_formats() -> Seq<Seq<char>> {
    seq![
        "%Y-%m-%dT%H:%M:%S%.3fZ"@,
        "%Y-%m-%dT%H:%M:%S%:z"@,
        "%Y-%m-%d %H:%M:%S"@,
        "%b %d %H:%M:%S"@,
        "%Y/%m/%d %H:%M:%S"@,
    ]
}

/// What normalising a captured timestamp string yields: the first format in
/// `supported_formats` under which it parses, re-expressed in UTC.
pub open spec fn normalized_timestamp_of(value: Seq<char>) -> Option<i64> {
    first_format_success(value, supported_formats())
}

/// The first parse success among `formats`, in order.
pub open spec fn first_format_success(value: Seq<char>, formats: Seq<Seq<char>>) -> Option<i64>
    decreases formats.len(),
{
    if formats.len() == 0 {
        None
    } else {
        match timestamp_parse_of(value, formats[0]) {
            Some(t) => Some(t),
            None => first_format_success(value, formats.drop_first()),
        }
    }
}

/// Tries the supported formats in order and keeps the first success.
pub fn normalize_timestamp(value: &str) -> (r: Option<i64>)
    ensures
        r == normalized_timestamp_of(value@),
{
    let formats: [&str; 5] = [
        "%Y-%m-%dT%H:%M:%S%.3fZ",
        "%Y-%m-%dT%H:%M:%S%:z",
        "%Y-%m-%d %H:%M:%S",
        "%b %d %H:%M:%S",
        "%Y/%m/%d %H:%M:%S",
    ];
    proof {
        assert(supported_formats().skip(0) =~= supported_formats());
    }
    let mut i: usize = 0;
    while i < 5
        invariant
            i <= 5,
            formats@.len() == 5,
            forall|j: int| 0 <= j < 5 ==> formats@[j]@ == supported_formats()[j],
            normalized_timestamp_of(value@) == first_format_success(
                value@,
                supported_formats().skip(i as int),
            ),
        decreases 5 - i,
    {
        let r = parse_timestamp_format(value, formats[i]);
        proof {
            assert(supported_formats().skip(i as int)[0] == supported_formats()[i as int]);
            assert(supported_formats().skip(i as int).drop_first() =~= supported_formats().skip(
                i as int + 1,
            ));
        }
        if let Some(t) = r {
            return Some(t);
        }
        i = i + 1;
    }
    proof {
        assert(supported_formats().skip(5) =~= Seq::<Seq<char>>::empty());
    }
    None
}

} // verus!

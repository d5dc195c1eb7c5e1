//! Regex matching through the `regex` crate. Whether a pattern compiles and
//! what it matches is a function of the pattern and the haystack alone, so
//! the outcomes are given names that the contracts of the callers build on.

use vstd::prelude::*;

verus! {

/// The outcome of matching `pattern` against `text`: `None` when the pattern
/// is not a valid regex, otherwise `Some(b)` where `b` says whether the
/// pattern matches anywhere in `text`.
pub uninterp spec fn regex_match_of(pattern: Seq<char>, text: Seq<char>) -> Option<bool>;

/// The outcome of capturing `pattern` against `text`: `None` when the
/// pattern is not a valid regex or does not match, otherwise the named
/// capture groups that participated in the leftmost match, in the order the
/// groups are declared in the pattern, each with the text it captured.
pub uninterp spec fn regex_captures_of(pattern: Seq<char>, text: Seq<char>) -> Option<
    Seq<(Seq<char>, Seq<char>)>,
>;

/// Relies on `regex::Regex::new` and `regex::Regex::is_match`: compiling
/// depends on the pattern alone, and a compiled regex matches a haystack
/// depending on the two strings alone.
#[verifier::external_body]
pub fn regex_is_match(pattern: &str, text: &str) -> (r: Option<bool>)
    ensures
        r == regex_match_of(pattern@, text@),
{
    match regex::Regex::new(pattern) {
        Ok(re) => Some(re.is_match(text)),
        Err(_) => None,
    }
}

/// Relies on `regex::Regex::new`, `regex::Regex::captures`,
/// `regex::Regex::capture_names` and `regex::Captures::name`: the named
/// groups participating in the leftmost match depend on the pattern and the
/// haystack alone.
#[verifier::external_body]
pub fn regex_named_captures(pattern: &str, text: &str) -> (r: Option<Vec<(String, String)>>)
    ensures
        match (r, regex_captures_of(pattern@, text@)) {
            (Some(v), Some(s)) => crate::models::view_pairs(v@) == s,
            (None, None) => true,
            _ => false,
        },
{
    let re = match regex::Regex::new(pattern) {
        Ok(re) => re,
        Err(_) => return None,
    };
    let caps = re.captures(text)?;
    let mut out: Vec<(String, String)> = Vec::new();
    for name in re.capture_names().flatten() {
        if let Some(m) = caps.name(name) {
            out.push((name.to_string(), m.as_str().to_string()));
        }
    }
    Some(out)
}

} // verus!

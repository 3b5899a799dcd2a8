//! Trusted boundary to the `regex` crate.
//!
//! A trigger or context pattern is handed to `regex` as source text; whether
//! it compiles, whether it matches a given text, and which named groups
//! participated are all functions of the pattern and the text alone, so each
//! is given a name here and the wrappers relate their results to those names.

use vstd::prelude::*;

verus! {

#[verifier::external_type_specification]
#[verifier::external_body]
pub struct ExRegexError(regex::Error);

/// Whether `pattern` is accepted by `regex::Regex::new`.
pub uninterp spec fn regex_valid(pattern: Seq<char>) -> bool;

/// Whether a compiled `pattern` finds a match somewhere in `text`, as
/// `regex::Regex::is_match` decides it.
pub uninterp spec fn regex_matches(pattern: Seq<char>, text: Seq<char>) -> bool;

/// The named capture groups of `pattern` that participate in its first match
/// in `text`, each paired with the text it matched, in declaration order of
/// the groups, as `regex::Regex::captures` reports them.
pub uninterp spec fn regex_captures(pattern: Seq<char>, text: Seq<char>) -> Seq<
    (Seq<char>, Seq<char>),
>;

/// The character sequences of a list of (name, value) capture pairs.
pub open spec fn pairs_view(pairs: Seq<(String, String)>) -> Seq<(Seq<char>, Seq<char>)> {
    pairs.map_values(|p: (String, String)| (p.0@, p.1@))
}

/// Relies on regex::Regex::new and regex::Regex::is_match: compilation
/// succeeds or fails on the pattern text alone, and a compiled pattern
/// matches a text or not on the pair alone.
#[verifier::external_body]
pub fn regex_match_text(pattern: &str, text: &str) -> (r: Result<bool, regex::Error>)
    ensures
        r is Ok <==> regex_valid(pattern@),
        r matches Ok(b) ==> b == regex_matches(pattern@, text@),
{
    match regex::Regex::new(pattern) {
        Ok(re) => Ok(re.is_match(text)),
        Err(e) => Err(e),
    }
}

/// Relies on regex::Regex::new, regex::Regex::captures,
/// regex::Regex::capture_names and regex::Captures::name: `captures` returns
/// a match exactly when `is_match` holds, `capture_names` yields the group
/// names in declaration order, and `name` reports the text of each group
/// that participated in the match.
#[verifier::external_body]
pub fn regex_capture_text(pattern: &str, text: &str) -> (r: Result<
    Option<Vec<(String, String)>>,
    regex::Error,
>)
    ensures
        r is Ok <==> regex_valid(pattern@),
        r matches Ok(o) ==> ((o is Some) <==> regex_matches(pattern@, text@)),
        r matches Ok(o) ==> (o matches Some(pairs) ==> pairs_view(pairs@) == regex_captures(
            pattern@,
            text@,
        )),
{
    let re = match regex::Regex::new(pattern) {
        Ok(re) => re,
        Err(e) => return Err(e),
    };
    let caps = match re.captures(text) {
        Some(caps) => caps,
        None => return Ok(None),
    };
    let pairs = re
        .capture_names()
        .flatten()
        .filter_map(|name| caps.name(name).map(|v| (name.to_string(), v.as_str().to_string())))
        .collect();
    Ok(Some(pairs))
}

} // verus!

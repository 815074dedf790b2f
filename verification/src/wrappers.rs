//! Trusted boundaries to outside crates.
//!
//! Each function here makes one outside call; what Verus believes about it
//! is stated in its contract and named by an uninterpreted function, since
//! each result depends on the arguments alone.

use vstd::prelude::*;

verus! {

/// What reading a YAML document and re-writing it as compact JSON yields:
/// `Some` JSON text when the document is accepted, `None` when it is not.
pub uninterp spec fn yaml_as_json(s: Seq<char>) -> Option<Seq<char>>;

/// Relies on `serde_yaml::from_str` to read a YAML document and
/// `serde_json::to_string` to write the same structure as compact JSON.
/// Both are pure functions of the text, so the outcome is named by
/// `yaml_as_json`.
#[verifier::external_body]
pub(crate) fn yaml_to_json_text(src: &str) -> (r: Result<String, String>)
    ensures
        match r {
            Ok(t) => yaml_as_json(src@) == Some(t@),
            Err(_) => yaml_as_json(src@) is None,
        },
{
    match serde_yaml::from_str::<serde_yaml::Value>(src) {
        Ok(v) => match serde_json::to_string(&v) {
            Ok(t) => Ok(t),
            Err(e) => Err(e.to_string()),
        },
        Err(e) => Err(e.to_string()),
    }
}

/// What parsing a date-time against a format yields: `None` on success,
/// `Some` rendered error otherwise. The result depends on the text and
/// format alone.
pub uninterp spec fn datetime_parse_result(s: Seq<char>, fmt: Seq<char>) -> Option<Seq<char>>;

/// Relies on `chrono::NaiveDateTime::parse_from_str`: whether a text
/// parses as a date-time under a format, and the rendered error when it
/// does not, depend on the two arguments alone.
#[verifier::external_body]
pub(crate) fn parse_datetime(s: &str, fmt: &str) -> (r: Result<(), String>)
    ensures
        match r {
            Ok(()) => datetime_parse_result(s@, fmt@) is None,
            Err(m) => datetime_parse_result(s@, fmt@) == Some(m@),
        },
{
    match chrono::NaiveDateTime::parse_from_str(s, fmt) {
        Ok(_) => Ok(()),
        Err(e) => Err(e.to_string()),
    }
}

/// What parsing a plain date against a format yields, in the same manner.
pub uninterp spec fn date_parse_result(s: Seq<char>, fmt: Seq<char>) -> Option<Seq<char>>;

/// Relies on `chrono::NaiveDate::parse_from_str`: whether a text parses
/// as a date under a format depends on the two arguments alone.
#[verifier::external_body]
pub(crate) fn parse_date(s: &str, fmt: &str) -> (r: Result<(), String>)
    ensures
        match r {
            Ok(()) => date_parse_result(s@, fmt@) is None,
            Err(m) => date_parse_result(s@, fmt@) == Some(m@),
        },
{
    match chrono::NaiveDate::parse_from_str(s, fmt) {
        Ok(_) => Ok(()),
        Err(e) => Err(e.to_string()),
    }
}

} // verus!

//! Trusted declarations: the outside crates this library calls in the middle
//! of its logic, and the few std functions that vstd leaves unspecified.
//! Everything else in the crate is verified against these contracts.
use vstd::prelude::*;

verus! {

// ---------------------------------------------------------------------------
// std
// ---------------------------------------------------------------------------
/// Relies on std's `String::push`: appends exactly one character.
pub assume_specification[ String::push ](s: &mut String, c: char)
    ensures
        final(s)@ == old(s)@.push(c),
;

// ---------------------------------------------------------------------------
// urlencoding
// ---------------------------------------------------------------------------
/// What `urlencoding::decode` returns for a given input; the decoding is a
/// function of the input characters alone.
pub uninterp spec fn percent_decoded(s: Seq<char>) -> Option<Seq<char>>;

/// Relies on `urlencoding::decode` (2.1.3): percent-decodes `%XX` escapes and
/// re-validates the bytes as UTF-8; an input without `%` comes back
/// unchanged (its source returns the borrowed input in that case).
#[verifier::external_body]
pub fn percent_decode(s: &str) -> (r: Option<String>)
    ensures
        match r {
            Some(d) => percent_decoded(s@) == Some(d@) && ((forall|i: int|
                0 <= i < s@.len() ==> s@[i] != '%') ==> d@ == s@),
            None => percent_decoded(s@) is None && (exists|i: int|
                0 <= i < s@.len() && s@[i] == '%'),
        },
{
    match urlencoding::decode(s) {
        Ok(c) => Some(c.into_owned()),
        Err(_) => None,
    }
}

// ---------------------------------------------------------------------------
// chrono
// ---------------------------------------------------------------------------
/// Relies on `chrono::Utc::now` and `DateTime::timestamp_millis` (0.4): the
/// current instant in milliseconds; nothing is promised of the value.
#[verifier::external_body]
pub fn now_millis() -> i64 {
    chrono::Utc::now().timestamp_millis()
}

// ---------------------------------------------------------------------------
// regex
// ---------------------------------------------------------------------------
#[verifier::external_type_specification]
#[verifier::external_body]
pub struct ExRegexSet(regex::RegexSet);

/// The patterns a compiled set was built from.
pub uninterp spec fn regex_set_pats(s: regex::RegexSet) -> Seq<Seq<char>>;

/// Whether any of the given patterns matches somewhere inside `text`;
/// a function of the patterns and the text alone.
pub uninterp spec fn regex_any_match(pats: Seq<Seq<char>>, text: Seq<char>) -> bool;

/// Whether a list of patterns compiles as regular expressions; a function
/// of the pattern strings alone.
pub uninterp spec fn regex_pats_ok(pats: Seq<Seq<char>>) -> bool;

/// Relies on `regex::RegexSet::new` (1.13): compiles the given patterns,
/// failing exactly when one of them is not a valid regular expression.
#[verifier::external_body]
pub fn regex_set_new(patterns: &Vec<String>) -> (r: Option<regex::RegexSet>)
    ensures
        match r {
            Some(set) => regex_pats_ok(patterns.deep_view()) && regex_set_pats(set)
                == patterns.deep_view(),
            None => !regex_pats_ok(patterns.deep_view()),
        },
{
    match regex::RegexSet::new(patterns) {
        Ok(s) => Some(s),
        Err(_) => None,
    }
}

/// Relies on `regex::RegexSet::is_match` (1.13): true iff one of the set's
/// patterns matches somewhere in the haystack.
#[verifier::external_body]
pub fn regex_set_is_match(set: &regex::RegexSet, text: &str) -> (r: bool)
    ensures
        r == regex_any_match(regex_set_pats(*set), text@),
{
    set.is_match(text)
}

} // verus!

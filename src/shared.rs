//! Small shared items: tag stripping for user text, and cache entries.

use vstd::prelude::*;

verus! {

/// The text with every match of a regular expression removed, if the
/// expression compiles.
pub uninterp spec fn regex_removed(pattern: Seq<char>, s: Seq<char>) -> Option<Seq<char>>;

/// Relies on `regex::Regex::new` and `Regex::replace_all` with an empty
/// replacement: every non-overlapping match of the pattern in `s` removed,
/// or none where the pattern does not compile.
#[verifier::external_body]
fn remove_matches(pattern: &str, s: &str) -> (r: Option<String>)
    ensures
        match r {
            Some(t) => regex_removed(pattern@, s@) == Some(t@),
            None => regex_removed(pattern@, s@) is None,
        },
{
    match regex::Regex::new(pattern) {
        Ok(re) => Some(re.replace_all(s, "").to_string()),
        Err(_) => None,
    }
}

/// One stripping step: the matches of `pattern` removed, or the text as it
/// was where the pattern does not compile.
pub open spec fn strip_step(pattern: Seq<char>, s: Seq<char>) -> Seq<char> {
    match regex_removed(pattern, s) {
        Some(t) => t,
        None => s,
    }
}

/// The text with the opening of form, script, button and anchor tags
/// removed, in that order, in any letter case.
pub open spec fn stripped(s: Seq<char>) -> Seq<char> {
    strip_step(
        "(?i)<a"@,
        strip_step("(?i)<button"@, strip_step("(?i)<script"@, strip_step("(?i)<form"@, s))),
    )
}

/// One stripping step.
fn strip_with(pattern: &str, s: String) -> (r: String)
    ensures
        r@ == strip_step(pattern@, s@),
{
    match remove_matches(pattern, s.as_str()) {
        Some(t) => t,
        None => s,
    }
}

/// Strip some tags from an HTML text so that it can be shown directly: no
/// form, script, button or anchor is opened by what remains.
pub fn strip_some_tags(s: &str) -> (r: String)
    ensures
        r@ == stripped(s@),
{
    let mut ret = String::from_str(s);
    ret = strip_with("(?i)<form", ret);
    ret = strip_with("(?i)<script", ret);
    ret = strip_with("(?i)<button", ret);
    ret = strip_with("(?i)<a", ret);
    ret
}

#[verifier::external_type_specification]
#[verifier::external_body]
pub struct ExInstant(std::time::Instant);

/// Relies on `std::time::Instant::now`: the current instant of a monotonic
/// clock; nothing is known of its value.
#[verifier::external_body]
fn instant_now() -> (r: std::time::Instant) {
    std::time::Instant::now()
}

/// Data wrapper for items in the server-side cache.
pub struct CacheEntry {
    pub inserted: std::time::Instant,
    pub data: String,
}

impl CacheEntry {
    /// Wrap the data with the time it was stored.
    pub fn new(data: String) -> (r: CacheEntry)
        ensures
            r.data@ == data@,
    {
        CacheEntry { inserted: instant_now(), data }
    }
}

} // verus!

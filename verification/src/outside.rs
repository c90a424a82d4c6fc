//! The trusted boundary: declarations of the outside types the core
//! carries and wrappers for the outside calls its logic makes.  Verus
//! believes the contracts stated here; everything else is proved.

use vstd::prelude::*;

verus! {

#[verifier::external_type_specification]
#[verifier::external_body]
pub struct ExRegex(regex::Regex);

/// Whether a pattern is accepted by the regular-expression compiler.
/// The verdict depends on the pattern text alone.
pub uninterp spec fn regex_valid(s: Seq<char>) -> bool;

/// Relies on `regex::Regex::new`: compiling a pattern succeeds exactly
/// for syntactically valid patterns, and the verdict is a function of
/// the pattern text; on failure the compiler's message is returned.
#[verifier::external_body]
pub fn compile_regex(s: &str) -> (r: Result<regex::Regex, String>)
    ensures
        r is Ok <==> regex_valid(s@),
{
    match regex::Regex::new(s) {
        Ok(re) => Ok(re),
        Err(e) => Err(format!("{}", e)),
    }
}

/// Relies on `regex::Regex::clone`: duplicates a compiled matcher.
#[verifier::external_body]
pub fn clone_regex(re: &regex::Regex) -> regex::Regex {
    re.clone()
}

/// Relies on `chrono::DateTime::from_timestamp` and chrono's formatting
/// with the machine's local time zone.  The rendering depends on that
/// time zone, so nothing is claimed about the text.
#[verifier::external_body]
pub fn format_local_time(secs: i64, nanos: u32) -> String {
    match chrono::DateTime::from_timestamp(secs, nanos) {
        Some(t) => t.with_timezone(&chrono::Local).format("%Y-%m-%d %H:%M:%S %z").to_string(),
        None => String::new(),
    }
}

/// Relies on `std::path::Path::canonicalize`: resolves a path against
/// the file system.  The outcome depends on what is on disk, so nothing
/// is claimed about it.
#[verifier::external_body]
pub fn canonical_path(s: &str) -> Option<String> {
    match std::path::Path::new(s).canonicalize() {
        Ok(p) => p.to_str().map(|t| String::from(t)),
        Err(_) => None,
    }
}

} // verus!

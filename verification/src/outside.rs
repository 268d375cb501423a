//! The calls into other crates. What stands in the contracts of this file
//! is taken on trust.

use vstd::prelude::*;
use crate::kcli::STAMP_FORMAT;

verus! {

/// Whether `text` holds a match of the regular expression `pattern`;
/// `None` where `pattern` is no regular expression.
pub uninterp spec fn regex_matches(pattern: Seq<char>, text: Seq<char>) -> Option<bool>;

/// Compiles `pattern` with `regex::Regex::new` and searches `text` with
/// `Regex::is_match`. The contract gives the outcome a name: it depends on
/// the two texts alone. A pattern that does not compile gives `None`.
#[verifier::external_body]
pub(crate) fn regex_is_match(pattern: &str, text: &str) -> (found: Option<bool>)
    ensures
        found == regex_matches(pattern@, text@),
{
    match regex::Regex::new(pattern) {
        Ok(re) => Some(re.is_match(text)),
        Err(_) => None,
    }
}

/// Reads the clock with `chrono::offset::Local::now` and writes the local
/// time with `DateTime::format`. Nothing is claimed of the text: it changes
/// with the time and the time zone. The format is fixed by `requires`,
/// because formatting fails on a text that is no format.
#[verifier::external_body]
pub(crate) fn local_time(format: &str) -> (stamp: String)
    requires
        format@ == STAMP_FORMAT@,
{
    chrono::offset::Local::now().format(format).to_string()
}

} // verus!

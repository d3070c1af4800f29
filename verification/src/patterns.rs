//! Regular expressions that a configuration gives.

use regex::Regex;
use vstd::prelude::*;

verus! {

/// Whether `regex::Regex::new` takes the pattern.
pub uninterp spec fn regex_compiles(pattern: Seq<char>) -> bool;

/// What `regex::Regex::is_match` says of a text, for a pattern that compiles.
pub uninterp spec fn regex_matches(pattern: Seq<char>, text: Seq<char>) -> bool;

/// What the group of that number holds in the first match of `regex::Regex::captures` in a text,
/// for a pattern that compiles.
pub uninterp spec fn regex_group(pattern: Seq<char>, text: Seq<char>, group: usize) -> Option<
    Seq<char>,
>;

/// `regex::Regex::new`: whether the pattern compiles.
#[verifier::external_body]
pub(crate) fn is_regex(pattern: &str) -> (valid: bool)
    ensures
        valid == regex_compiles(pattern@),
{
    Regex::new(pattern).is_ok()
}

/// `regex::Regex::is_match`: whether the pattern matches somewhere in the text; nothing where the
/// pattern does not compile.
#[verifier::external_body]
pub(crate) fn regex_is_match(pattern: &str, text: &str) -> (found: Option<bool>)
    ensures
        found == (if regex_compiles(pattern@) {
            Some(regex_matches(pattern@, text@))
        } else {
            None
        }),
{
    Regex::new(pattern).ok().map(|regex| regex.is_match(text))
}

/// `regex::Regex::captures` and `regex::Captures::get`: what a group holds in the first match of
/// the pattern; nothing where there is no match, no such group, or the pattern does not compile.
#[verifier::external_body]
pub(crate) fn regex_capture(pattern: &str, text: &str, group: usize) -> (found: Option<String>)
    ensures
        match found {
            Some(value) => regex_compiles(pattern@) && regex_group(pattern@, text@, group) == Some(
                value@,
            ),
            None => regex_compiles(pattern@) ==> regex_group(pattern@, text@, group) is None,
        },
{
    let regex = Regex::new(pattern).ok()?;
    let captures = regex.captures(text)?;
    captures.get(group).map(|value| value.as_str().to_owned())
}

} // verus!

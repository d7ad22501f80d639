//! Text made fit for the clipboard: terminal colours taken out, by `regex`.

use vstd::prelude::*;
use vstd::string::*;

verus! {

/// `regex::Error`, the reason why a text is no regular expression. Nothing
/// is claimed of what it holds.
#[verifier::external_type_specification]
#[verifier::external_body]
pub struct ExRegexError(regex::Error);

/// Whether `regex::Regex::new` accepts `pattern`.
pub uninterp spec fn is_pattern(pattern: Seq<char>) -> bool;

/// What `regex::Regex::replace_all` makes of `text`, for the regular
/// expression `pattern` and the replacement `replacement`.
pub uninterp spec fn replaced_all(pattern: Seq<char>, text: Seq<char>, replacement: Seq<char>) -> Seq<
    char,
>;

/// Calls `regex::Regex::new` on `pattern` and, where that succeeds,
/// `Regex::replace_all` on `text`. Trusted: the call succeeds exactly on
/// the patterns that [`is_pattern`] names, and then gives what
/// [`replaced_all`] names.
#[verifier::external_body]
fn replace_all(pattern: &str, text: &str, replacement: &str) -> (r: Result<String, regex::Error>)
    ensures
        r is Ok == is_pattern(pattern@),
        r is Ok ==> r->Ok_0@ == replaced_all(pattern@, text@, replacement@),
{
    regex::Regex::new(pattern).map(|re| re.replace_all(text, replacement).into_owned())
}

/// The regular expression of an ANSI escape sequence: the escape
/// character, an opening bracket, parameter bytes, intermediate bytes, and
/// one final byte.
pub const ANSI_ESCAPE: &'static str = r"\x1b\[([\x30-\x3f]*[\x20-\x2f]*[\x40-\x7e])";

/// `text` without its ANSI escape sequences. `None` only where `regex`
/// does not take [`ANSI_ESCAPE`] for a regular expression.
pub fn strip_ansi_escapes(text: &str) -> (r: Option<String>)
    ensures
        r.is_some() == is_pattern(ANSI_ESCAPE@),
        r.is_some() ==> r.unwrap()@ == replaced_all(ANSI_ESCAPE@, text@, ""@),
{
    match replace_all(ANSI_ESCAPE, text, "") {
        Ok(clean) => Some(clean),
        Err(_) => None,
    }
}

} // verus!

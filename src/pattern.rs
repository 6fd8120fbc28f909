//! Regular expressions, through the `regex` crate.
use vstd::prelude::*;

verus! {

#[verifier::external_type_specification]
#[verifier::external_body]
pub struct ExRegex(regex::Regex);

/// Whether `regex::Regex::new` accepts the pattern.
pub uninterp spec fn regex_valid(pattern: Seq<char>) -> bool;

/// Whether the regex that `regex::Regex::new` builds from the pattern matches
/// anywhere in the text (`regex::Regex::is_match`).
pub uninterp spec fn regex_is_match(pattern: Seq<char>, text: Seq<char>) -> bool;

/// The text with every non-overlapping match of the regex that
/// `regex::Regex::new` builds from the pattern replaced by the expanded
/// replacement (`regex::Regex::replace_all`).
pub uninterp spec fn regex_replace_all(
    pattern: Seq<char>,
    text: Seq<char>,
    replacement: Seq<char>,
) -> Seq<char>;

/// Relies on `regex::Regex::new`: it fails exactly on the patterns it
/// rejects, with the error's message.
#[verifier::external_body]
fn compile_regex(pattern: &str) -> (r: Result<regex::Regex, String>)
    ensures
        r is Ok <==> regex_valid(pattern@),
{
    regex::Regex::new(pattern).map_err(|e| e.to_string())
}

/// A regular expression built by `regex::Regex::new` from `source`. The
/// fields are private and `compile` is the only constructor, so the regex
/// always is the one `Regex::new` makes of the source text.
#[derive(Debug)]
pub struct Pattern {
    regex: regex::Regex,
    source: String,
}

impl Pattern {
    /// The pattern text.
    pub closed spec fn spec_source(&self) -> Seq<char> {
        self.source@
    }

    /// Compiles the pattern; fails with the regex crate's message.
    pub fn compile(pattern: &str) -> (r: Result<Pattern, String>)
        ensures
            r is Ok <==> regex_valid(pattern@),
            r matches Ok(p) ==> p.spec_source() == pattern@,
    {
        match compile_regex(pattern) {
            Ok(regex) => Ok(Pattern { regex, source: pattern.to_string() }),
            Err(m) => Err(m),
        }
    }

    pub fn source(&self) -> (r: &str)
        ensures
            r@ == self.spec_source(),
    {
        self.source.as_str()
    }
}

/// Relies on `regex::Regex::is_match`: whether the regex matches anywhere in
/// the text.
#[verifier::external_body]
pub(crate) fn pattern_matches(p: &Pattern, text: &str) -> (r: bool)
    ensures
        r == regex_is_match(p.spec_source(), text@),
{
    p.regex.is_match(text)
}

/// Relies on `regex::Regex::replace_all` with a string replacement, in which
/// `$name` and `$n` refer to capture groups; without a match the text comes
/// back unchanged.
#[verifier::external_body]
pub(crate) fn pattern_replace(p: &Pattern, text: &str, replacement: &str) -> (r: String)
    ensures
        r@ == regex_replace_all(p.spec_source(), text@, replacement@),
        !regex_is_match(p.spec_source(), text@) ==> r@ == text@,
{
    p.regex.replace_all(text, replacement).into_owned()
}

} // verus!

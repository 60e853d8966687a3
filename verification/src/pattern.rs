//! Location patterns: regular expressions compiled by the `regex` crate.

use vstd::prelude::*;

verus! {

#[verifier::external_type_specification]
#[verifier::external_body]
pub struct ExRegex(regex::Regex);

/// Whether `regex::Regex::new` accepts the pattern.
pub uninterp spec fn regex_accepts(pattern: Seq<char>) -> bool;

/// Whether the regular expression `pattern` matches somewhere in `haystack`,
/// as `regex::Regex::is_match` decides.
pub uninterp spec fn regex_finds(pattern: Seq<char>, haystack: Seq<char>) -> bool;

/// A compiled regular expression together with the pattern it was built from.
pub struct Pattern {
    source: String,
    compiled: regex::Regex,
}

impl View for Pattern {
    type V = Seq<char>;

    closed spec fn view(&self) -> Seq<char> {
        self.source@
    }
}

impl Pattern {
    /// `regex::Regex::new`: succeeds exactly when the crate accepts the
    /// pattern (named `regex_accepts`); a success keeps the pattern text
    /// beside the compiled expression. The crate's error value, which only
    /// describes the failure, is not passed on.
    #[verifier::external_body]
    pub(crate) fn compile(pattern: &str) -> (compiled: Option<Pattern>)
        ensures
            compiled is Some <==> regex_accepts(pattern@),
            compiled matches Some(p) ==> p@ == pattern@,
    {
        match regex::Regex::new(pattern) {
            Ok(re) => Some(Pattern { source: pattern.to_string(), compiled: re }),
            Err(_) => None,
        }
    }

    /// `regex::Regex::is_match`: whether the expression matches anywhere in
    /// `haystack`, named `regex_finds` over the pattern text.
    #[verifier::external_body]
    pub(crate) fn is_match(&self, haystack: &str) -> (found: bool)
        ensures
            found == regex_finds(self@, haystack@),
    {
        self.compiled.is_match(haystack)
    }
}

} // verus!

//! Regular-expression rewriting, delegated to the `regex` crate.
//!
//! What a regex match does takes pages to state, so each result is named by
//! an uninterpreted function of the pattern and the texts.
use vstd::prelude::*;
use crate::urls::opt_view;

verus! {

/// Whether `regex::Regex::new(pattern)` accepts the pattern.
pub uninterp spec fn regex_compiles(pattern: Seq<char>) -> bool;

/// `Regex::new(pattern)` then `Regex::replace_all(haystack, replacement)`;
/// `None` when the pattern does not compile.
pub uninterp spec fn regex_replace_all_of(pattern: Seq<char>, haystack: Seq<char>, replacement: Seq<char>) -> Option<Seq<char>>;

/// `Regex::new(pattern)` then `Regex::replace` (the first match only);
/// `None` when the pattern does not compile.
pub uninterp spec fn regex_replace_first_of(pattern: Seq<char>, haystack: Seq<char>, replacement: Seq<char>) -> Option<Seq<char>>;

/// Calls `regex::Regex::new` and reports whether it succeeded.
#[verifier::external_body]
pub fn regex_is_valid(pattern: &str) -> (r: bool)
    ensures
        r == regex_compiles(pattern@),
{
    regex::Regex::new(pattern).is_ok()
}

/// Calls `regex::Regex::new(pattern)` and `Regex::replace_all`.  Claims
/// that the result is the named function of the three texts, and that it is
/// present exactly when the pattern compiles.
#[verifier::external_body]
pub fn regex_replace_all(pattern: &str, haystack: &str, replacement: &str) -> (r: Option<String>)
    ensures
        opt_view(r) == regex_replace_all_of(pattern@, haystack@, replacement@),
        r is Some == regex_compiles(pattern@),
{
    regex::Regex::new(pattern).ok().map(|re| re.replace_all(haystack, replacement).into_owned())
}

/// Calls `regex::Regex::new(pattern)` and `Regex::replace` (first match).
/// Claims that the result is the named function of the three texts, and
/// that it is present exactly when the pattern compiles.
#[verifier::external_body]
pub fn regex_replace_first(pattern: &str, haystack: &str, replacement: &str) -> (r: Option<String>)
    ensures
        opt_view(r) == regex_replace_first_of(pattern@, haystack@, replacement@),
        r is Some == regex_compiles(pattern@),
{
    regex::Regex::new(pattern).ok().map(|re| re.replace(haystack, replacement).into_owned())
}

/// The error text of `RegexBuilder::new(pattern).case_insensitive(true).build()`,
/// or `None` when it builds.
pub uninterp spec fn regex_ci_error_of(pattern: Seq<char>) -> Option<Seq<char>>;

/// Whether the case-insensitive regex built from `pattern` matches somewhere
/// in `haystack` (`Regex::is_match`).
pub uninterp spec fn regex_ci_match_of(pattern: Seq<char>, haystack: Seq<char>) -> bool;

#[verifier::external_type_specification]
#[verifier::external_body]
pub struct ExRegex(regex::Regex);

/// A case-insensitive regex, with the pattern it was built from.
pub struct CaseInsensitiveRegex {
    pattern: String,
    re: regex::Regex,
}

impl CaseInsensitiveRegex {
    /// The pattern the regex was built from.
    pub closed spec fn pattern_v(&self) -> Seq<char> {
        self.pattern@
    }

    /// Calls `regex::RegexBuilder::new(pattern).case_insensitive(true).build()`.
    /// Claims that it builds exactly when the named error is absent, that the
    /// error text is the named one, and that the result remembers `pattern`.
    #[verifier::external_body]
    pub(crate) fn build(pattern: &str) -> (r: Result<Self, String>)
        ensures
            match r {
                Ok(x) => regex_ci_error_of(pattern@) is None && x.pattern_v() == pattern@,
                Err(e) => regex_ci_error_of(pattern@) == Some(e@),
            },
    {
        match regex::RegexBuilder::new(pattern).case_insensitive(true).build() {
            Ok(re) => Ok(CaseInsensitiveRegex { pattern: pattern.to_owned(), re }),
            Err(e) => Err(e.to_string()),
        }
    }

    /// Calls `Regex::is_match`; claims the result is the named function of
    /// the pattern and the haystack.
    #[verifier::external_body]
    pub(crate) fn is_match(&self, haystack: &str) -> (r: bool)
        ensures
            r == regex_ci_match_of(self.pattern_v(), haystack@),
    {
        self.re.is_match(haystack)
    }
}

} // verus!

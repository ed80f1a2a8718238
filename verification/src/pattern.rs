//! Regular expressions for the mutation pipeline. A compiled expression is
//! held together with the pattern text it was compiled from, so contracts can
//! speak of what matching or replacing with that pattern returns.

use vstd::prelude::*;

verus! {

#[verifier::external_type_specification]
#[verifier::external_body]
pub struct ExRegex(regex::Regex);

/// Whether the regular expression compiled from `pattern` matches anywhere in
/// `text`. The answer depends on the pattern and the text alone.
pub uninterp spec fn regex_matches(pattern: Seq<char>, text: Seq<char>) -> bool;

/// `text` with every non-overlapping match of the regular expression compiled
/// from `pattern` replaced by `replacement`, as the regex engine performs it.
/// The result depends on the three arguments alone.
pub uninterp spec fn regex_replace_all(
    pattern: Seq<char>,
    text: Seq<char>,
    replacement: Seq<char>,
) -> Seq<char>;

/// A compiled regular expression paired with the pattern it was compiled from.
#[derive(Debug)]
pub struct RegexPattern {
    pattern: String,
    compiled: regex::Regex,
}

impl RegexPattern {
    /// The pattern this expression was compiled from.
    pub closed spec fn src(&self) -> Seq<char> {
        self.pattern@
    }

    /// Relies on `regex::Regex::new`: compiles `pattern`, `None` when the
    /// pattern is not a valid regular expression.
    #[verifier::external_body]
    pub fn compile(pattern: &str) -> (r: Option<RegexPattern>)
        ensures
            match r {
                Some(p) => p.src() == pattern@,
                None => true,
            },
    {
        match regex::Regex::new(pattern) {
            Ok(compiled) => Some(RegexPattern { pattern: String::from(pattern), compiled }),
            Err(_) => None,
        }
    }

    /// Relies on `regex::Regex::is_match`: whether this expression matches
    /// anywhere in `text`.
    #[verifier::external_body]
    pub(crate) fn is_match(&self, text: &str) -> (r: bool)
        ensures
            r == regex_matches(self.src(), text@),
    {
        self.compiled.is_match(text)
    }

    /// Relies on `regex::Regex::replace_all`: `text` with every
    /// non-overlapping match replaced by `replacement`.
    #[verifier::external_body]
    pub(crate) fn replace_all(&self, text: &str, replacement: &str) -> (r: String)
        ensures
            r@ == regex_replace_all(self.src(), text@, replacement@),
    {
        self.compiled.replace_all(text, replacement).into_owned()
    }
}

} // verus!

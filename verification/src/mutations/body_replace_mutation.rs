//! Rewriting bodies by literal or regular-expression replacement.

use vstd::prelude::*;

use crate::mutations::BodyMutation;
use crate::pattern::{regex_replace_all, RegexPattern};
use crate::text::{chars_of, replace_all, replace_all_chars, string_of};

verus! {

/// Replaces every occurrence of a literal substring in a body. An empty search
/// text leaves the body unchanged.
#[derive(Debug)]
pub struct BodyReplaceMutation {
    pub text: String,
    pub substitution: String,
}

impl BodyReplaceMutation {
    /// A mutation that replaces every occurrence of `text` by `substitution`.
    pub fn new(text: String, substitution: String) -> (r: Self)
        ensures
            r.text@ == text@,
            r.substitution@ == substitution@,
    {
        BodyReplaceMutation { text, substitution }
    }
}

impl BodyMutation for BodyReplaceMutation {
    open spec fn spec_mutate(&self, body: Seq<char>) -> Seq<char> {
        replace_all(body, self.text@, self.substitution@)
    }

    fn mutate(&self, body: &mut String) {
        let hay = chars_of(body.as_str());
        let pat = chars_of(self.text.as_str());
        let rep = chars_of(self.substitution.as_str());
        let replaced = replace_all_chars(hay.as_slice(), pat.as_slice(), rep.as_slice());
        *body = string_of(replaced.as_slice());
    }
}

/// Replaces every non-overlapping match of a regular expression in a body.
#[derive(Debug)]
pub struct BodyReplaceRegexMutation {
    pub pattern: RegexPattern,
    pub substitution: String,
}

impl BodyReplaceRegexMutation {
    /// A mutation that replaces every match of `pattern` by `substitution`.
    pub fn new(pattern: RegexPattern, substitution: String) -> (r: Self)
        ensures
            r.pattern == pattern,
            r.substitution@ == substitution@,
    {
        BodyReplaceRegexMutation { pattern, substitution }
    }
}

impl BodyMutation for BodyReplaceRegexMutation {
    open spec fn spec_mutate(&self, body: Seq<char>) -> Seq<char> {
        regex_replace_all(self.pattern.src(), body, self.substitution@)
    }

    fn mutate(&self, body: &mut String) {
        let replaced = self.pattern.replace_all(body.as_str(), self.substitution.as_str());
        *body = replaced;
    }
}

} // verus!

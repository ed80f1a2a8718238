//! Errors of the Markdown conversation store, and the structured differences
//! its comparison reports.

use vstd::prelude::*;

use crate::text::{dec_digits_of, push_decimal, string_of};

verus! {

/// A failure while parsing or comparing a Markdown conversation document.
#[derive(Debug)]
pub enum Error {
    /// No interaction block could be read from the document.
    InvalidMarkdownFormat,
    /// An interaction heading carries a number outside `u8`.
    InvalidInteractionNumber,
    /// A response-body heading carries a status outside `u16`.
    InvalidStatusCode,
    /// Two conversations differ; the payload says where and how.
    MarkdownsDiffer(MarkdownsDifferenceType, MarkdownsDifferenceLocation),
}

/// Which shape of difference the comparison found first.
#[derive(Debug)]
pub enum MarkdownsDifferenceType {
    Body(MarkdownsBodyDifference),
    Header(MarkdownsHeaderDifference),
}

/// Whether a difference lies in the request or the response of a pair.
#[derive(Debug, Copy, Clone, Eq, PartialEq, Structural)]
pub enum MarkdownsDifferenceLocation {
    Request,
    Response,
}

/// The first differing character between two normalised bodies: 1-based line,
/// the column within it, and a clamped window of surrounding text from each
/// side.
#[derive(Debug)]
pub struct MarkdownsBodyDifference {
    pub line: u32,
    pub column: u32,
    pub old_context: String,
    pub new_context: String,
}

/// A header present on one side only, or present on both with different
/// trimmed values.
#[derive(Debug)]
pub struct MarkdownsHeaderDifference {
    pub header_name: String,
    pub old_header_value: Option<String>,
    pub new_header_value: Option<String>,
}

/// The text of a body difference report.
pub open spec fn body_difference_message(d: MarkdownsBodyDifference) -> Seq<char> {
    "Bodies differ at line "@ + dec_digits_of(d.line as nat) + ", column "@ + dec_digits_of(
        d.column as nat,
    ) + ". Old: \""@ + d.old_context@ + "\". New: \""@ + d.new_context@ + "\""@
}

impl MarkdownsBodyDifference {
    /// Renders this difference for display.
    pub fn message(&self) -> (r: String)
        ensures
            r@ == body_difference_message(*self),
    {
        let mut out: Vec<char> = Vec::new();
        crate::text::push_str_chars(&mut out, "Bodies differ at line ");
        push_decimal(&mut out, self.line);
        crate::text::push_str_chars(&mut out, ", column ");
        push_decimal(&mut out, self.column);
        crate::text::push_str_chars(&mut out, ". Old: \"");
        crate::text::push_str_chars(&mut out, self.old_context.as_str());
        crate::text::push_str_chars(&mut out, "\". New: \"");
        crate::text::push_str_chars(&mut out, self.new_context.as_str());
        crate::text::push_str_chars(&mut out, "\"");
        proof {
            assert(out@ =~= body_difference_message(*self));
        }
        string_of(out.as_slice())
    }
}

/// The text of a header difference report: each side shown as `"name": "value"`
/// or as a marker for a missing header.
pub open spec fn header_side_message(name: Seq<char>, value: Option<String>) -> Seq<char> {
    match value {
        Some(v) => "\""@ + name + "\": \""@ + v@ + "\""@,
        None => "<no header value>"@,
    }
}

/// The text of a header difference report.
pub open spec fn header_difference_message(d: MarkdownsHeaderDifference) -> Seq<char> {
    "Headers differ. old - "@ + header_side_message(d.header_name@, d.old_header_value) + ", new - "@
        + header_side_message(d.header_name@, d.new_header_value)
}

impl MarkdownsHeaderDifference {
    /// Renders this difference for display.
    pub fn message(&self) -> (r: String)
        ensures
            r@ == header_difference_message(*self),
    {
        let mut out: Vec<char> = Vec::new();
        crate::text::push_str_chars(&mut out, "Headers differ. old - ");
        push_header_side(&mut out, &self.header_name, &self.old_header_value);
        crate::text::push_str_chars(&mut out, ", new - ");
        push_header_side(&mut out, &self.header_name, &self.new_header_value);
        proof {
            assert(out@ =~= header_difference_message(*self));
        }
        string_of(out.as_slice())
    }
}

/// Appends one side of a header difference report to `out`.
fn push_header_side(out: &mut Vec<char>, name: &String, value: &Option<String>)
    ensures
        final(out)@ == old(out)@ + header_side_message(name@, *value),
{
    match value {
        Some(v) => {
            crate::text::push_str_chars(out, "\"");
            crate::text::push_str_chars(out, name.as_str());
            crate::text::push_str_chars(out, "\": \"");
            crate::text::push_str_chars(out, v.as_str());
            crate::text::push_str_chars(out, "\"");
            proof {
                assert(out@ =~= old(out)@ + header_side_message(name@, *value));
            }
        },
        None => {
            crate::text::push_str_chars(out, "<no header value>");
        },
    }
}

} // verus!

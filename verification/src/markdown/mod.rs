//! The Markdown conversation codec: the exact document grammar as a
//! specification, an emitter and a tolerant parser for it, and the structural
//! diff between two conversations.

pub mod diff;
pub mod error;
pub mod laws;
pub mod parse;

use vstd::prelude::*;

use crate::data::{
    canonical_headers, header_lookup, headers_model, HeaderModel, InteractionData,
    InteractionModel,
};
use crate::text::{dec_digits_of, push_decimal, push_str_chars, string_of};

verus! {

/// One emitted header line: `Name: Value` closed by `terminator`.
pub open spec fn emit_header_line(e: HeaderModel, terminator: Seq<char>) -> Seq<char> {
    e.0 + ": "@ + e.1 + terminator
}

/// The emitted lines of a header list, in the order given.
pub open spec fn emit_header_lines(hs: Seq<HeaderModel>, terminator: Seq<char>) -> Seq<char>
    decreases hs.len(),
{
    if hs.len() == 0 {
        Seq::empty()
    } else {
        emit_header_line(hs[0], terminator) + emit_header_lines(hs.drop_first(), terminator)
    }
}

/// The `content-type` response header, or empty when absent.
pub open spec fn content_type_of(hs: Seq<HeaderModel>) -> Seq<char> {
    match header_lookup(hs, "content-type"@) {
        Some(v) => v,
        None => Seq::empty(),
    }
}

/// The exact text of one emitted interaction block. Headers are written in
/// canonical order; request header lines end in CRLF, response header lines in
/// a lone LF; each body gets a trailing CRLF before its closing fence.
pub open spec fn emit_interaction(i: InteractionModel) -> Seq<char> {
    "## Interaction "@ + dec_digits_of(i.interaction_number as nat) + ": "@
        + i.request_data.method + " "@ + i.request_data.uri + "\r\n\r\n"@
        + "### Request headers recorded for playback:\r\n\r\n```\r\n"@ + emit_header_lines(
        canonical_headers(i.request_data.headers),
        "\r\n"@,
    ) + "```\r\n\r\n"@ + "### Request body recorded for playback ():\r\n\r\n```\r\n"@
        + i.request_data.body + "\r\n```\r\n\r\n"@
        + "### Response headers recorded for playback:\r\n\r\n```\r\n"@ + emit_header_lines(
        canonical_headers(i.response_data.headers),
        "\n"@,
    ) + "```\r\n\r\n"@ + "### Response body recorded for playback ("@ + dec_digits_of(
        i.response_data.status_code as nat,
    ) + ": "@ + content_type_of(canonical_headers(i.response_data.headers)) + "):\r\n\r\n```\r\n"@
        + i.response_data.body + "\r\n```\r\n\r\n"@
}

/// The exact text of a whole emitted conversation document.
pub open spec fn emit_conversation(xs: Seq<InteractionModel>) -> Seq<char>
    decreases xs.len(),
{
    if xs.len() == 0 {
        Seq::empty()
    } else {
        emit_interaction(xs[0]) + emit_conversation(xs.drop_first())
    }
}

/// Looks `name` up in a header list, taking the last entry when names repeat.
pub fn header_get(h: &Vec<(String, String)>, name: &str) -> (r: Option<String>)
    ensures
        match r {
            Some(v) => header_lookup(headers_model(h@), name@) == Some(v@),
            None => header_lookup(headers_model(h@), name@) is None,
        },
{
    let ghost hm = headers_model(h@);
    let name_chars = crate::text::chars_of(name);
    let mut i: usize = h.len();
    proof {
        assert(hm.subrange(0, i as int) =~= hm);
    }
    while i > 0
        invariant
            i <= h@.len(),
            hm == headers_model(h@),
            name_chars@ == name@,
            header_lookup(hm, name@) == header_lookup(hm.subrange(0, i as int), name@),
        decreases i,
    {
        i = i - 1;
        let ghost pre = hm.subrange(0, i + 1);
        proof {
            assert(pre.last() == hm[i as int]);
            assert(pre.drop_last() =~= hm.subrange(0, i as int));
        }
        let entry_name = crate::text::chars_of(h[i].0.as_str());
        if crate::text::chars_eq(entry_name.as_slice(), name_chars.as_slice()) {
            return Some(h[i].1.clone());
        }
    }
    proof {
        assert(hm.subrange(0, 0) =~= Seq::<HeaderModel>::empty());
    }
    None
}

/// Appends the emitted lines of a header list to `out`.
fn push_header_lines(out: &mut Vec<char>, h: &Vec<(String, String)>, terminator: &str)
    ensures
        final(out)@ == old(out)@ + emit_header_lines(headers_model(h@), terminator@),
{
    let ghost hm = headers_model(h@);
    let n = h.len();
    let mut i: usize = 0;
    proof {
        assert(hm.skip(0) =~= hm);
    }
    while i < n
        invariant
            n == h@.len(),
            i <= n,
            hm == headers_model(h@),
            out@ + emit_header_lines(hm.skip(i as int), terminator@) == old(out)@
                + emit_header_lines(hm, terminator@),
        decreases n - i,
    {
        let ghost rest = hm.skip(i as int);
        let ghost o0 = out@;
        push_str_chars(out, h[i].0.as_str());
        push_str_chars(out, ": ");
        push_str_chars(out, h[i].1.as_str());
        push_str_chars(out, terminator);
        i = i + 1;
        proof {
            assert(rest[0] == hm[i - 1]);
            assert(rest.drop_first() =~= hm.skip(i as int));
            assert(out@ =~= o0 + emit_header_line(hm[i - 1], terminator@));
            assert(out@ + emit_header_lines(hm.skip(i as int), terminator@) =~= o0
                + emit_header_lines(rest, terminator@));
        }
    }
    proof {
        assert(hm.skip(n as int) =~= Seq::<HeaderModel>::empty());
        assert(out@ =~= out@ + emit_header_lines(hm.skip(n as int), terminator@));
    }
}

/// Appends the exact emitted text of one interaction block to `out`.
#[verifier::rlimit(100)]
pub fn render_interaction(interaction: &InteractionData, out: &mut Vec<char>)
    ensures
        final(out)@ == old(out)@ + emit_interaction(interaction@),
{
    let ghost im = interaction@;
    let request_headers = crate::data::canonicalize_headers(&interaction.request_data.headers);
    let response_headers = crate::data::canonicalize_headers(&interaction.response_data.headers);
    let ghost o0 = out@;
    let ghost p1 = "## Interaction "@ + dec_digits_of(im.interaction_number as nat) + ": "@
        + im.request_data.method + " "@ + im.request_data.uri + "\r\n\r\n"@;
    push_str_chars(out, "## Interaction ");
    push_decimal(out, interaction.interaction_number as u32);
    push_str_chars(out, ": ");
    push_str_chars(out, interaction.request_data.method.as_str());
    push_str_chars(out, " ");
    push_str_chars(out, interaction.request_data.uri.as_str());
    push_str_chars(out, "\r\n\r\n");
    proof {
        assert(out@ =~= o0 + p1);
    }
    let ghost p2 = p1 + "### Request headers recorded for playback:\r\n\r\n```\r\n"@
        + emit_header_lines(canonical_headers(im.request_data.headers), "\r\n"@) + "```\r\n\r\n"@;
    push_str_chars(out, "### Request headers recorded for playback:\r\n\r\n```\r\n");
    push_header_lines(out, &request_headers, "\r\n");
    push_str_chars(out, "```\r\n\r\n");
    proof {
        assert(out@ =~= o0 + p2);
    }
    let ghost p3 = p2 + "### Request body recorded for playback ():\r\n\r\n```\r\n"@
        + im.request_data.body + "\r\n```\r\n\r\n"@;
    push_str_chars(out, "### Request body recorded for playback ():\r\n\r\n```\r\n");
    push_str_chars(out, interaction.request_data.body.as_str());
    push_str_chars(out, "\r\n```\r\n\r\n");
    proof {
        assert(out@ =~= o0 + p3);
    }
    let ghost p4 = p3 + "### Response headers recorded for playback:\r\n\r\n```\r\n"@
        + emit_header_lines(canonical_headers(im.response_data.headers), "\n"@) + "```\r\n\r\n"@;
    push_str_chars(out, "### Response headers recorded for playback:\r\n\r\n```\r\n");
    push_header_lines(out, &response_headers, "\n");
    push_str_chars(out, "```\r\n\r\n");
    proof {
        assert(out@ =~= o0 + p4);
    }
    let ghost p5 = p4 + "### Response body recorded for playback ("@ + dec_digits_of(
        im.response_data.status_code as nat,
    ) + ": "@ + content_type_of(canonical_headers(im.response_data.headers)) + "):\r\n\r\n```\r\n"@
        + im.response_data.body + "\r\n```\r\n\r\n"@;
    push_str_chars(out, "### Response body recorded for playback (");
    push_decimal(out, interaction.response_data.status_code as u32);
    push_str_chars(out, ": ");
    let content_type = header_get(&response_headers, "content-type");
    match &content_type {
        Some(v) => push_str_chars(out, v.as_str()),
        None => (),
    }
    push_str_chars(out, "):\r\n\r\n```\r\n");
    push_str_chars(out, interaction.response_data.body.as_str());
    push_str_chars(out, "\r\n```\r\n\r\n");
    proof {
        assert(out@ =~= o0 + p5);
        assert(emit_interaction(im) == p5);
    }
}

/// The path-bound Markdown store: parses, emits and compares conversation
/// documents; callers do the reading and writing of the path themselves.
#[derive(Debug)]
pub struct MarkdownInteractionManager {
    markdown_path: String,
}

impl MarkdownInteractionManager {
    /// The document path this store was made for, as a character sequence.
    pub closed spec fn spec_path(&self) -> Seq<char> {
        self.markdown_path@
    }

    /// A store handle for the given document path.
    pub fn new(markdown_path: String) -> (r: Self)
        ensures
            r.spec_path() == markdown_path@,
    {
        Self { markdown_path }
    }

    /// The document path this store was made for.
    pub fn path(&self) -> (r: &String)
        ensures
            r@ == self.spec_path(),
    {
        &self.markdown_path
    }

    /// The exact document text that persists `interactions`.
    pub fn save_interactions(&self, interactions: &Vec<InteractionData>) -> (r: String)
        ensures
            r@ == emit_conversation(crate::data::interactions_model(interactions@)),
    {
        let ghost xs = crate::data::interactions_model(interactions@);
        let mut out: Vec<char> = Vec::new();
        let n = interactions.len();
        let mut i: usize = 0;
        proof {
            assert(xs.skip(0) =~= xs);
        }
        while i < n
            invariant
                n == interactions@.len(),
                i <= n,
                xs == crate::data::interactions_model(interactions@),
                out@ + emit_conversation(xs.skip(i as int)) == emit_conversation(xs),
            decreases n - i,
        {
            let ghost rest = xs.skip(i as int);
            let ghost o0 = out@;
            render_interaction(&interactions[i], &mut out);
            i = i + 1;
            proof {
                assert(rest[0] == xs[i - 1]);
                assert(rest.drop_first() =~= xs.skip(i as int));
                assert(out@ + emit_conversation(xs.skip(i as int)) =~= o0 + emit_conversation(
                    rest,
                ));
            }
        }
        proof {
            assert(xs.skip(n as int) =~= Seq::<InteractionModel>::empty());
            assert(out@ =~= emit_conversation(xs));
        }
        string_of(out.as_slice())
    }

    /// Parses a conversation document into its interactions.
    pub fn load_interactions(&self, file_contents: &str) -> (r: Result<
        Vec<InteractionData>,
        error::Error,
    >)
        ensures
            match r {
                Ok(v) => parse::parse_conversation_spec(file_contents@) == Ok::<
                    Seq<InteractionModel>,
                    error::Error,
                >(crate::data::interactions_model(v@)),
                Err(e) => parse::parse_conversation_spec(file_contents@) == Err::<
                    Seq<InteractionModel>,
                    error::Error,
                >(e),
            },
    {
        parse::parse_conversation(file_contents)
    }

    /// Parses the `Name: Value` lines of one headers section.
    pub fn parse_headers(headers_part: &str) -> (r: Vec<(String, String)>)
        ensures
            headers_model(r@) == parse::parse_headers_text(headers_part@),
    {
        let chars = crate::text::chars_of(headers_part);
        parse::parse_headers_part(chars.as_slice())
    }

    /// Parses a conversation document and compares it pairwise against freshly
    /// captured interactions: the document's parse error if it has one, the
    /// first difference if any, success otherwise.
    pub fn check_data_unchanged(
        &self,
        file_contents: &str,
        interactions: &Vec<InteractionData>,
    ) -> (r: Result<(), error::Error>)
        ensures
            ({
                let ps = parse::parse_conversation_spec(file_contents@);
                let nm = crate::data::interactions_model(interactions@);
                match r {
                    Ok(()) => ps is Ok && diff::compare_model(ps->Ok_0, nm) is None,
                    Err(e) => (ps is Err && ps->Err_0 == e) || (ps is Ok && e is MarkdownsDiffer
                        && diff::compare_model(ps->Ok_0, nm) == Some(
                        (e->MarkdownsDiffer_0@, e->MarkdownsDiffer_1),
                    )),
                }
            }),
    {
        match parse::parse_conversation(file_contents) {
            Err(e) => Err(e),
            Ok(loaded) => diff::compare_interactions(&loaded, interactions),
        }
    }
}

} // verus!

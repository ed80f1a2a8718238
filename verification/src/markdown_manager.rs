//! A single-interaction view of the Markdown store: the first interaction of a
//! document as one flat record, and a whole-record equality check against
//! freshly captured data.

use vstd::prelude::*;

use crate::data::{header_lookup, headers_model, HeaderModel, InteractionData, InteractionModel};
use crate::markdown::error::Error;
use crate::markdown::parse::{parse_conversation, parse_conversation_spec, parse_headers_text};
use crate::markdown::render_interaction;
use crate::text::{chars_eq, chars_of, string_of, trim, trim_chars};

verus! {

/// The first interaction of a conversation document, flattened.
#[derive(Debug)]
pub struct MarkdownData {
    pub interaction_number: u8,
    pub uri: String,
    pub method: String,
    pub request_headers: Vec<(String, String)>,
    pub request_body: String,
    pub status_code: u16,
    pub response_headers: Vec<(String, String)>,
    pub response_body: String,
}

/// Parses, renders and checks single-interaction conversation documents.
#[derive(Debug)]
pub struct MarkdownManager;

/// Two header maps agree: same size, and every name of `l` maps in `r` to the
/// same trimmed value.
pub open spec fn headers_equal_model(l: Seq<HeaderModel>, r: Seq<HeaderModel>) -> bool {
    &&& l.len() == r.len()
    &&& forall|i: int|
        0 <= i < l.len() ==> header_lookup(r, (#[trigger] l[i]).0) is Some && trim(
            header_lookup(r, l[i].0)->Some_0,
        ) == trim(l[i].1)
}

impl MarkdownManager {
    /// The first interaction of `file_contents`, or the document's parse error.
    pub fn load_markdown(file_contents: &str) -> (r: Result<MarkdownData, Error>)
        ensures
            ({
                let ps = parse_conversation_spec(file_contents@);
                match r {
                    Ok(d) => ps is Ok && ({
                        let x = ps->Ok_0[0];
                        &&& d.interaction_number == x.interaction_number
                        &&& d.uri@ == x.request_data.uri
                        &&& d.method@ == x.request_data.method
                        &&& headers_model(d.request_headers@) == x.request_data.headers
                        &&& d.request_body@ == x.request_data.body
                        &&& d.status_code == x.response_data.status_code
                        &&& headers_model(d.response_headers@) == x.response_data.headers
                        &&& d.response_body@ == x.response_data.body
                    }),
                    Err(e) => ps == Err::<Seq<InteractionModel>, Error>(e),
                }
            }),
    {
        match parse_conversation(file_contents) {
            Err(e) => Err(e),
            Ok(mut interactions) => {
                let ghost before = crate::data::interactions_model(interactions@);
                let first = interactions.remove(0);
                proof {
                    assert(before[0] == first@);
                }
                Ok(
                    MarkdownData {
                        interaction_number: first.interaction_number,
                        uri: first.request_data.uri,
                        method: first.request_data.method,
                        request_headers: first.request_data.headers,
                        request_body: first.request_data.body,
                        status_code: first.response_data.status_code,
                        response_headers: first.response_data.headers,
                        response_body: first.response_data.body,
                    },
                )
            },
        }
    }

    /// Parses the `Name: Value` lines of one headers section.
    pub fn parse_headers(headers_part: &str) -> (r: Vec<(String, String)>)
        ensures
            headers_model(r@) == parse_headers_text(headers_part@),
    {
        let chars = chars_of(headers_part);
        crate::markdown::parse::parse_headers_part(chars.as_slice())
    }

    /// The document text recording the given pair as interaction 0.
    pub fn save_markdown(
        request_data: &crate::data::RequestData,
        response_data: &crate::data::ResponseData,
    ) -> (r: String)
        ensures
            r@ == crate::markdown::emit_interaction(
                InteractionModel {
                    interaction_number: 0,
                    request_data: request_data@,
                    response_data: response_data@,
                },
            ),
    {
        let interaction = InteractionData {
            interaction_number: 0,
            request_data: request_data.duplicate(),
            response_data: response_data.duplicate(),
        };
        let mut out: Vec<char> = Vec::new();
        render_interaction(&interaction, &mut out);
        proof {
            assert(out@ =~= crate::markdown::emit_interaction(interaction@));
        }
        string_of(out.as_slice())
    }

    /// Two header maps agree in size and trimmed values.
    pub fn headers_equal(lhs: &Vec<(String, String)>, rhs: &Vec<(String, String)>) -> (r: bool)
        ensures
            r == headers_equal_model(headers_model(lhs@), headers_model(rhs@)),
    {
        let ghost lm = headers_model(lhs@);
        let ghost rm = headers_model(rhs@);
        if lhs.len() != rhs.len() {
            return false;
        }
        let count = lhs.len();
        let mut i: usize = 0;
        while i < count
            invariant
                count == lhs@.len() == rhs@.len(),
                lm == headers_model(lhs@),
                rm == headers_model(rhs@),
                i <= count,
                forall|j: int|
                    0 <= j < i ==> header_lookup(rm, (#[trigger] lm[j]).0) is Some && trim(
                        header_lookup(rm, lm[j].0)->Some_0,
                    ) == trim(lm[j].1),
            decreases count - i,
        {
            match crate::markdown::header_get(rhs, lhs[i].0.as_str()) {
                None => {
                    proof {
                        assert(!headers_equal_model(lm, rm)) by {
                            assert(header_lookup(rm, lm[i as int].0) is None);
                        }
                    }
                    return false;
                },
                Some(v) => {
                    let v_trim = trim_chars(chars_of(v.as_str()).as_slice());
                    let own_trim = trim_chars(chars_of(lhs[i].1.as_str()).as_slice());
                    if !chars_eq(v_trim.as_slice(), own_trim.as_slice()) {
                        proof {
                            assert(!headers_equal_model(lm, rm)) by {
                                assert(trim(header_lookup(rm, lm[i as int].0)->Some_0) != trim(
                                    lm[i as int].1,
                                ));
                            }
                        }
                        return false;
                    }
                },
            }
            i = i + 1;
        }
        true
    }

    /// Whether the document's first interaction matches the given pair:
    /// trimmed bodies equal and header maps agreeing on both sides.
    pub fn check_markdown_data_unchanged(
        file_contents: &str,
        request_data: &crate::data::RequestData,
        response_data: &crate::data::ResponseData,
    ) -> (r: Result<bool, Error>)
        ensures
            ({
                let ps = parse_conversation_spec(file_contents@);
                match r {
                    Ok(b) => ps is Ok && b == ({
                        let x = ps->Ok_0[0];
                        &&& trim(x.request_data.body) == trim(request_data@.body)
                        &&& trim(x.response_data.body) == trim(response_data@.body)
                        &&& headers_equal_model(x.request_data.headers, request_data@.headers)
                        &&& headers_equal_model(x.response_data.headers, response_data@.headers)
                    }),
                    Err(e) => ps == Err::<Seq<InteractionModel>, Error>(e),
                }
            }),
    {
        let loaded = match Self::load_markdown(file_contents) {
            Err(e) => {
                return Err(e);
            },
            Ok(d) => d,
        };
        let req_body_file = trim_chars(chars_of(loaded.request_body.as_str()).as_slice());
        let req_body_new = trim_chars(chars_of(request_data.body.as_str()).as_slice());
        let resp_body_file = trim_chars(chars_of(loaded.response_body.as_str()).as_slice());
        let resp_body_new = trim_chars(chars_of(response_data.body.as_str()).as_slice());
        let same = chars_eq(req_body_file.as_slice(), req_body_new.as_slice()) && chars_eq(
            resp_body_file.as_slice(),
            resp_body_new.as_slice(),
        ) && Self::headers_equal(&loaded.request_headers, &request_data.headers)
            && Self::headers_equal(&loaded.response_headers, &response_data.headers);
        Ok(same)
    }
}

} // verus!

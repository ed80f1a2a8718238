//! Parsing the Markdown conversation format. The grammar is stated as a
//! specification-level parser over character sequences; the executable parser
//! returns exactly what the specification says.
//!
//! The parser is tolerant: it scans for interaction blocks anywhere in the
//! document, accepts extra blank lines and stray text between sections, and
//! reads each body as the text between its code fences trimmed of surrounding
//! whitespace.

use vstd::prelude::*;

use crate::data::{
    hdr_put, hdr_put_entries, headers_model, HeaderModel, InteractionData, InteractionModel,
    RequestData, RequestModel, ResponseData, ResponseModel,
};
use crate::markdown::error::Error;
use crate::text::{
    all_digits, digits_value, digits_value_capped, find_from, find_pattern, is_digit_char,
    lemma_digits_value_nonneg, lemma_find_spec, matches_at, slice_matches_at, string_of, trim,
    trim_chars,
};

verus! {

/// `c` may appear in a header name.
pub open spec fn is_header_name_char(c: char) -> bool {
    (65 <= c as u32 <= 90) || (97 <= c as u32 <= 122) || c == '-'
}

/// `c` is an uppercase ASCII letter, as in an HTTP method token.
pub open spec fn is_method_char(c: char) -> bool {
    65 <= c as u32 <= 90
}

/// `c` may appear in a URI token: anything but a space or a line break.
pub open spec fn is_uri_char(c: char) -> bool {
    c != ' ' && c != '\r' && c != '\n'
}

/// The first position at or after `i` whose character is not a decimal digit.
pub open spec fn scan_digits(t: Seq<char>, i: int) -> int
    decreases t.len() - i,
{
    if 0 <= i < t.len() && is_digit_char(t[i]) {
        scan_digits(t, i + 1)
    } else {
        i
    }
}

/// The first position at or after `i` whose character is not a method character.
pub open spec fn scan_method(t: Seq<char>, i: int) -> int
    decreases t.len() - i,
{
    if 0 <= i < t.len() && is_method_char(t[i]) {
        scan_method(t, i + 1)
    } else {
        i
    }
}

/// The first position at or after `i` whose character ends a URI token.
pub open spec fn scan_uri(t: Seq<char>, i: int) -> int
    decreases t.len() - i,
{
    if 0 <= i < t.len() && is_uri_char(t[i]) {
        scan_uri(t, i + 1)
    } else {
        i
    }
}

/// What a digit scan yields: a bounded run of digits ended by a non-digit.
pub proof fn lemma_scan_digits(t: Seq<char>, i: int)
    requires
        0 <= i <= t.len(),
    ensures
        i <= scan_digits(t, i) <= t.len(),
        forall|k: int| i <= k < scan_digits(t, i) ==> is_digit_char(t[k]),
        scan_digits(t, i) == t.len() || !is_digit_char(t[scan_digits(t, i)]),
    decreases t.len() - i,
{
    if i < t.len() && is_digit_char(t[i]) {
        lemma_scan_digits(t, i + 1);
    }
}

/// What a method scan yields.
pub proof fn lemma_scan_method(t: Seq<char>, i: int)
    requires
        0 <= i <= t.len(),
    ensures
        i <= scan_method(t, i) <= t.len(),
        forall|k: int| i <= k < scan_method(t, i) ==> is_method_char(t[k]),
        scan_method(t, i) == t.len() || !is_method_char(t[scan_method(t, i)]),
    decreases t.len() - i,
{
    if i < t.len() && is_method_char(t[i]) {
        lemma_scan_method(t, i + 1);
    }
}

/// What a URI scan yields.
pub proof fn lemma_scan_uri(t: Seq<char>, i: int)
    requires
        0 <= i <= t.len(),
    ensures
        i <= scan_uri(t, i) <= t.len(),
        forall|k: int| i <= k < scan_uri(t, i) ==> is_uri_char(t[k]),
        scan_uri(t, i) == t.len() || !is_uri_char(t[scan_uri(t, i)]),
    decreases t.len() - i,
{
    if i < t.len() && is_uri_char(t[i]) {
        lemma_scan_uri(t, i + 1);
    }
}

/// The text between the next pair of code fences at or after `i`, as it
/// stands, together with the position just past the closing fence.
pub open spec fn parse_fenced_section(t: Seq<char>, i: int) -> Option<(Seq<char>, int)> {
    match find_from(t, "```"@, i) {
        None => None,
        Some(a) => match find_from(t, "```"@, a + 3) {
            None => None,
            Some(b) => Some((t.subrange(a + 3, b), b + 3)),
        },
    }
}

/// The fenced section that follows the next occurrence of `heading`.
pub open spec fn parse_section(t: Seq<char>, i: int, heading: Seq<char>) -> Option<
    (Seq<char>, int),
> {
    match find_from(t, heading, i) {
        None => None,
        Some(h) => parse_fenced_section(t, h + heading.len()),
    }
}

/// The status digits and fenced body of the response-body section at or after
/// `i`: the heading carries the status in parentheses before the fences.
pub open spec fn parse_status_section(t: Seq<char>, i: int) -> Option<
    (Seq<char>, Seq<char>, int),
> {
    let heading = "### Response body recorded for playback ("@;
    match find_from(t, heading, i) {
        None => None,
        Some(h) => {
            let d0 = h + heading.len();
            let d1 = scan_digits(t, d0);
            if d1 == d0 {
                None
            } else {
                match parse_fenced_section(t, d1) {
                    None => None,
                    Some((body, next)) => Some((t.subrange(d0, d1), body, next)),
                }
            }
        },
    }
}

/// One line of a headers section: `Name: Value`, both sides trimmed. The name
/// must be a non-empty run of header-name characters up to the first colon;
/// any other line is skipped.
pub open spec fn parse_header_line(line: Seq<char>) -> Option<HeaderModel> {
    let t = trim(line);
    match find_from(t, ":"@, 0) {
        None => None,
        Some(i) => {
            let name = t.subrange(0, i);
            if name.len() > 0 && (forall|k: int| 0 <= k < name.len() ==> is_header_name_char(
                name[k],
            )) {
                Some((name, trim(t.subrange(i + 1, t.len() as int))))
            } else {
                None
            }
        },
    }
}

/// The lines of `s`, split at each LF (the LF itself excluded).
pub open spec fn split_lines(s: Seq<char>) -> Seq<Seq<char>>
    decreases s.len(),
{
    match find_from(s, "\n"@, 0) {
        Some(i) => if 0 <= i < s.len() {
            seq![s.subrange(0, i)] + split_lines(s.skip(i + 1))
        } else {
            seq![s]
        },
        None => seq![s],
    }
}

/// The header lines accumulated into `acc`, in order, later values replacing
/// earlier ones of the same name.
pub open spec fn parse_header_lines_acc(lines: Seq<Seq<char>>, acc: Seq<HeaderModel>) -> Seq<
    HeaderModel,
>
    decreases lines.len(),
{
    if lines.len() == 0 {
        acc
    } else {
        parse_header_lines_acc(
            lines.drop_first(),
            match parse_header_line(lines[0]) {
                Some(e) => hdr_put(acc, e),
                None => acc,
            },
        )
    }
}

/// The header map read from the text of a headers section.
pub open spec fn parse_headers_text(content: Seq<char>) -> Seq<HeaderModel> {
    parse_header_lines_acc(split_lines(content), Seq::empty())
}

/// The pieces of one parsed interaction block, before range checks.
pub struct RawBlock {
    pub number: Seq<char>,
    pub method: Seq<char>,
    pub uri: Seq<char>,
    pub request_headers: Seq<HeaderModel>,
    pub request_body: Seq<char>,
    pub response_headers: Seq<HeaderModel>,
    pub status: Seq<char>,
    pub response_body: Seq<char>,
}

/// The heading that opens every interaction block.
pub open spec fn block_marker() -> Seq<char> {
    "## Interaction "@
}

/// One block parsed at marker position `p`: the heading line gives number,
/// method and URI; four fenced sections follow in fixed order. `None` when the
/// block's structure is broken; the position returned lies just past the last
/// fence.
pub open spec fn parse_block(t: Seq<char>, p: int) -> Option<(RawBlock, int)> {
    let j = p + block_marker().len();
    let d1 = scan_digits(t, j);
    if d1 == j || !matches_at(t, ": "@, d1) {
        None
    } else {
        let m0 = d1 + 2;
        let m1 = scan_method(t, m0);
        if m1 == m0 || !matches_at(t, " "@, m1) {
            None
        } else {
            let u0 = m1 + 1;
            let u1 = scan_uri(t, u0);
            match parse_section(t, u1, "### Request headers recorded for playback"@) {
                None => None,
                Some((req_hdr_text, p1)) => match parse_section(
                    t,
                    p1,
                    "### Request body recorded for playback"@,
                ) {
                    None => None,
                    Some((req_body, p2)) => match parse_section(
                        t,
                        p2,
                        "### Response headers recorded for playback"@,
                    ) {
                        None => None,
                        Some((resp_hdr_text, p3)) => match parse_status_section(t, p3) {
                            None => None,
                            Some((status, resp_body, p4)) => Some(
                                (
                                    RawBlock {
                                        number: t.subrange(j, d1),
                                        method: t.subrange(m0, m1),
                                        uri: t.subrange(u0, u1),
                                        request_headers: parse_headers_text(req_hdr_text),
                                        request_body: trim(req_body),
                                        response_headers: parse_headers_text(resp_hdr_text),
                                        status,
                                        response_body: trim(resp_body),
                                    },
                                    p4,
                                ),
                            ),
                        },
                    },
                },
            }
        }
    }
}

/// A parsed fenced section sits strictly after `i` and within the text.
pub proof fn lemma_parse_fenced_bounds(t: Seq<char>, i: int)
    requires
        0 <= i,
        parse_fenced_section(t, i) is Some,
    ensures
        ({
            let (c, next) = parse_fenced_section(t, i)->Some_0;
            i < next <= t.len()
        }),
{
    reveal_strlit("```");
    lemma_find_spec(t, "```"@, i);
    let a = find_from(t, "```"@, i)->Some_0;
    lemma_find_spec(t, "```"@, a + 3);
}

/// A parsed section sits strictly after `i` and within the text.
pub proof fn lemma_parse_section_bounds(t: Seq<char>, i: int, heading: Seq<char>)
    requires
        0 <= i,
        parse_section(t, i, heading) is Some,
    ensures
        ({
            let (c, next) = parse_section(t, i, heading)->Some_0;
            i < next <= t.len()
        }),
{
    lemma_find_spec(t, heading, i);
    let h = find_from(t, heading, i)->Some_0;
    lemma_parse_fenced_bounds(t, h + heading.len());
}

/// A parsed status section sits strictly after `i` and within the text.
pub proof fn lemma_parse_status_bounds(t: Seq<char>, i: int)
    requires
        0 <= i,
        parse_status_section(t, i) is Some,
    ensures
        ({
            let (status, body, next) = parse_status_section(t, i)->Some_0;
            i < next <= t.len()
        }),
{
    let heading = "### Response body recorded for playback ("@;
    lemma_find_spec(t, heading, i);
    let h = find_from(t, heading, i)->Some_0;
    let d0 = h + heading.len();
    lemma_scan_digits(t, d0);
    let d1 = scan_digits(t, d0);
    lemma_parse_fenced_bounds(t, d1);
}

/// A parsed block ends strictly after its marker and within the text.
pub proof fn lemma_parse_block_bounds(t: Seq<char>, p: int)
    requires
        0 <= p,
        parse_block(t, p) is Some,
    ensures
        ({
            let (raw, next) = parse_block(t, p)->Some_0;
            p < next <= t.len()
        }),
{
    let j = p + block_marker().len();
    let d1 = scan_digits(t, j);
    let m0 = d1 + 2;
    let m1 = scan_method(t, m0);
    let u0 = m1 + 1;
    let u1 = scan_uri(t, u0);
    if j > t.len() {
        assert(scan_digits(t, j) == j);
        assert(false);
    }
    lemma_scan_digits(t, j);
    lemma_scan_method(t, m0);
    lemma_scan_uri(t, u0);
    lemma_parse_section_bounds(t, u1, "### Request headers recorded for playback"@);
    let (h1, p1) = parse_section(t, u1, "### Request headers recorded for playback"@)->Some_0;
    lemma_parse_section_bounds(t, p1, "### Request body recorded for playback"@);
    let (b1, p2) = parse_section(t, p1, "### Request body recorded for playback"@)->Some_0;
    lemma_parse_section_bounds(t, p2, "### Response headers recorded for playback"@);
    let (h2, p3) = parse_section(t, p2, "### Response headers recorded for playback"@)->Some_0;
    lemma_parse_status_bounds(t, p3);
}

/// Every interaction block found at or after `i`, in order. A block whose
/// structure is broken is skipped past its marker; a number or status outside
/// its range ends the parse with that error.
pub open spec fn parse_loop(t: Seq<char>, i: int) -> Result<Seq<InteractionModel>, Error>
    decreases t.len() - i
        when 0 <= i
        via parse_loop_decreases
{
    match find_from(t, block_marker(), i) {
        None => Ok(Seq::empty()),
        Some(p) => match parse_block(t, p) {
            None => parse_loop(t, p + block_marker().len()),
            Some((raw, next)) => if digits_value(raw.number) > 255 {
                Err(Error::InvalidInteractionNumber)
            } else if digits_value(raw.status) > 65535 {
                Err(Error::InvalidStatusCode)
            } else {
                match parse_loop(t, next) {
                    Ok(rest) => Ok(seq![block_model(raw)] + rest),
                    Err(e) => Err(e),
                }
            },
        },
    }
}

#[via_fn]
proof fn parse_loop_decreases(t: Seq<char>, i: int) {
    reveal_strlit("## Interaction ");
    lemma_find_spec(t, block_marker(), i);
    match find_from(t, block_marker(), i) {
        Some(p) => {
            if parse_block(t, p) is Some {
                lemma_parse_block_bounds(t, p);
            }
        },
        None => {},
    }
}

/// A whole conversation document: at least one block, or `InvalidMarkdownFormat`.
pub open spec fn parse_conversation_spec(t: Seq<char>) -> Result<Seq<InteractionModel>, Error> {
    match parse_loop(t, 0) {
        Err(e) => Err(e),
        Ok(xs) => if xs.len() == 0 {
            Err(Error::InvalidMarkdownFormat)
        } else {
            Ok(xs)
        },
    }
}

/// The interaction a well-ranged raw block stands for.
pub open spec fn block_model(raw: RawBlock) -> InteractionModel {
    InteractionModel {
        interaction_number: digits_value(raw.number) as u8,
        request_data: RequestModel {
            uri: raw.uri,
            method: raw.method,
            headers: raw.request_headers,
            body: raw.request_body,
        },
        response_data: ResponseModel {
            status_code: digits_value(raw.status) as u16,
            headers: raw.response_headers,
            body: raw.response_body,
        },
    }
}

/// Executable form of [`scan_digits`].
fn scan_digits_exec(t: &[char], i: usize) -> (j: usize)
    requires
        i <= t@.len(),
    ensures
        j == scan_digits(t@, i as int),
        i <= j <= t@.len(),
{
    let n = t.len();
    let mut j = i;
    while j < n && crate::text::digit_char(t[j])
        invariant
            i <= j <= n,
            n == t@.len(),
            scan_digits(t@, i as int) == scan_digits(t@, j as int),
        decreases n - j,
    {
        j = j + 1;
    }
    j
}

/// Executable form of [`scan_method`].
fn scan_method_exec(t: &[char], i: usize) -> (j: usize)
    requires
        i <= t@.len(),
    ensures
        j == scan_method(t@, i as int),
        i <= j <= t@.len(),
{
    let n = t.len();
    let mut j = i;
    while j < n && 65 <= (t[j] as u32) && (t[j] as u32) <= 90
        invariant
            i <= j <= n,
            n == t@.len(),
            scan_method(t@, i as int) == scan_method(t@, j as int),
        decreases n - j,
    {
        j = j + 1;
    }
    j
}

/// Executable form of [`scan_uri`].
fn scan_uri_exec(t: &[char], i: usize) -> (j: usize)
    requires
        i <= t@.len(),
    ensures
        j == scan_uri(t@, i as int),
        i <= j <= t@.len(),
{
    let n = t.len();
    let mut j = i;
    while j < n && t[j] != ' ' && t[j] != '\r' && t[j] != '\n'
        invariant
            i <= j <= n,
            n == t@.len(),
            scan_uri(t@, i as int) == scan_uri(t@, j as int),
        decreases n - j,
    {
        j = j + 1;
    }
    j
}

/// Executable form of [`parse_fenced_section`].
fn parse_fenced_exec(t: &[char], i: usize, fence: &[char]) -> (r: Option<(Vec<char>, usize)>)
    requires
        fence@ == "```"@,
    ensures
        match r {
            Some((c, next)) => parse_fenced_section(t@, i as int) == Some((c@, next as int)),
            None => parse_fenced_section(t@, i as int) is None,
        },
{
    proof {
        reveal_strlit("```");
    }
    let n = t.len();
    match find_pattern(t, fence, i) {
        None => None,
        Some(a) => {
            proof {
                lemma_find_spec(t@, "```"@, i as int);
                assert(a + 3 <= n);
            }
            match find_pattern(t, fence, a + 3) {
                None => None,
                Some(b) => {
                    proof {
                        lemma_find_spec(t@, "```"@, a + 3);
                        assert(b + 3 <= n);
                    }
                    let mut content: Vec<char> = Vec::new();
                    crate::text::push_range(&mut content, t, a + 3, b);
                    Some((content, b + 3))
                },
            }
        },
    }
}

/// Executable form of [`parse_section`].
fn parse_section_exec(t: &[char], i: usize, heading: &[char], fence: &[char]) -> (r: Option<
    (Vec<char>, usize),
>)
    requires
        fence@ == "```"@,
    ensures
        match r {
            Some((c, next)) => parse_section(t@, i as int, heading@) == Some((c@, next as int)),
            None => parse_section(t@, i as int, heading@) is None,
        },
{
    let n = t.len();
    match find_pattern(t, heading, i) {
        None => None,
        Some(h) => {
            proof {
                lemma_find_spec(t@, heading@, i as int);
                assert(h + heading@.len() <= n);
            }
            parse_fenced_exec(t, h + heading.len(), fence)
        },
    }
}

/// Executable form of [`parse_header_line`].
fn parse_header_line_exec(line: &[char], colon: &[char]) -> (r: Option<(String, String)>)
    requires
        colon@ == ":"@,
    ensures
        match r {
            Some((name, value)) => parse_header_line(line@) == Some((name@, value@)),
            None => parse_header_line(line@) is None,
        },
{
    proof {
        reveal_strlit(":");
    }
    let t = trim_chars(line);
    let tn = t.len();
    match find_pattern(t.as_slice(), colon, 0) {
        None => None,
        Some(i) => {
            proof {
                lemma_find_spec(t@, ":"@, 0);
                assert(i < tn);
            }
            if i == 0 {
                proof {
                    assert(t@.subrange(0, 0) =~= Seq::<char>::empty());
                }
                return None;
            }
            proof {
                assert(i + 1 <= t@.len());
            }
            let mut k: usize = 0;
            let ghost name_seq = t@.subrange(0, i as int);
            while k < i
                invariant
                    k <= i,
                    i < t@.len(),
                    t@ == trim(line@),
                    find_from(trim(line@), ":"@, 0) == Some(i as int),
                    name_seq == t@.subrange(0, i as int),
                    forall|q: int| 0 <= q < k ==> is_header_name_char(name_seq[q]),
                decreases i - k,
    {
                let c = t[k] as u32;
                let ok = (65 <= c && c <= 90) || (97 <= c && c <= 122) || t[k] == '-';
                if !ok {
                    proof {
                        assert(name_seq[k as int] == t@[k as int]);
                        assert(!is_header_name_char(name_seq[k as int]));
                    }
                    return None;
                }
                k = k + 1;
            }
            let mut name_chars: Vec<char> = Vec::new();
            crate::text::push_range(&mut name_chars, t.as_slice(), 0, i);
            let mut value_chars: Vec<char> = Vec::new();
            crate::text::push_range(&mut value_chars, t.as_slice(), i + 1, tn);
            let value_trimmed = trim_chars(value_chars.as_slice());
            let name = string_of(name_chars.as_slice());
            let value = string_of(value_trimmed.as_slice());
            Some((name, value))
        },
    }
}

/// Executable form of [`parse_headers_text`]: reads the `Name: Value` lines of
/// a headers section.
pub fn parse_headers_part(content: &[char]) -> (r: Vec<(String, String)>)
    ensures
        headers_model(r@) == parse_headers_text(content@),
{
    let newline = crate::text::chars_of("\n");
    let colon = crate::text::chars_of(":");
    proof {
        reveal_strlit("\n");
    }
    let mut acc: Vec<(String, String)> = Vec::new();
    let mut pos: usize = 0;
    let cn = content.len();
    let mut done = false;
    proof {
        assert(content@.skip(0) =~= content@);
        assert(headers_model(acc@) =~= Seq::<HeaderModel>::empty());
        assert(parse_header_lines_acc(split_lines(content@.skip(0)), headers_model(acc@))
            == parse_headers_text(content@));
    }
    while !done
        invariant
            pos <= content@.len(),
            cn == content@.len(),
            newline@ == "\n"@,
            colon@ == ":"@,
            !done ==> parse_header_lines_acc(split_lines(content@.skip(pos as int)), headers_model(acc@))
                == parse_headers_text(content@),
            done ==> headers_model(acc@) == parse_headers_text(content@),
        decreases content@.len() - pos + (if done { 0int } else { 1int }),
    {
        proof {
            reveal_strlit("\n");
            reveal_strlit(":");
        }
        let ghost suffix = content@.skip(pos as int);
        let ghost lines = split_lines(suffix);
        match find_pattern(content, newline.as_slice(), pos) {
            Some(nl) => {
                proof {
                    lemma_find_spec(content@, "\n"@, pos as int);
                    crate::text::lemma_find_shift(content@, "\n"@, pos as int, 0);
                    assert(find_from(suffix, "\n"@, 0) == Some(nl - pos));
                    assert(suffix.subrange(0, nl - pos) =~= content@.subrange(
                        pos as int,
                        nl as int,
                    ));
                    assert(suffix.skip(nl - pos + 1) =~= content@.skip(nl + 1));
                    assert(lines == seq![content@.subrange(pos as int, nl as int)] + split_lines(
                        content@.skip(nl + 1),
                    ));
                    assert(lines[0] == content@.subrange(pos as int, nl as int));
                    assert(lines.drop_first() =~= split_lines(content@.skip(nl + 1)));
                }
                let mut line: Vec<char> = Vec::new();
                crate::text::push_range(&mut line, content, pos, nl);
                match parse_header_line_exec(line.as_slice(), colon.as_slice()) {
                    Some(e) => {
                        acc = hdr_put_entries(acc, e);
                    },
                    None => (),
                }
                proof {
                    assert(nl + 1 <= cn);
                }
                pos = nl + 1;
            },
            None => {
                proof {
                    crate::text::lemma_find_shift(content@, "\n"@, pos as int, 0);
                    assert(find_from(suffix, "\n"@, 0) is None);
                    assert(lines == seq![suffix]);
                    assert(lines[0] == suffix);
                    assert(lines.drop_first() =~= Seq::<Seq<char>>::empty());
                }
                let mut line: Vec<char> = Vec::new();
                crate::text::push_range(&mut line, content, pos, content.len());
                proof {
                    assert(line@ =~= suffix);
                }
                match parse_header_line_exec(line.as_slice(), colon.as_slice()) {
                    Some(e) => {
                        acc = hdr_put_entries(acc, e);
                    },
                    None => (),
                }
                proof {
                    assert(parse_header_lines_acc(Seq::<Seq<char>>::empty(), headers_model(acc@))
                        == headers_model(acc@));
                }
                done = true;
            },
        }
    }
    acc
}

/// `r` is `val` when `val` is small, else the cap.
pub open spec fn capped_value(r: u32, val: int) -> bool {
    &&& (val <= 99999 ==> r == val)
    &&& (val > 99999 ==> r == 100000)
}

/// Executable form of [`parse_status_section`].
fn parse_status_exec(t: &[char], i: usize, status_heading: &[char], fence: &[char]) -> (r: Option<
    (u32, Vec<char>, usize),
>)
    requires
        status_heading@ == "### Response body recorded for playback ("@,
        fence@ == "```"@,
    ensures
        match r {
            Some((status, body, next)) => {
                &&& parse_status_section(t@, i as int) is Some
                &&& ({
                    let (sd, sb, sn) = parse_status_section(t@, i as int)->Some_0;
                    &&& all_digits(sd)
                    &&& capped_value(status, digits_value(sd))
                    &&& body@ == sb
                    &&& next == sn
                })
            },
            None => parse_status_section(t@, i as int) is None,
        },
{
    let n = t.len();
    match find_pattern(t, status_heading, i) {
        None => None,
        Some(h) => {
            proof {
                lemma_find_spec(t@, status_heading@, i as int);
                assert(h + status_heading@.len() <= n);
            }
            let d0 = h + status_heading.len();
            let d1 = scan_digits_exec(t, d0);
            proof {
                lemma_scan_digits(t@, d0 as int);
            }
            if d1 == d0 {
                return None;
            }
            let status = digits_value_capped(t, d0, d1);
            match parse_fenced_exec(t, d1, fence) {
                None => None,
                Some((body, next)) => Some((status, body, next)),
            }
        },
    }
}

/// The pieces of one executable-parsed block, numbers still capped.
struct BlockParts {
    number: u32,
    method: String,
    uri: String,
    request_headers: Vec<(String, String)>,
    request_body: String,
    response_headers: Vec<(String, String)>,
    status: u32,
    response_body: String,
}

/// The fixed text pieces the parser searches for.
struct Patterns {
    marker: Vec<char>,
    fence: Vec<char>,
    colon_space: Vec<char>,
    space: Vec<char>,
    request_headers_heading: Vec<char>,
    request_body_heading: Vec<char>,
    response_headers_heading: Vec<char>,
    status_heading: Vec<char>,
}

impl Patterns {
    spec fn wf(&self) -> bool {
        &&& self.marker@ == block_marker()
        &&& self.fence@ == "```"@
        &&& self.colon_space@ == ": "@
        &&& self.space@ == " "@
        &&& self.request_headers_heading@ == "### Request headers recorded for playback"@
        &&& self.request_body_heading@ == "### Request body recorded for playback"@
        &&& self.response_headers_heading@ == "### Response headers recorded for playback"@
        &&& self.status_heading@ == "### Response body recorded for playback ("@
    }

    fn new() -> (r: Self)
        ensures
            r.wf(),
    {
        Patterns {
            marker: crate::text::chars_of("## Interaction "),
            fence: crate::text::chars_of("```"),
            colon_space: crate::text::chars_of(": "),
            space: crate::text::chars_of(" "),
            request_headers_heading: crate::text::chars_of(
                "### Request headers recorded for playback",
            ),
            request_body_heading: crate::text::chars_of("### Request body recorded for playback"),
            response_headers_heading: crate::text::chars_of(
                "### Response headers recorded for playback",
            ),
            status_heading: crate::text::chars_of("### Response body recorded for playback ("),
        }
    }
}

/// Executable form of [`parse_block`].
#[verifier::rlimit(100)]
fn parse_block_exec(t: &[char], p: usize, pats: &Patterns) -> (r: Option<(BlockParts, usize)>)
    requires
        pats.wf(),
        p + block_marker().len() <= t@.len(),
    ensures
        match r {
            Some((b, next)) => {
                &&& parse_block(t@, p as int) is Some
                &&& ({
                    let (raw, sn) = parse_block(t@, p as int)->Some_0;
                    &&& next == sn
                    &&& all_digits(raw.number)
                    &&& all_digits(raw.status)
                    &&& capped_value(b.number, digits_value(raw.number))
                    &&& capped_value(b.status, digits_value(raw.status))
                    &&& b.method@ == raw.method
                    &&& b.uri@ == raw.uri
                    &&& headers_model(b.request_headers@) == raw.request_headers
                    &&& b.request_body@ == raw.request_body
                    &&& headers_model(b.response_headers@) == raw.response_headers
                    &&& b.response_body@ == raw.response_body
                })
            },
            None => parse_block(t@, p as int) is None,
        },
{
    let n = t.len();
    let j = p + pats.marker.len();
    let d1 = scan_digits_exec(t, j);
    proof {
        lemma_scan_digits(t@, j as int);
    }
    if d1 == j || !slice_matches_at(t, pats.colon_space.as_slice(), d1) {
        return None;
    }
    let number = digits_value_capped(t, j, d1);
    proof {
        reveal_strlit(": ");
        assert(d1 + 2 <= n);
    }
    let m0 = d1 + 2;
    let m1 = scan_method_exec(t, m0);
    proof {
        lemma_scan_method(t@, m0 as int);
    }
    if m1 == m0 || !slice_matches_at(t, pats.space.as_slice(), m1) {
        return None;
    }
    proof {
        reveal_strlit(" ");
        assert(m1 + 1 <= n);
    }
    let u0 = m1 + 1;
    let u1 = scan_uri_exec(t, u0);
    let section1 = parse_section_exec(
        t,
        u1,
        pats.request_headers_heading.as_slice(),
        pats.fence.as_slice(),
    );
    match section1 {
        None => None,
        Some((req_hdr_text, p1)) => {
            let section2 = parse_section_exec(
                t,
                p1,
                pats.request_body_heading.as_slice(),
                pats.fence.as_slice(),
            );
            match section2 {
                None => None,
                Some((req_body, p2)) => {
                    let section3 = parse_section_exec(
                        t,
                        p2,
                        pats.response_headers_heading.as_slice(),
                        pats.fence.as_slice(),
                    );
                    match section3 {
                        None => None,
                        Some((resp_hdr_text, p3)) => {
                            let section4 = parse_status_exec(
                                t,
                                p3,
                                pats.status_heading.as_slice(),
                                pats.fence.as_slice(),
                            );
                            match section4 {
                                None => None,
                                Some((status, resp_body, p4)) => {
                                    let request_headers = parse_headers_part(
                                        req_hdr_text.as_slice(),
                                    );
                                    let response_headers = parse_headers_part(
                                        resp_hdr_text.as_slice(),
                                    );
                                    let mut method: Vec<char> = Vec::new();
                                    crate::text::push_range(&mut method, t, m0, m1);
                                    let mut uri: Vec<char> = Vec::new();
                                    crate::text::push_range(&mut uri, t, u0, u1);
                                    let req_body_trimmed = trim_chars(req_body.as_slice());
                                    let resp_body_trimmed = trim_chars(resp_body.as_slice());
                                    proof {
                                        assert(req_body_trimmed@ == trim(req_body@));
                                        assert(resp_body_trimmed@ == trim(resp_body@));
                                        let ghost ps = parse_status_section(t@, p3 as int);
                                        assert(ps == Some(
                                            (ps->Some_0.0, resp_body@, p4 as int),
                                        ));
                                        assert(parse_block(t@, p as int) is Some);
                                        let ghost (raw, sn) = parse_block(
                                            t@,
                                            p as int,
                                        )->Some_0;
                                        assert(raw.request_headers == parse_headers_text(
                                            req_hdr_text@,
                                        ));
                                        assert(raw.request_body == trim(req_body@));
                                        assert(raw.response_headers == parse_headers_text(
                                            resp_hdr_text@,
                                        ));
                                        assert(raw.response_body == trim(resp_body@));
                                    }
                                    let parts = BlockParts {
                                        number,
                                        method: string_of(method.as_slice()),
                                        uri: string_of(uri.as_slice()),
                                        request_headers,
                                        request_body: string_of(req_body_trimmed.as_slice()),
                                        response_headers,
                                        status,
                                        response_body: string_of(resp_body_trimmed.as_slice()),
                                    };
                                    Some((parts, p4))
                                },
                            }
                        },
                    }
                },
            }
        },
    }
}

/// Parses a whole conversation document: every interaction block in order,
/// or the error the specification assigns to the text.
#[verifier::rlimit(100)]
pub fn parse_conversation(text: &str) -> (r: Result<Vec<InteractionData>, Error>)
    ensures
        match r {
            Ok(v) => parse_conversation_spec(text@) == Ok::<Seq<InteractionModel>, Error>(
                crate::data::interactions_model(v@),
            ),
            Err(e) => parse_conversation_spec(text@) == Err::<Seq<InteractionModel>, Error>(e),
        },
{
    let t = crate::text::chars_of(text);
    let pats = Patterns::new();
    let tn = t.len();
    let mut acc: Vec<InteractionData> = Vec::new();
    let mut pos: usize = 0;
    proof {
        assert(crate::data::interactions_model(acc@) =~= Seq::<InteractionModel>::empty());
    }
    loop
        invariant
            pos <= t@.len(),
            tn == t@.len(),
            t@ == text@,
            pats.wf(),
            ({
                let rest = parse_loop(t@, pos as int);
                let full = parse_loop(t@, 0);
                match rest {
                    Ok(rs) => full == Ok::<Seq<InteractionModel>, Error>(
                        crate::data::interactions_model(acc@) + rs,
                    ),
                    Err(e) => full == Err::<Seq<InteractionModel>, Error>(e),
                }
            }),
        decreases t@.len() - pos,
    {
        let ghost rest0 = parse_loop(t@, pos as int);
        let found = find_pattern(t.as_slice(), pats.marker.as_slice(), pos);
        match found {
            None => {
                proof {
                    assert(rest0 == Ok::<Seq<InteractionModel>, Error>(Seq::empty()));
                    assert(crate::data::interactions_model(acc@) + Seq::<
                        InteractionModel,
                    >::empty() =~= crate::data::interactions_model(acc@));
                }
                if acc.len() == 0 {
                    return Err(Error::InvalidMarkdownFormat);
                }
                return Ok(acc);
            },
            Some(p) => {
                proof {
                    lemma_find_spec(t@, block_marker(), pos as int);
                    reveal_strlit("## Interaction ");
                    assert(p + block_marker().len() <= tn);
                }
                match parse_block_exec(t.as_slice(), p, &pats) {
                    None => {
                        proof {
                            assert(rest0 == parse_loop(t@, p + block_marker().len()));
                        }
                        pos = p + pats.marker.len();
                    },
                    Some((parts, next)) => {
                        let ghost raw = parse_block(t@, p as int)->Some_0.0;
                        proof {
                            lemma_parse_block_bounds(t@, p as int);
                            lemma_digits_value_nonneg(raw.number);
                            lemma_digits_value_nonneg(raw.status);
                        }
                        if parts.number > 255 {
                            proof {
                                assert(digits_value(raw.number) > 255);
                                assert(rest0 == Err::<Seq<InteractionModel>, Error>(
                                    Error::InvalidInteractionNumber,
                                ));
                            }
                            return Err(Error::InvalidInteractionNumber);
                        }
                        if parts.status > 65535 {
                            proof {
                                assert(digits_value(raw.status) > 65535);
                                assert(rest0 == Err::<Seq<InteractionModel>, Error>(
                                    Error::InvalidStatusCode,
                                ));
                            }
                            return Err(Error::InvalidStatusCode);
                        }
                        proof {
                            assert(digits_value(raw.number) <= 255);
                            assert(digits_value(raw.status) <= 65535);
                        }
                        let data = InteractionData {
                            interaction_number: parts.number as u8,
                            request_data: RequestData {
                                uri: parts.uri,
                                method: parts.method,
                                headers: parts.request_headers,
                                body: parts.request_body,
                            },
                            response_data: ResponseData {
                                status_code: parts.status as u16,
                                headers: parts.response_headers,
                                body: parts.response_body,
                            },
                        };
                        proof {
                            assert(data@ == block_model(raw));
                        }
                        let ghost acc0 = acc@;
                        acc.push(data);
                        proof {
                            assert(crate::data::interactions_model(acc@) =~=
                                crate::data::interactions_model(acc0) + seq![block_model(raw)]);
                            match parse_loop(t@, next as int) {
                                Ok(rs) => {
                                    assert(rest0 == Ok::<Seq<InteractionModel>, Error>(
                                        seq![block_model(raw)] + rs,
                                    ));
                                    assert(crate::data::interactions_model(acc0) + (seq![
                                        block_model(raw),
                                    ] + rs) =~= crate::data::interactions_model(acc@) + rs);
                                },
                                Err(e) => {
                                    assert(rest0 == Err::<Seq<InteractionModel>, Error>(e));
                                },
                            }
                        }
                        pos = next;
                    },
                }
            },
        }
    }
}

} // verus!

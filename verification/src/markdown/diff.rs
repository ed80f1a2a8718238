//! The structural diff between two conversations: bodies are compared after
//! normalisation (trim, then CRLF to LF) character by character; header maps
//! are compared by key sets and trimmed values.

use vstd::prelude::*;

use crate::data::{header_lookup, headers_model, HeaderModel, InteractionData, InteractionModel};
use crate::markdown::error::{
    Error, MarkdownsBodyDifference, MarkdownsDifferenceLocation, MarkdownsDifferenceType,
    MarkdownsHeaderDifference,
};
use crate::markdown::MarkdownInteractionManager;
use crate::text::{normalize_newlines, trim};

verus! {

/// A body as compared: trimmed, line endings normalised to LF.
pub open spec fn norm_body(s: Seq<char>) -> Seq<char> {
    normalize_newlines(trim(s))
}

/// The first position at or after `i` where the sequences differ, within their
/// common prefix.
pub open spec fn first_diff_from(a: Seq<char>, b: Seq<char>, i: int) -> Option<int>
    decreases a.len() - i,
{
    if i < 0 || i >= a.len() || i >= b.len() {
        None
    } else if a[i] != b[i] {
        Some(i)
    } else {
        first_diff_from(a, b, i + 1)
    }
}

/// The first differing position of two sequences, within their common prefix.
pub open spec fn first_diff(a: Seq<char>, b: Seq<char>) -> Option<int> {
    first_diff_from(a, b, 0)
}

/// The 1-based line that position `p` falls on: one more than the newlines at
/// or before `p`.
pub open spec fn line_at(a: Seq<char>, p: int) -> int
    decreases p + 1,
{
    if p < 0 {
        1
    } else if a[p] == '\n' {
        line_at(a, p - 1) + 1
    } else {
        line_at(a, p - 1)
    }
}

/// The column of position `p`: characters since the last newline, 1-based; a
/// newline itself resets the column to 1.
pub open spec fn col_at(a: Seq<char>, p: int) -> int
    decreases p + 1,
{
    if p < 0 {
        0
    } else if a[p] == '\n' {
        1
    } else {
        col_at(a, p - 1) + 1
    }
}

/// `x` clamped into `u32`.
pub open spec fn sat32(x: int) -> int {
    if x > u32::MAX {
        u32::MAX as int
    } else {
        x
    }
}

/// The window of up to ten characters on each side of position `p`, clamped to
/// the ends of `s`.
pub open spec fn context_of(s: Seq<char>, p: int) -> Seq<char> {
    s.subrange(
        if p >= 10 {
            p - 10
        } else {
            0
        },
        if p + 10 <= s.len() {
            p + 10
        } else {
            s.len() as int
        },
    )
}

/// Model of a reported body difference.
pub struct BodyDiffModel {
    pub line: int,
    pub column: int,
    pub old_context: Seq<char>,
    pub new_context: Seq<char>,
}

/// Model of a reported header difference.
pub struct HeaderDiffModel {
    pub header_name: Seq<char>,
    pub old_header_value: Option<Seq<char>>,
    pub new_header_value: Option<Seq<char>>,
}

/// Model of either kind of difference.
pub enum DiffModel {
    Body(BodyDiffModel),
    Header(HeaderDiffModel),
}

impl View for MarkdownsBodyDifference {
    type V = BodyDiffModel;

    open spec fn view(&self) -> BodyDiffModel {
        BodyDiffModel {
            line: self.line as int,
            column: self.column as int,
            old_context: self.old_context@,
            new_context: self.new_context@,
        }
    }
}

/// The model of an optional string.
pub open spec fn opt_view(v: Option<String>) -> Option<Seq<char>> {
    match v {
        Some(s) => Some(s@),
        None => None,
    }
}

impl View for MarkdownsHeaderDifference {
    type V = HeaderDiffModel;

    open spec fn view(&self) -> HeaderDiffModel {
        HeaderDiffModel {
            header_name: self.header_name@,
            old_header_value: opt_view(self.old_header_value),
            new_header_value: opt_view(self.new_header_value),
        }
    }
}

impl View for MarkdownsDifferenceType {
    type V = DiffModel;

    open spec fn view(&self) -> DiffModel {
        match self {
            MarkdownsDifferenceType::Body(b) => DiffModel::Body(b@),
            MarkdownsDifferenceType::Header(h) => DiffModel::Header(h@),
        }
    }
}

/// The body difference reported for normalised bodies `a` and `b` differing
/// first at `p`.
pub open spec fn body_diff_model(a: Seq<char>, b: Seq<char>, p: int) -> BodyDiffModel {
    BodyDiffModel {
        line: sat32(line_at(a, p)),
        column: sat32(col_at(a, p)),
        old_context: context_of(a, p),
        new_context: context_of(b, p),
    }
}

impl MarkdownInteractionManager {
    /// The window of text around position `index`, up to ten characters on
    /// each side.
    pub fn get_context(body: &str, index: usize) -> (r: String)
        requires
            index <= body@.len(),
        ensures
            r@ == context_of(body@, index as int),
    {
        let chars = crate::text::chars_of(body);
        let n = chars.len();
        let left = if index >= 10 {
            index - 10
        } else {
            0
        };
        let right = if n - index >= 10 {
            index + 10
        } else {
            n
        };
        let mut out: Vec<char> = Vec::new();
        crate::text::push_range(&mut out, chars.as_slice(), left, right);
        proof {
            assert(out@ =~= context_of(body@, index as int));
        }
        crate::text::string_of(out.as_slice())
    }

    /// The first character at which two already-normalised bodies differ, with
    /// its 1-based line and column and the surrounding context from each body.
    pub fn find_difference(old_body: &str, new_body: &str) -> (r: Option<MarkdownsBodyDifference>)
        ensures
            match r {
                Some(d) => {
                    &&& first_diff(old_body@, new_body@) is Some
                    &&& d@ == body_diff_model(
                        old_body@,
                        new_body@,
                        first_diff(old_body@, new_body@)->Some_0,
                    )
                },
                None => first_diff(old_body@, new_body@) is None,
            },
    {
        let a = crate::text::chars_of(old_body);
        let b = crate::text::chars_of(new_body);
        let an = a.len();
        let bn = b.len();
        let bound = if an < bn {
            an
        } else {
            bn
        };
        let mut line: u32 = 1;
        let mut col: u32 = 0;
        let mut i: usize = 0;
        while i < bound
            invariant
                a@ == old_body@,
                b@ == new_body@,
                an == a@.len(),
                bn == b@.len(),
                bound == if an < bn {
                    an as int
                } else {
                    bn as int
                },
                i <= bound,
                line == sat32(line_at(a@, i - 1)),
                col == sat32(col_at(a@, i - 1)),
                first_diff(old_body@, new_body@) == first_diff_from(a@, b@, i as int),
            decreases bound - i,
        {
            let ca = a[i];
            if ca == '\n' {
                if line < u32::MAX {
                    line = line + 1;
                }
                col = 1;
            } else {
                if col < u32::MAX {
                    col = col + 1;
                }
            }
            if ca != b[i] {
                let old_context = Self::get_context(old_body, i);
                let new_context = Self::get_context(new_body, i);
                return Some(
                    MarkdownsBodyDifference { line, column: col, old_context, new_context },
                );
            }
            i = i + 1;
        }
        proof {
            assert(first_diff_from(a@, b@, i as int) is None);
        }
        None
    }
}

/// A name appears in a header list exactly when looking it up succeeds.
pub proof fn lemma_has_name_lookup(hs: Seq<HeaderModel>, name: Seq<char>)
    ensures
        crate::data::header_has_name(hs, name) <==> header_lookup(hs, name) is Some,
    decreases hs.len(),
{
    if hs.len() > 0 {
        lemma_has_name_lookup(hs.drop_last(), name);
        if hs.last().0 == name {
            assert(hs[hs.len() - 1].0 == name);
        } else {
            assert forall|k: int| 0 <= k < hs.len() && hs[k].0 == name implies 0 <= k < hs.len()
                - 1 by {}
            assert(crate::data::header_has_name(hs, name) ==> crate::data::header_has_name(
                hs.drop_last(),
                name,
            )) by {
                if crate::data::header_has_name(hs, name) {
                    let k = choose|k: int| 0 <= k < hs.len() && hs[k].0 == name;
                    assert(hs.drop_last()[k] == hs[k]);
                }
            }
        }
    }
}

/// When no entry from `i` on is absent, every later name appears in `other`.
pub proof fn lemma_first_absent_none(xs: Seq<HeaderModel>, other: Seq<HeaderModel>, i: int)
    requires
        0 <= i,
        first_absent_from(xs, other, i) is None,
    ensures
        forall|k: int|
            i <= k < xs.len() ==> crate::data::header_has_name(other, #[trigger] xs[k].0),
    decreases xs.len() - i,
{
    if i < xs.len() {
        lemma_first_absent_none(xs, other, i + 1);
    }
}

/// The first entry of `xs` at or after `i` whose name is absent from `other`.
pub open spec fn first_absent_from(xs: Seq<HeaderModel>, other: Seq<HeaderModel>, i: int) -> Option<
    HeaderModel,
>
    decreases xs.len() - i,
{
    if i < 0 || i >= xs.len() {
        None
    } else if !crate::data::header_has_name(other, xs[i].0) {
        Some(xs[i])
    } else {
        first_absent_from(xs, other, i + 1)
    }
}

/// The first name of `xs` at or after `i` present in both lists whose trimmed
/// values differ, with the two untrimmed values.
pub open spec fn first_value_diff_from(
    xs: Seq<HeaderModel>,
    other: Seq<HeaderModel>,
    i: int,
) -> Option<(Seq<char>, Seq<char>, Seq<char>)>
    decreases xs.len() - i,
{
    if i < 0 || i >= xs.len() {
        None
    } else {
        let n = xs[i].0;
        if header_lookup(xs, n) is Some && header_lookup(other, n) is Some && trim(
            header_lookup(xs, n)->Some_0,
        ) != trim(header_lookup(other, n)->Some_0) {
            Some((n, header_lookup(xs, n)->Some_0, header_lookup(other, n)->Some_0))
        } else {
            first_value_diff_from(xs, other, i + 1)
        }
    }
}

/// The first difference between two header maps: a key of either side absent
/// from the other, else a key whose trimmed values differ.
pub open spec fn check_headers_model(lhs: Seq<HeaderModel>, rhs: Seq<HeaderModel>) -> Option<
    HeaderDiffModel,
> {
    match first_absent_from(lhs, rhs, 0) {
        Some(e) => Some(
            HeaderDiffModel {
                header_name: e.0,
                old_header_value: header_lookup(lhs, e.0),
                new_header_value: None,
            },
        ),
        None => match first_absent_from(rhs, lhs, 0) {
            Some(e) => Some(
                HeaderDiffModel {
                    header_name: e.0,
                    old_header_value: None,
                    new_header_value: header_lookup(rhs, e.0),
                },
            ),
            None => match first_value_diff_from(lhs, rhs, 0) {
                Some((n, o, v)) => Some(
                    HeaderDiffModel {
                        header_name: n,
                        old_header_value: Some(trim(o)),
                        new_header_value: Some(trim(v)),
                    },
                ),
                None => None,
            },
        },
    }
}

/// `name` appears among the names of `h`.
fn has_name(h: &Vec<(String, String)>, name: &[char]) -> (r: bool)
    ensures
        r == crate::data::header_has_name(headers_model(h@), name@),
{
    let ghost hm = headers_model(h@);
    let n = h.len();
    let mut i: usize = 0;
    while i < n
        invariant
            n == h@.len(),
            hm == headers_model(h@),
            i <= n,
            forall|k: int| 0 <= k < i ==> hm[k].0 != name@,
        decreases n - i,
    {
        let entry = crate::text::chars_of(h[i].0.as_str());
        if crate::text::chars_eq(entry.as_slice(), name) {
            proof {
                assert(hm[i as int].0 == name@);
            }
            return true;
        }
        i = i + 1;
    }
    false
}

impl MarkdownInteractionManager {
    /// The first difference between two header maps, if any.
    pub fn check_headers(lhs: &Vec<(String, String)>, rhs: &Vec<(String, String)>) -> (r: Option<
        MarkdownsHeaderDifference,
    >)
        ensures
            match r {
                Some(d) => check_headers_model(headers_model(lhs@), headers_model(rhs@)) == Some(
                    d@,
                ),
                None => check_headers_model(headers_model(lhs@), headers_model(rhs@)) is None,
            },
    {
        let ghost lm = headers_model(lhs@);
        let ghost rm = headers_model(rhs@);
        let ln = lhs.len();
        let mut i: usize = 0;
        while i < ln
            invariant
                ln == lhs@.len(),
                lm == headers_model(lhs@),
                rm == headers_model(rhs@),
                i <= ln,
                first_absent_from(lm, rm, 0) == first_absent_from(lm, rm, i as int),
            decreases ln - i,
        {
            let name = crate::text::chars_of(lhs[i].0.as_str());
            if !has_name(rhs, name.as_slice()) {
                let value = crate::markdown::header_get(lhs, lhs[i].0.as_str());
                proof {
                    assert(first_absent_from(lm, rm, i as int) == Some(lm[i as int]));
                }
                return Some(
                    MarkdownsHeaderDifference {
                        header_name: lhs[i].0.clone(),
                        old_header_value: value,
                        new_header_value: None,
                    },
                );
            }
            i = i + 1;
        }
        let rn = rhs.len();
        let mut j: usize = 0;
        while j < rn
            invariant
                rn == rhs@.len(),
                lm == headers_model(lhs@),
                rm == headers_model(rhs@),
                j <= rn,
                first_absent_from(lm, rm, 0) is None,
                first_absent_from(rm, lm, 0) == first_absent_from(rm, lm, j as int),
            decreases rn - j,
        {
            let name = crate::text::chars_of(rhs[j].0.as_str());
            if !has_name(lhs, name.as_slice()) {
                let value = crate::markdown::header_get(rhs, rhs[j].0.as_str());
                proof {
                    assert(first_absent_from(rm, lm, j as int) == Some(rm[j as int]));
                }
                return Some(
                    MarkdownsHeaderDifference {
                        header_name: rhs[j].0.clone(),
                        old_header_value: None,
                        new_header_value: value,
                    },
                );
            }
            j = j + 1;
        }
        let mut k: usize = 0;
        while k < ln
            invariant
                ln == lhs@.len(),
                lm == headers_model(lhs@),
                rm == headers_model(rhs@),
                k <= ln,
                first_absent_from(lm, rm, 0) is None,
                first_absent_from(rm, lm, 0) is None,
                first_value_diff_from(lm, rm, 0) == first_value_diff_from(lm, rm, k as int),
            decreases ln - k,
        {
            let ghost n = lm[k as int].0;
            proof {
                assert(crate::data::header_has_name(lm, n)) by {
                    assert(lm[k as int].0 == n);
                }
                lemma_first_absent_none(lm, rm, 0);
                assert(crate::data::header_has_name(rm, n));
                lemma_has_name_lookup(lm, n);
                lemma_has_name_lookup(rm, n);
            }
            let old_value = crate::markdown::header_get(lhs, lhs[k].0.as_str());
            let new_value = crate::markdown::header_get(rhs, lhs[k].0.as_str());
            match (old_value, new_value) {
                (Some(ov), Some(nv)) => {
                    let ov_trim = crate::text::trim_chars(
                        crate::text::chars_of(ov.as_str()).as_slice(),
                    );
                    let nv_trim = crate::text::trim_chars(
                        crate::text::chars_of(nv.as_str()).as_slice(),
                    );
                    if !crate::text::chars_eq(ov_trim.as_slice(), nv_trim.as_slice()) {
                        proof {
                            assert(first_value_diff_from(lm, rm, k as int) == Some(
                                (n, header_lookup(lm, n)->Some_0, header_lookup(rm, n)->Some_0),
                            ));
                        }
                        return Some(
                            MarkdownsHeaderDifference {
                                header_name: lhs[k].0.clone(),
                                old_header_value: Some(crate::text::string_of(ov_trim.as_slice())),
                                new_header_value: Some(crate::text::string_of(nv_trim.as_slice())),
                            },
                        );
                    }
                },
                _ => {
                    proof {
                        assert(false);
                    }
                },
            }
            k = k + 1;
        }
        None
    }
}

/// The first difference within one pair of interactions: request bodies, then
/// response bodies, then request headers, then response headers.
pub open spec fn pair_diff(o: InteractionModel, n: InteractionModel) -> Option<
    (DiffModel, MarkdownsDifferenceLocation),
> {
    let orq = norm_body(o.request_data.body);
    let nrq = norm_body(n.request_data.body);
    let ors = norm_body(o.response_data.body);
    let nrs = norm_body(n.response_data.body);
    match first_diff(orq, nrq) {
        Some(p) => Some(
            (DiffModel::Body(body_diff_model(orq, nrq, p)), MarkdownsDifferenceLocation::Request),
        ),
        None => match first_diff(ors, nrs) {
            Some(p) => Some(
                (
                    DiffModel::Body(body_diff_model(ors, nrs, p)),
                    MarkdownsDifferenceLocation::Response,
                ),
            ),
            None => match check_headers_model(o.request_data.headers, n.request_data.headers) {
                Some(d) => Some((DiffModel::Header(d), MarkdownsDifferenceLocation::Request)),
                None => match check_headers_model(
                    o.response_data.headers,
                    n.response_data.headers,
                ) {
                    Some(d) => Some((DiffModel::Header(d), MarkdownsDifferenceLocation::Response)),
                    None => None,
                },
            },
        },
    }
}

/// The first difference over two conversations compared pairwise, up to the
/// shorter one's length.
pub open spec fn compare_model(old: Seq<InteractionModel>, new: Seq<InteractionModel>) -> Option<
    (DiffModel, MarkdownsDifferenceLocation),
>
    decreases old.len(),
{
    if old.len() == 0 || new.len() == 0 {
        None
    } else {
        match pair_diff(old[0], new[0]) {
            Some(d) => Some(d),
            None => compare_model(old.drop_first(), new.drop_first()),
        }
    }
}

/// A body in its compared form: trimmed, then CRLF normalised to LF.
fn normalize_body(body: &str) -> (r: String)
    ensures
        r@ == norm_body(body@),
{
    let chars = crate::text::chars_of(body);
    let trimmed = crate::text::trim_chars(chars.as_slice());
    let normalized = crate::text::normalize_newlines_chars(trimmed.as_slice());
    crate::text::string_of(normalized.as_slice())
}

/// The first difference within one pair of captured interactions.
fn pair_diff_exec(o: &InteractionData, n: &InteractionData) -> (r: Option<
    (MarkdownsDifferenceType, MarkdownsDifferenceLocation),
>)
    ensures
        match r {
            Some((d, loc)) => pair_diff(o@, n@) == Some((d@, loc)),
            None => pair_diff(o@, n@) is None,
        },
{
    let orq = normalize_body(o.request_data.body.as_str());
    let nrq = normalize_body(n.request_data.body.as_str());
    match MarkdownInteractionManager::find_difference(orq.as_str(), nrq.as_str()) {
        Some(d) => {
            return Some(
                (MarkdownsDifferenceType::Body(d), MarkdownsDifferenceLocation::Request),
            );
        },
        None => (),
    }
    let ors = normalize_body(o.response_data.body.as_str());
    let nrs = normalize_body(n.response_data.body.as_str());
    match MarkdownInteractionManager::find_difference(ors.as_str(), nrs.as_str()) {
        Some(d) => {
            return Some(
                (MarkdownsDifferenceType::Body(d), MarkdownsDifferenceLocation::Response),
            );
        },
        None => (),
    }
    match MarkdownInteractionManager::check_headers(
        &o.request_data.headers,
        &n.request_data.headers,
    ) {
        Some(d) => {
            return Some(
                (MarkdownsDifferenceType::Header(d), MarkdownsDifferenceLocation::Request),
            );
        },
        None => (),
    }
    match MarkdownInteractionManager::check_headers(
        &o.response_data.headers,
        &n.response_data.headers,
    ) {
        Some(d) => {
            return Some(
                (MarkdownsDifferenceType::Header(d), MarkdownsDifferenceLocation::Response),
            );
        },
        None => (),
    }
    None
}

/// Compares two captured conversations pairwise; the first difference comes
/// back as a [`Error::MarkdownsDiffer`].
pub fn compare_interactions(old: &Vec<InteractionData>, new: &Vec<InteractionData>) -> (r: Result<
    (),
    Error,
>)
    ensures
        match r {
            Ok(()) => compare_model(
                crate::data::interactions_model(old@),
                crate::data::interactions_model(new@),
            ) is None,
            Err(e) => {
                &&& e is MarkdownsDiffer
                &&& compare_model(
                    crate::data::interactions_model(old@),
                    crate::data::interactions_model(new@),
                ) == Some((e->MarkdownsDiffer_0@, e->MarkdownsDiffer_1))
            },
        },
{
    let ghost om = crate::data::interactions_model(old@);
    let ghost nm = crate::data::interactions_model(new@);
    let on = old.len();
    let nn = new.len();
    let mut k: usize = 0;
    proof {
        assert(om.skip(0) =~= om);
        assert(nm.skip(0) =~= nm);
    }
    while k < on && k < nn
        invariant
            on == old@.len(),
            nn == new@.len(),
            om == crate::data::interactions_model(old@),
            nm == crate::data::interactions_model(new@),
            k <= on,
            k <= nn,
            compare_model(om, nm) == compare_model(om.skip(k as int), nm.skip(k as int)),
        decreases on - k,
    {
        let ghost osuf = om.skip(k as int);
        let ghost nsuf = nm.skip(k as int);
        proof {
            assert(osuf[0] == om[k as int]);
            assert(nsuf[0] == nm[k as int]);
            assert(osuf.drop_first() =~= om.skip(k + 1));
            assert(nsuf.drop_first() =~= nm.skip(k + 1));
        }
        match pair_diff_exec(&old[k], &new[k]) {
            Some((d, loc)) => {
                proof {
                    assert(compare_model(osuf, nsuf) == Some((d@, loc)));
                }
                return Err(Error::MarkdownsDiffer(d, loc));
            },
            None => (),
        }
        k = k + 1;
    }
    proof {
        if k >= on {
            assert(om.skip(k as int).len() == 0);
        } else {
            assert(nm.skip(k as int).len() == 0);
        }
    }
    Ok(())
}

} // verus!

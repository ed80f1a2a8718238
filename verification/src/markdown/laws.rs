//! The laws the codec obeys: reading an emitted conversation back yields its
//! canonical form; comparing a conversation against its canonical form finds
//! no difference; a single-character change is reported at exactly its line,
//! column and surrounding context.

use vstd::prelude::*;

use crate::data::{
    canonical_headers, hdr_insert, header_has_name, header_lookup, headers_strictly_sorted,
    HeaderModel, InteractionModel, RequestModel, ResponseModel,
};
use crate::markdown::diff::{
    body_diff_model, check_headers_model, compare_model, first_diff, first_diff_from,
    first_absent_from, first_value_diff_from, lemma_has_name_lookup, norm_body, pair_diff,
    DiffModel,
};
use crate::markdown::error::MarkdownsDifferenceLocation;
use crate::text::{
    is_ws_char, lemma_seq_char_le_total, lemma_seq_char_le_trans, normalize_newlines, seq_char_le,
    trim, trim_end, trim_start,
};

verus! {

/// An interaction in canonical form: headers sorted by name with duplicates
/// collapsed, bodies trimmed and their line endings normalised.
pub open spec fn canonicalise_interaction(i: InteractionModel) -> InteractionModel {
    InteractionModel {
        interaction_number: i.interaction_number,
        request_data: RequestModel {
            headers: canonical_headers(i.request_data.headers),
            body: norm_body(i.request_data.body),
            ..i.request_data
        },
        response_data: ResponseModel {
            headers: canonical_headers(i.response_data.headers),
            body: norm_body(i.response_data.body),
            ..i.response_data
        },
    }
}

/// A conversation in canonical form.
pub open spec fn canonicalise(xs: Seq<InteractionModel>) -> Seq<InteractionModel> {
    Seq::new(xs.len(), |k: int| canonicalise_interaction(xs[k]))
}

/// Equal sequences have no first difference.
pub proof fn lemma_first_diff_self(a: Seq<char>, i: int)
    ensures
        first_diff_from(a, a, i) is None,
    decreases a.len() - i,
{
    if 0 <= i < a.len() {
        lemma_first_diff_self(a, i + 1);
    }
}

/// Sequences that differ exactly at `p` have their first difference there.
pub proof fn lemma_first_diff_exact(a: Seq<char>, b: Seq<char>, p: int, i: int)
    requires
        a.len() == b.len(),
        0 <= i <= p < a.len(),
        a[p] != b[p],
        forall|j: int| i <= j < p ==> a[j] == b[j],
    ensures
        first_diff_from(a, b, i) == Some(p),
    decreases p - i,
{
    if i < p {
        lemma_first_diff_exact(a, b, p, i + 1);
    }
}

/// Looking a name up in a concatenation tries the right part first.
pub proof fn lemma_header_lookup_concat(x: Seq<HeaderModel>, y: Seq<HeaderModel>, n: Seq<char>)
    ensures
        header_lookup(x + y, n) == match header_lookup(y, n) {
            Some(v) => Some(v),
            None => header_lookup(x, n),
        },
    decreases y.len(),
{
    if y.len() == 0 {
        assert(x + y =~= x);
    } else {
        assert((x + y).last() == y.last());
        assert((x + y).drop_last() =~= x + y.drop_last());
        lemma_header_lookup_concat(x, y.drop_last(), n);
    }
}

/// Looking up in a one-entry list.
proof fn lemma_lookup_single(e: HeaderModel, n: Seq<char>)
    ensures
        header_lookup(seq![e], n) == if n == e.0 {
            Some(e.1)
        } else {
            None::<Seq<char>>
        },
{
    let single = seq![e];
    assert(single.len() == 1);
    assert(single.last() == e);
    assert(single.drop_last() =~= Seq::<HeaderModel>::empty());
    assert(header_lookup(single.drop_last(), n) is None);
}

/// In a strictly sorted list every name at or after the head is at or above it.
proof fn lemma_sorted_names_above(s: Seq<HeaderModel>, n: Seq<char>)
    requires
        headers_strictly_sorted(s),
        s.len() > 0,
        seq_char_le(n, s[0].0),
        n != s[0].0,
    ensures
        !header_has_name(s, n),
        header_lookup(s, n) is None,
{
    assert forall|k: int| 0 <= k < s.len() implies s[k].0 != n by {
        if k > 0 {
            assert(seq_char_le(s[0].0, s[k].0));
            if s[k].0 == n {
                lemma_seq_char_le_total(n, s[0].0);
            }
        }
    }
    lemma_has_name_lookup(s, n);
}

/// What inserting does to a lookup: the inserted name maps to the inserted
/// value, every other name is untouched.
pub proof fn lemma_hdr_insert_lookup(s: Seq<HeaderModel>, e: HeaderModel, n: Seq<char>)
    requires
        headers_strictly_sorted(s),
    ensures
        header_lookup(hdr_insert(s, e), n) == if n == e.0 {
            Some(e.1)
        } else {
            header_lookup(s, n)
        },
    decreases s.len(),
{
    if s.len() == 0 {
        let res = hdr_insert(s, e);
        assert(res =~= seq![e]);
        lemma_lookup_single(e, n);
    } else if e.0 == s[0].0 {
        let rest = s.drop_first();
        assert(headers_strictly_sorted(rest)) by {
            assert(forall|i: int, j: int|
                0 <= i < j < rest.len() ==> rest[i] == s[i + 1] && rest[j] == s[j + 1]);
        }
        lemma_header_lookup_concat(seq![e], rest, n);
        lemma_header_lookup_concat(seq![s[0]], rest, n);
        assert(seq![s[0]] + rest =~= s);
        lemma_lookup_single(e, n);
        lemma_lookup_single(s[0], n);
        if n == e.0 {
            if s.len() > 1 {
                assert(seq_char_le(rest[0].0, rest[0].0)) by {
                    lemma_seq_char_le_total(rest[0].0, rest[0].0);
                }
            }
            assert(header_lookup(rest, n) is None) by {
                assert forall|k: int| 0 <= k < rest.len() implies rest[k].0 != n by {
                    assert(rest[k] == s[k + 1]);
                    assert(seq_char_le(s[0].0, s[k + 1].0) && s[0].0 != s[k + 1].0);
                }
                lemma_has_name_lookup(rest, n);
            }
        }
    } else if seq_char_le(e.0, s[0].0) {
        lemma_header_lookup_concat(seq![e], s, n);
        lemma_lookup_single(e, n);
        if n == e.0 {
            lemma_sorted_names_above(s, n);
        }
    } else {
        let rest = s.drop_first();
        assert(headers_strictly_sorted(rest)) by {
            assert(forall|i: int, j: int|
                0 <= i < j < rest.len() ==> rest[i] == s[i + 1] && rest[j] == s[j + 1]);
        }
        lemma_hdr_insert_lookup(rest, e, n);
        lemma_header_lookup_concat(seq![s[0]], hdr_insert(rest, e), n);
        lemma_header_lookup_concat(seq![s[0]], rest, n);
        assert(seq![s[0]] + rest =~= s);
        lemma_lookup_single(s[0], n);
        if n == e.0 && n == s[0].0 {
            assert(false);
        }
    }
}

/// Inserting keeps the list strictly sorted, and every entry of the result is
/// either the inserted one or one of the old ones.
pub proof fn lemma_hdr_insert_sorted(s: Seq<HeaderModel>, e: HeaderModel)
    requires
        headers_strictly_sorted(s),
    ensures
        headers_strictly_sorted(hdr_insert(s, e)),
        forall|k: int|
            0 <= k < hdr_insert(s, e).len() ==> hdr_insert(s, e)[k] == e || exists|j: int|
                0 <= j < s.len() && s[j] == #[trigger] hdr_insert(s, e)[k],
    decreases s.len(),
{
    let res = hdr_insert(s, e);
    if s.len() == 0 {
        assert(res =~= seq![e]);
    } else if e.0 == s[0].0 {
        let rest = s.drop_first();
        assert(res =~= seq![e] + rest);
        assert forall|i: int, j: int| 0 <= i < j < res.len() implies seq_char_le(
            res[i].0,
            res[j].0,
        ) && res[i].0 != res[j].0 by {
            if i == 0 {
                assert(res[j] == s[j]);
                assert(seq_char_le(s[0].0, s[j].0) && s[0].0 != s[j].0);
            } else {
                assert(res[i] == s[i] && res[j] == s[j]);
            }
        }
        assert forall|k: int| 0 <= k < res.len() implies res[k] == e || exists|j: int|
            0 <= j < s.len() && s[j] == #[trigger] res[k] by {
            if k > 0 {
                assert(s[k] == res[k]);
            }
        }
    } else if seq_char_le(e.0, s[0].0) {
        assert(res =~= seq![e] + s);
        assert forall|i: int, j: int| 0 <= i < j < res.len() implies seq_char_le(
            res[i].0,
            res[j].0,
        ) && res[i].0 != res[j].0 by {
            if i == 0 {
                assert(res[j] == s[j - 1]);
                if j == 1 {
                } else {
                    assert(seq_char_le(s[0].0, s[j - 1].0) && s[0].0 != s[j - 1].0);
                    lemma_seq_char_le_trans(e.0, s[0].0, s[j - 1].0);
                    if e.0 == s[j - 1].0 {
                        lemma_seq_char_le_total(e.0, s[0].0);
                        lemma_seq_char_le_total(s[0].0, s[j - 1].0);
                    }
                }
            } else {
                assert(res[i] == s[i - 1] && res[j] == s[j - 1]);
            }
        }
        assert forall|k: int| 0 <= k < res.len() implies res[k] == e || exists|j: int|
            0 <= j < s.len() && s[j] == #[trigger] res[k] by {
            if k > 0 {
                assert(s[k - 1] == res[k]);
            }
        }
    } else {
        let rest = s.drop_first();
        assert(headers_strictly_sorted(rest)) by {
            assert(forall|i: int, j: int|
                0 <= i < j < rest.len() ==> rest[i] == s[i + 1] && rest[j] == s[j + 1]);
        }
        lemma_hdr_insert_sorted(rest, e);
        let sub = hdr_insert(rest, e);
        assert(res =~= seq![s[0]] + sub);
        assert(seq_char_le(s[0].0, e.0)) by {
            lemma_seq_char_le_total(e.0, s[0].0);
        }
        assert forall|i: int, j: int| 0 <= i < j < res.len() implies seq_char_le(
            res[i].0,
            res[j].0,
        ) && res[i].0 != res[j].0 by {
            if i == 0 {
                assert(res[j] == sub[j - 1]);
                if sub[j - 1] == e {
                    assert(seq_char_le(s[0].0, e.0));
                    assert(s[0].0 != e.0);
                } else {
                    let jj = choose|jj: int| 0 <= jj < rest.len() && rest[jj] == sub[j - 1];
                    assert(rest[jj] == s[jj + 1]);
                    assert(seq_char_le(s[0].0, s[jj + 1].0) && s[0].0 != s[jj + 1].0);
                }
            } else {
                assert(res[i] == sub[i - 1] && res[j] == sub[j - 1]);
            }
        }
        assert forall|k: int| 0 <= k < res.len() implies res[k] == e || exists|j: int|
            0 <= j < s.len() && s[j] == #[trigger] res[k] by {
            if k == 0 {
                assert(s[0] == res[0]);
            } else {
                assert(res[k] == sub[k - 1]);
                if sub[k - 1] != e {
                    let jj = choose|jj: int| 0 <= jj < rest.len() && rest[jj] == sub[k - 1];
                    assert(s[jj + 1] == res[k]);
                }
            }
        }
    }
}

/// The canonical form is strictly sorted, keeps every lookup, and draws every
/// entry from the original list.
pub proof fn lemma_canonical_headers_props(s: Seq<HeaderModel>)
    ensures
        headers_strictly_sorted(canonical_headers(s)),
        forall|k: int|
            0 <= k < canonical_headers(s).len() ==> exists|j: int|
                0 <= j < s.len() && s[j] == #[trigger] canonical_headers(s)[k],
    decreases s.len(),
{
    let c = canonical_headers(s);
    if s.len() == 0 {
    } else {
        let prev = canonical_headers(s.drop_last());
        lemma_canonical_headers_props(s.drop_last());
        lemma_hdr_insert_sorted(prev, s.last());
        assert forall|k: int| 0 <= k < c.len() implies exists|j: int|
            0 <= j < s.len() && s[j] == #[trigger] c[k] by {
            if c[k] == s.last() {
                assert(s[s.len() - 1] == c[k]);
            } else {
                let jj = choose|jj: int| 0 <= jj < prev.len() && prev[jj] == c[k];
                let j2 = choose|j2: int|
                    0 <= j2 < s.drop_last().len() && s.drop_last()[j2] == prev[jj];
                assert(s[j2] == c[k]);
            }
        }
    }
}

/// The canonical form maps every name exactly as the original does.
pub proof fn lemma_canonical_lookup(s: Seq<HeaderModel>, n: Seq<char>)
    ensures
        header_lookup(canonical_headers(s), n) == header_lookup(s, n),
    decreases s.len(),
{
    if s.len() > 0 {
        lemma_canonical_lookup(s.drop_last(), n);
        lemma_canonical_headers_props(s.drop_last());
        lemma_hdr_insert_lookup(canonical_headers(s.drop_last()), s.last(), n);
    }
}

/// When every name from `i` on appears in `other`, no entry is reported absent.
proof fn lemma_first_absent_when_present(xs: Seq<HeaderModel>, other: Seq<HeaderModel>, i: int)
    requires
        0 <= i,
        forall|k: int|
            i <= k < xs.len() ==> header_has_name(other, (#[trigger] xs[k]).0),
    ensures
        first_absent_from(xs, other, i) is None,
    decreases xs.len() - i,
{
    if i < xs.len() {
        lemma_first_absent_when_present(xs, other, i + 1);
    }
}

/// When every listed name maps equally on both sides, no value difference is
/// reported.
proof fn lemma_first_value_diff_when_equal(xs: Seq<HeaderModel>, other: Seq<HeaderModel>, i: int)
    requires
        0 <= i,
        forall|k: int|
            i <= k < xs.len() ==> header_lookup(xs, (#[trigger] xs[k]).0) == header_lookup(
                other,
                xs[k].0,
            ),
    ensures
        first_value_diff_from(xs, other, i) is None,
    decreases xs.len() - i,
{
    if i < xs.len() {
        lemma_first_value_diff_when_equal(xs, other, i + 1);
    }
}

/// A header map and its canonical form compare as equal.
pub proof fn lemma_check_headers_canonical(h: Seq<HeaderModel>)
    ensures
        check_headers_model(canonical_headers(h), h) is None,
{
    let c = canonical_headers(h);
    lemma_canonical_headers_props(h);
    assert forall|k: int| 0 <= k < c.len() implies header_has_name(h, (#[trigger] c[k]).0) by {
        let j = choose|j: int| 0 <= j < h.len() && h[j] == c[k];
        assert(h[j].0 == c[k].0);
    }
    lemma_first_absent_when_present(c, h, 0);
    assert forall|k: int| 0 <= k < h.len() implies header_has_name(c, (#[trigger] h[k]).0) by {
        assert(header_has_name(h, h[k].0));
        lemma_has_name_lookup(h, h[k].0);
        lemma_canonical_lookup(h, h[k].0);
        lemma_has_name_lookup(c, h[k].0);
    }
    lemma_first_absent_when_present(h, c, 0);
    assert forall|k: int| 0 <= k < c.len() implies header_lookup(c, (#[trigger] c[k]).0)
        == header_lookup(h, c[k].0) by {
        lemma_canonical_lookup(h, c[k].0);
    }
    lemma_first_value_diff_when_equal(c, h, 0);
}

/// Comparing one interaction against its canonical form finds no difference,
/// for bodies whose normalisation is a fixed point.
pub proof fn lemma_pair_diff_canonical(i: InteractionModel)
    requires
        norm_body(norm_body(i.request_data.body)) == norm_body(i.request_data.body),
        norm_body(norm_body(i.response_data.body)) == norm_body(i.response_data.body),
    ensures
        pair_diff(canonicalise_interaction(i), i) is None,
{
    let ci = canonicalise_interaction(i);
    lemma_first_diff_self(norm_body(i.request_data.body), 0);
    lemma_first_diff_self(norm_body(i.response_data.body), 0);
    lemma_check_headers_canonical(i.request_data.headers);
    lemma_check_headers_canonical(i.response_data.headers);
}

/// Comparing a conversation against its canonical form reports success: for
/// any `a` equal to `canonicalise(b)`, `compare(a, b)` finds no difference.
/// Bodies must be ones whose normalisation is a fixed point; a body such as
/// one containing a CR immediately before a CRLF pair normalises to a new CRLF
/// pair and genuinely differs from its canonical form.
pub proof fn lemma_compare_canonical(b: Seq<InteractionModel>)
    requires
        forall|k: int|
            0 <= k < b.len() ==> norm_body(norm_body((#[trigger] b[k]).request_data.body))
                == norm_body(b[k].request_data.body),
        forall|k: int|
            0 <= k < b.len() ==> norm_body(norm_body((#[trigger] b[k]).response_data.body))
                == norm_body(b[k].response_data.body),
    ensures
        compare_model(canonicalise(b), b) is None,
{
    lemma_compare_canonical_from(b, canonicalise(b), b.len() as int);
}

/// Induction worker for [`lemma_compare_canonical`], peeling pairs from the
/// front.
proof fn lemma_compare_canonical_from(b: Seq<InteractionModel>, cb: Seq<InteractionModel>, fuel: int)
    requires
        cb.len() == b.len(),
        fuel == b.len(),
        forall|k: int| 0 <= k < b.len() ==> #[trigger] cb[k] == canonicalise_interaction(b[k]),
        forall|k: int|
            0 <= k < b.len() ==> norm_body(norm_body((#[trigger] b[k]).request_data.body))
                == norm_body(b[k].request_data.body),
        forall|k: int|
            0 <= k < b.len() ==> norm_body(norm_body((#[trigger] b[k]).response_data.body))
                == norm_body(b[k].response_data.body),
    ensures
        compare_model(cb, b) is None,
    decreases fuel,
{
    if b.len() > 0 {
        lemma_pair_diff_canonical(b[0]);
        assert(cb[0] == canonicalise_interaction(b[0]));
        let b2 = b.drop_first();
        let cb2 = cb.drop_first();
        assert(forall|k: int|
            0 <= k < b2.len() ==> #[trigger] b2[k] == b[k + 1] && cb2[k] == cb[k + 1]);
        lemma_compare_canonical_from(b2, cb2, fuel - 1);
    }
}

/// A single-character change at position `p` of the request body is reported
/// as a request body difference at exactly that position: its line and column
/// count from 1, and the context windows reach at most ten characters each way,
/// clamped to the body's ends. Stated for bodies already in compared form
/// (trimmed, LF line endings).
pub proof fn lemma_single_change_located(o: InteractionModel, n: InteractionModel, p: int)
    requires
        norm_body(o.request_data.body) == o.request_data.body,
        norm_body(n.request_data.body) == n.request_data.body,
        o.request_data.body.len() == n.request_data.body.len(),
        0 <= p < o.request_data.body.len(),
        o.request_data.body[p] != n.request_data.body[p],
        forall|j: int|
            0 <= j < o.request_data.body.len() && j != p ==> o.request_data.body[j]
                == n.request_data.body[j],
    ensures
        ({
            let a = o.request_data.body;
            let b = n.request_data.body;
            &&& pair_diff(o, n) == Some(
                (
                    DiffModel::Body(body_diff_model(a, b, p)),
                    MarkdownsDifferenceLocation::Request,
                ),
            )
            &&& body_diff_model(a, b, p).old_context.len() == (if p < 10 {
                p
            } else {
                10
            }) + (if a.len() - p < 10 {
                a.len() - p
            } else {
                10
            })
            &&& body_diff_model(a, b, p).new_context.len() == (if p < 10 {
                p
            } else {
                10
            }) + (if b.len() - p < 10 {
                b.len() - p
            } else {
                10
            })
        }),
{
    let a = o.request_data.body;
    let b = n.request_data.body;
    lemma_first_diff_exact(a, b, p, 0);
    assert(first_diff(norm_body(a), norm_body(b)) == Some(p));
}

/// Trimming ignores an all-whitespace prefix.
proof fn lemma_trim_start_ws_prefix(a: Seq<char>, x: Seq<char>)
    requires
        forall|k: int| 0 <= k < a.len() ==> is_ws_char(a[k]),
    ensures
        trim_start(a + x) == trim_start(x),
    decreases a.len(),
{
    if a.len() == 0 {
        assert(a + x =~= x);
    } else {
        assert((a + x)[0] == a[0]);
        assert((a + x).drop_first() =~= a.drop_first() + x);
        assert(forall|k: int| 0 <= k < a.drop_first().len() ==> is_ws_char(a.drop_first()[k]));
        lemma_trim_start_ws_prefix(a.drop_first(), x);
    }
}

/// Trimming ignores an all-whitespace suffix.
proof fn lemma_trim_end_ws_suffix(x: Seq<char>, b: Seq<char>)
    requires
        forall|k: int| 0 <= k < b.len() ==> is_ws_char(b[k]),
    ensures
        trim_end(x + b) == trim_end(x),
    decreases b.len(),
{
    if b.len() == 0 {
        assert(x + b =~= x);
    } else {
        assert((x + b).last() == b.last());
        assert((x + b).drop_last() =~= x + b.drop_last());
        assert(forall|k: int| 0 <= k < b.drop_last().len() ==> is_ws_char(b.drop_last()[k]));
        lemma_trim_end_ws_suffix(x, b.drop_last());
    }
}

/// A left trim that leaves something distributes over a concatenation.
proof fn lemma_trim_start_nonempty_concat(s: Seq<char>, b: Seq<char>)
    requires
        trim_start(s).len() > 0,
    ensures
        trim_start(s + b) == trim_start(s) + b,
    decreases s.len(),
{
    if s.len() == 0 {
        assert(false);
    } else if is_ws_char(s[0]) {
        assert((s + b)[0] == s[0]);
        assert((s + b).drop_first() =~= s.drop_first() + b);
        lemma_trim_start_nonempty_concat(s.drop_first(), b);
    } else {
        assert((s + b)[0] == s[0]);
        assert(trim_start(s + b) == s + b);
    }
}

/// A left trim leaves nothing exactly of all-whitespace text.
proof fn lemma_trim_start_empty_ws(s: Seq<char>)
    ensures
        trim_start(s).len() == 0 <==> forall|k: int| 0 <= k < s.len() ==> is_ws_char(s[k]),
    decreases s.len(),
{
    if s.len() > 0 && is_ws_char(s[0]) {
        lemma_trim_start_empty_ws(s.drop_first());
        if trim_start(s).len() == 0 {
            assert forall|k: int| 0 <= k < s.len() implies is_ws_char(s[k]) by {
                if k > 0 {
                    assert(s.drop_first()[k - 1] == s[k]);
                }
            }
        } else {
            if forall|k: int| 0 <= k < s.len() ==> is_ws_char(s[k]) {
                assert(forall|k: int|
                    0 <= k < s.drop_first().len() ==> is_ws_char(s.drop_first()[k]));
            }
        }
    }
}

/// Surrounding all-whitespace padding does not change a trim.
proof fn lemma_trim_ws_wrap(a: Seq<char>, s: Seq<char>, b: Seq<char>)
    requires
        forall|k: int| 0 <= k < a.len() ==> is_ws_char(a[k]),
        forall|k: int| 0 <= k < b.len() ==> is_ws_char(b[k]),
    ensures
        trim(a + s + b) == trim(s),
{
    assert(a + s + b =~= a + (s + b));
    lemma_trim_start_ws_prefix(a, s + b);
    lemma_trim_start_empty_ws(s);
    if trim_start(s).len() > 0 {
        lemma_trim_start_nonempty_concat(s, b);
        lemma_trim_end_ws_suffix(trim_start(s), b);
    } else {
        assert(forall|k: int| 0 <= k < s.len() ==> is_ws_char(s[k]));
        assert(forall|k: int| 0 <= k < (s + b).len() ==> is_ws_char((s + b)[k])) by {
            assert(forall|k: int| 0 <= k < s.len() ==> (s + b)[k] == s[k]);
            assert(forall|k: int| s.len() <= k < (s + b).len() ==> (s + b)[k] == b[k - s.len()]);
        }
        lemma_trim_start_empty_ws(s + b);
        assert(trim_start(s + b).len() == 0);
        assert(trim_start(s + b) =~= Seq::<char>::empty());
        assert(trim_start(s) =~= Seq::<char>::empty());
    }
}

/// Normalising line endings leaves CR-free text unchanged.
proof fn lemma_norm_id(z: Seq<char>)
    requires
        forall|k: int| 0 <= k < z.len() ==> z[k] != '\r',
    ensures
        normalize_newlines(z) == z,
    decreases z.len(),
{
    if z.len() > 0 {
        assert(forall|k: int| 0 <= k < z.skip(1).len() ==> z.skip(1)[k] == z[k + 1]);
        lemma_norm_id(z.skip(1));
        assert(seq![z[0]] + z.skip(1) =~= z);
    }
}

/// A pattern that matches at `target`, with its first character absent before
/// it, is found exactly there.
proof fn lemma_find_exact(t: Seq<char>, pat: Seq<char>, from: int, target: int)
    requires
        0 <= from <= target,
        pat.len() > 0,
        crate::text::matches_at(t, pat, target),
        forall|k: int| from <= k < target ==> t[k] != pat[0],
    ensures
        crate::text::find_from(t, pat, from) == Some(target),
{
    crate::text::lemma_find_skip_region(t, pat, from, target);
}

/// Where a digit run ends, the scan ends.
proof fn lemma_scan_digits_exact(t: Seq<char>, i: int, e: int)
    requires
        0 <= i <= e <= t.len(),
        forall|k: int| i <= k < e ==> crate::text::is_digit_char(t[k]),
        e == t.len() || !crate::text::is_digit_char(t[e]),
    ensures
        crate::markdown::parse::scan_digits(t, i) == e,
    decreases e - i,
{
    if i < e {
        lemma_scan_digits_exact(t, i + 1, e);
    }
}

/// Where a method token ends, the scan ends.
proof fn lemma_scan_method_exact(t: Seq<char>, i: int, e: int)
    requires
        0 <= i <= e <= t.len(),
        forall|k: int| i <= k < e ==> crate::markdown::parse::is_method_char(t[k]),
        e == t.len() || !crate::markdown::parse::is_method_char(t[e]),
    ensures
        crate::markdown::parse::scan_method(t, i) == e,
    decreases e - i,
{
    if i < e {
        lemma_scan_method_exact(t, i + 1, e);
    }
}

/// Where a URI token ends, the scan ends.
proof fn lemma_scan_uri_exact(t: Seq<char>, i: int, e: int)
    requires
        0 <= i <= e <= t.len(),
        forall|k: int| i <= k < e ==> crate::markdown::parse::is_uri_char(t[k]),
        e == t.len() || !crate::markdown::parse::is_uri_char(t[e]),
    ensures
        crate::markdown::parse::scan_uri(t, i) == e,
    decreases e - i,
{
    if i < e {
        lemma_scan_uri_exact(t, i + 1, e);
    }
}

/// A header entry that can be emitted and read back: a well-formed name, a
/// single-line value free of backticks, already trimmed.
pub open spec fn emit_safe_header(e: HeaderModel) -> bool {
    &&& e.0.len() > 0
    &&& forall|k: int|
        0 <= k < e.0.len() ==> crate::markdown::parse::is_header_name_char(#[trigger] e.0[k])
    &&& forall|k: int|
        0 <= k < e.1.len() ==> (#[trigger] e.1[k]) != '\r' && e.1[k] != '\n' && e.1[k] != '`'
    &&& trim(e.1) == e.1
}

/// Every entry of a header list can be emitted and read back.
pub open spec fn emit_safe_headers(hs: Seq<HeaderModel>) -> bool {
    forall|k: int| 0 <= k < hs.len() ==> emit_safe_header(#[trigger] hs[k])
}

/// An interaction that can be emitted and read back: an uppercase method, a
/// URI token, safe headers, and bodies free of CR and backticks.
pub open spec fn emit_safe(i: InteractionModel) -> bool {
    &&& i.request_data.method.len() > 0
    &&& forall|k: int|
        0 <= k < i.request_data.method.len() ==> crate::markdown::parse::is_method_char(
            #[trigger] i.request_data.method[k],
        )
    &&& forall|k: int|
        0 <= k < i.request_data.uri.len() ==> crate::markdown::parse::is_uri_char(
            #[trigger] i.request_data.uri[k],
        )
    &&& emit_safe_headers(i.request_data.headers)
    &&& emit_safe_headers(i.response_data.headers)
    &&& forall|k: int|
        0 <= k < i.request_data.body.len() ==> (#[trigger] i.request_data.body[k]) != '\r'
            && i.request_data.body[k] != '`'
    &&& forall|k: int|
        0 <= k < i.response_data.body.len() ==> (#[trigger] i.response_data.body[k]) != '\r'
            && i.response_data.body[k] != '`'
}

/// Emitted header lines contain no backtick.
proof fn lemma_header_lines_no_backtick(hs: Seq<HeaderModel>, term: Seq<char>)
    requires
        emit_safe_headers(hs),
        forall|k: int| 0 <= k < term.len() ==> (#[trigger] term[k]) == '\r' || term[k] == '\n',
    ensures
        forall|k: int|
            0 <= k < crate::markdown::emit_header_lines(hs, term).len() ==> (
            #[trigger] crate::markdown::emit_header_lines(hs, term)[k]) != '`',
    decreases hs.len(),
{
    reveal_strlit(": ");
    if hs.len() > 0 {
        let e = hs[0];
        let line = crate::markdown::emit_header_line(e, term);
        let rest = hs.drop_first();
        assert(emit_safe_headers(rest)) by {
            assert(forall|k: int| 0 <= k < rest.len() ==> rest[k] == hs[k + 1]);
        }
        lemma_header_lines_no_backtick(rest, term);
        let l = crate::markdown::emit_header_lines(hs, term);
        let lr = crate::markdown::emit_header_lines(rest, term);
        assert(emit_safe_header(e));
        assert forall|k: int| 0 <= k < line.len() implies (#[trigger] line[k]) != '`' by {
            let n = e.0.len() as int;
            let v = e.1.len() as int;
            if k < n {
                assert(line[k] == e.0[k]);
                assert(crate::markdown::parse::is_header_name_char(e.0[k]));
                assert('`' as u32 == 96);
            } else if k < n + 2 {
                assert(line[k] == ": "@[k - n]);
            } else if k < n + 2 + v {
                assert(line[k] == e.1[k - n - 2]);
            } else {
                assert(line[k] == term[k - n - 2 - v]);
            }
        }
        assert forall|k: int| 0 <= k < l.len() implies (#[trigger] l[k]) != '`' by {
            if k < line.len() {
                assert(l[k] == line[k]);
            } else {
                assert(l[k] == lr[k - line.len()]);
            }
        }
    }
}

/// Storing a fresh name appends it.
proof fn lemma_hdr_put_append(acc: Seq<HeaderModel>, e: HeaderModel)
    requires
        !header_has_name(acc, e.0),
    ensures
        crate::data::hdr_put(acc, e) == acc.push(e),
    decreases acc.len(),
{
    if acc.len() == 0 {
        assert(crate::data::hdr_put(acc, e) =~= acc.push(e));
    } else {
        assert(acc[0].0 != e.0);
        assert(!header_has_name(acc.drop_first(), e.0)) by {
            if header_has_name(acc.drop_first(), e.0) {
                let k = choose|k: int|
                    0 <= k < acc.drop_first().len() && acc.drop_first()[k].0 == e.0;
                assert(acc[k + 1].0 == e.0);
            }
        }
        lemma_hdr_put_append(acc.drop_first(), e);
        assert(seq![acc[0]] + acc.drop_first().push(e) =~= acc.push(e));
    }
}

/// A nonempty trimmed text neither starts nor ends with whitespace.
proof fn lemma_trimmed_ends(v: Seq<char>)
    requires
        trim(v) == v,
        v.len() > 0,
    ensures
        !is_ws_char(v[0]),
        !is_ws_char(v.last()),
{
    if is_ws_char(v[0]) {
        lemma_trim_start_len(v.drop_first());
        lemma_trim_end_len(trim_start(v.drop_first()));
        assert(trim(v).len() < v.len());
        assert(false);
    }
    assert(trim_start(v) == v);
    if is_ws_char(v.last()) {
        lemma_trim_end_len(v.drop_last());
        assert(trim_end(v) == trim_end(v.drop_last()));
        assert(trim(v).len() < v.len());
        assert(false);
    }
}

/// A left trim never grows the text.
proof fn lemma_trim_start_len(s: Seq<char>)
    ensures
        trim_start(s).len() <= s.len(),
        trim_start(s) == s || trim_start(s).len() < s.len(),
    decreases s.len(),
{
    if s.len() > 0 && is_ws_char(s[0]) {
        lemma_trim_start_len(s.drop_first());
    }
}

/// A right trim never grows the text.
proof fn lemma_trim_end_len(s: Seq<char>)
    ensures
        trim_end(s).len() <= s.len(),
    decreases s.len(),
{
    if s.len() > 0 && is_ws_char(s.last()) {
        lemma_trim_end_len(s.drop_last());
    }
}

/// One emitted header line, its terminating LF removed, reads back as exactly
/// its entry. `cr` says whether a carriage return preceded the LF.
proof fn lemma_parse_emitted_header_line(e: HeaderModel, cr: bool)
    requires
        emit_safe_header(e),
    ensures
        crate::markdown::parse::parse_header_line(
            e.0 + ": "@ + e.1 + (if cr {
                seq!['\r']
            } else {
                Seq::<char>::empty()
            }),
        ) == Some(e),
{
    reveal_strlit(": ");
    reveal_strlit(":");
    let tail: Seq<char> = if cr {
        seq!['\r']
    } else {
        Seq::empty()
    };
    let piece = e.0 + ": "@ + e.1 + tail;
    let n = e.0.len() as int;
    let v = e.1.len() as int;
    // every character of the piece, by segment
    assert(forall|k: int| 0 <= k < n ==> piece[k] == e.0[k]);
    assert(forall|k: int| n <= k < n + 2 ==> piece[k] == ": "@[k - n]);
    assert(forall|k: int| n + 2 <= k < n + 2 + v ==> piece[k] == e.1[k - n - 2]);
    assert(forall|k: int| n + 2 + v <= k < piece.len() ==> piece[k] == tail[k - n - 2 - v]);
    // the trim of the piece
    let core = if v > 0 {
        e.0 + ": "@ + e.1
    } else {
        e.0 + ":"@
    };
    assert(trim(piece) == core) by {
        assert(!is_ws_char(piece[0])) by {
            assert(piece[0] == e.0[0]);
            assert(crate::markdown::parse::is_header_name_char(e.0[0]));
        }
        assert(trim_start(piece) == piece);
        if v > 0 {
            lemma_trimmed_ends(e.1);
            let j = n + 2 + v;
            assert(!is_ws_char(piece[j - 1])) by {
                assert(piece[j - 1] == e.1[v - 1]);
            }
            assert(forall|m: int| j <= m < piece.len() ==> is_ws_char(piece[m]));
            crate::text::lemma_trim_end_take(piece, j);
            assert(piece.subrange(0, j) =~= core);
        } else {
            let j = n + 1;
            assert(!is_ws_char(piece[j - 1])) by {
                assert(piece[j - 1] == ": "@[0]);
                assert(": "@[0] == ':');
            }
            assert(forall|m: int| j <= m < piece.len() ==> is_ws_char(piece[m])) by {
                assert(piece[n + 1] == ": "@[1]);
            }
            crate::text::lemma_trim_end_take(piece, j);
            assert(piece.subrange(0, j) =~= core);
        }
    }
    // the first colon is right after the name
    assert(crate::text::matches_at(core, ":"@, n)) by {
        assert(core.subrange(n, n + 1) =~= ":"@);
    }
    assert forall|k: int| 0 <= k < n implies core[k] != ':' by {
        assert(core[k] == e.0[k]);
        assert(crate::markdown::parse::is_header_name_char(e.0[k]));
        assert(':' as u32 == 58);
    }
    assert(":"@[0] == ':');
    lemma_find_exact(core, ":"@, 0, n);
    // the name comes back whole, the value comes back trimmed
    assert(core.subrange(0, n) =~= e.0);
    if v > 0 {
        assert(core.subrange(n + 1, core.len() as int) =~= seq![' '] + e.1);
        assert(trim(seq![' '] + e.1) == trim(e.1)) by {
            assert(seq![' '] + e.1 + Seq::<char>::empty() =~= seq![' '] + e.1);
            lemma_trim_ws_wrap(seq![' '], e.1, Seq::empty());
        }
    } else {
        assert(core.subrange(n + 1, core.len() as int) =~= Seq::<char>::empty());
        assert(trim(Seq::<char>::empty()) == e.1);
    }
    assert((e.0, e.1) == e);
}

/// The emitted lines of a sorted header list, folded onto `acc`, append the
/// list: every emitted entry is new to `acc`.
proof fn lemma_parse_emitted_lines(hs: Seq<HeaderModel>, cr: bool, acc: Seq<HeaderModel>)
    requires
        emit_safe_headers(hs),
        headers_strictly_sorted(hs),
        forall|k: int| 0 <= k < hs.len() ==> !header_has_name(acc, (#[trigger] hs[k]).0),
    ensures
        crate::markdown::parse::parse_header_lines_acc(
            crate::markdown::parse::split_lines(
                crate::markdown::emit_header_lines(
                    hs,
                    if cr {
                        "\r\n"@
                    } else {
                        "\n"@
                    },
                ),
            ),
            acc,
        ) == acc + hs,
    decreases hs.len(),
{
    reveal_strlit("\r\n");
    reveal_strlit("\n");
    reveal_strlit(": ");
    reveal_strlit(":");
    let term: Seq<char> = if cr {
        "\r\n"@
    } else {
        "\n"@
    };
    let l = crate::markdown::emit_header_lines(hs, term);
    if hs.len() == 0 {
        assert(l =~= Seq::<char>::empty());
        assert(crate::text::find_from(l, "\n"@, 0) is None);
        assert(crate::markdown::parse::split_lines(l) == seq![l]);
        assert(crate::markdown::parse::parse_header_line(l) is None) by {
            assert(trim(l) =~= Seq::<char>::empty());
            assert(crate::text::find_from(trim(l), ":"@, 0) is None);
        }
        assert(seq![l].drop_first() =~= Seq::<Seq<char>>::empty());
        assert(seq![l][0] == l);
        assert(crate::markdown::parse::parse_header_lines_acc(Seq::<Seq<char>>::empty(), acc)
            == acc);
        assert(crate::markdown::parse::parse_header_lines_acc(seq![l], acc) == acc);
        assert(acc + hs =~= acc);
    } else {
        let e = hs[0];
        let rest = hs.drop_first();
        let line = crate::markdown::emit_header_line(e, term);
        let lr = crate::markdown::emit_header_lines(rest, term);
        assert(l == line + lr);
        let n = e.0.len() as int;
        let v = e.1.len() as int;
        let q = line.len() - 1;
        assert(emit_safe_header(e));
        // characters of the head line
        assert(forall|k: int| 0 <= k < n ==> line[k] == e.0[k]);
        assert(forall|k: int| n <= k < n + 2 ==> line[k] == ": "@[k - n]);
        assert(forall|k: int| n + 2 <= k < n + 2 + v ==> line[k] == e.1[k - n - 2]);
        assert(forall|k: int| n + 2 + v <= k < line.len() ==> line[k] == term[k - n - 2 - v]);
        assert(line[q] == '\n');
        // the first LF of the whole text closes the head line
        assert forall|k: int| 0 <= k < q implies l[k] != '\n' by {
            assert(l[k] == line[k]);
            if k < n {
                assert(crate::markdown::parse::is_header_name_char(e.0[k]));
                assert('\n' as u32 == 10);
            }
        }
        assert(crate::text::matches_at(l, "\n"@, q)) by {
            assert(l.subrange(q, q + 1) =~= "\n"@) by {
                assert(l[q] == line[q]);
            }
        }
        lemma_find_exact(l, "\n"@, 0, q);
        let piece = l.subrange(0, q);
        assert(piece =~= e.0 + ": "@ + e.1 + (if cr {
            seq!['\r']
        } else {
            Seq::<char>::empty()
        }));
        assert(l.skip(q + 1) =~= lr);
        assert(crate::markdown::parse::split_lines(l) == seq![piece]
            + crate::markdown::parse::split_lines(lr));
        lemma_parse_emitted_header_line(e, cr);
        assert(crate::markdown::parse::parse_header_line(piece) == Some(e));
        lemma_hdr_put_append(acc, e);
        let lines = crate::markdown::parse::split_lines(l);
        assert(lines[0] == piece);
        assert(lines.drop_first() =~= crate::markdown::parse::split_lines(lr));
        assert(emit_safe_headers(rest) && headers_strictly_sorted(rest)) by {
            assert(forall|k: int| 0 <= k < rest.len() ==> rest[k] == hs[k + 1]);
            assert(forall|i: int, j: int|
                0 <= i < j < rest.len() ==> rest[i] == hs[i + 1] && rest[j] == hs[j + 1]);
        }
        assert(forall|k: int|
            0 <= k < rest.len() ==> !header_has_name(acc.push(e), (#[trigger] rest[k]).0)) by {
            assert forall|k: int|
                0 <= k < rest.len() implies !header_has_name(
                acc.push(e),
                (#[trigger] rest[k]).0,
            ) by {
                assert(rest[k] == hs[k + 1]);
                assert(!header_has_name(acc, hs[k + 1].0));
                assert(seq_char_le(hs[0].0, hs[k + 1].0) && hs[0].0 != hs[k + 1].0);
                if header_has_name(acc.push(e), hs[k + 1].0) {
                    let j = choose|j: int|
                        0 <= j < acc.push(e).len() && acc.push(e)[j].0 == hs[k + 1].0;
                    if j < acc.len() {
                        assert(acc[j].0 == hs[k + 1].0);
                    } else {
                        assert(acc.push(e)[j] == e);
                    }
                }
            }
        }
        lemma_parse_emitted_lines(rest, cr, acc.push(e));
        assert(acc.push(e) + rest =~= acc + hs);
    }
}

/// The content of an emitted headers section reads back as exactly the list it
/// was emitted from.
proof fn lemma_parse_emitted_headers_content(hs: Seq<HeaderModel>, cr: bool)
    requires
        emit_safe_headers(hs),
        headers_strictly_sorted(hs),
    ensures
        crate::markdown::parse::parse_headers_text(
            "\r\n"@ + crate::markdown::emit_header_lines(
                hs,
                if cr {
                    "\r\n"@
                } else {
                    "\n"@
                },
            ),
        ) == hs,
{
    reveal_strlit("\r\n");
    reveal_strlit("\n");
    reveal_strlit(":");
    let term: Seq<char> = if cr {
        "\r\n"@
    } else {
        "\n"@
    };
    let l = crate::markdown::emit_header_lines(hs, term);
    let content = "\r\n"@ + l;
    assert(content[0] == '\r' && content[1] == '\n');
    assert(crate::text::matches_at(content, "\n"@, 1)) by {
        assert(content.subrange(1, 2) =~= "\n"@);
    }
    assert("\n"@[0] == '\n');
    lemma_find_exact(content, "\n"@, 0, 1);
    let piece = content.subrange(0, 1);
    assert(piece =~= seq!['\r']);
    assert(content.skip(2) =~= l);
    assert(crate::markdown::parse::split_lines(content) == seq![piece]
        + crate::markdown::parse::split_lines(l));
    assert(crate::markdown::parse::parse_header_line(piece) is None) by {
        assert(trim(piece) =~= Seq::<char>::empty()) by {
            assert(is_ws_char(piece[0]));
            assert(piece.drop_first() =~= Seq::<char>::empty());
            assert(trim_start(Seq::<char>::empty()) =~= Seq::<char>::empty());
            assert(trim_start(piece) == trim_start(piece.drop_first()));
            assert(trim_start(piece) =~= Seq::<char>::empty());
        }
        assert(crate::text::find_from(trim(piece), ":"@, 0) is None);
    }
    let lines = crate::markdown::parse::split_lines(content);
    assert(lines[0] == piece);
    assert(lines.drop_first() =~= crate::markdown::parse::split_lines(l));
    lemma_parse_emitted_lines(hs, cr, Seq::empty());
    assert(Seq::<HeaderModel>::empty() + hs =~= hs);
}

/// The characters a match pins down.
proof fn lemma_matches_chars(t: Seq<char>, pat: Seq<char>, p: int)
    requires
        crate::text::matches_at(t, pat, p),
    ensures
        forall|o: int| 0 <= o < pat.len() ==> t[p + o] == #[trigger] pat[o],
{
    assert forall|o: int| 0 <= o < pat.len() implies t[p + o] == #[trigger] pat[o] by {
        assert(t.subrange(p, p + pat.len())[o] == t[p + o]);
    }
}

/// A subrange equal to a concatenation splits into subranges of the parts.
proof fn lemma_split_concat(t: Seq<char>, q: int, x: Seq<char>, y: Seq<char>)
    requires
        0 <= q,
        q + x.len() + y.len() <= t.len(),
        t.subrange(q, q + x.len() + y.len()) == x + y,
    ensures
        t.subrange(q, q + x.len()) == x,
        t.subrange(q + x.len(), q + x.len() + y.len()) == y,
{
    let whole = t.subrange(q, q + x.len() + y.len());
    assert(t.subrange(q, q + x.len()) =~= x) by {
        assert(forall|o: int| 0 <= o < x.len() ==> t.subrange(q, q + x.len())[o] == whole[o]);
    }
    assert(t.subrange(q + x.len(), q + x.len() + y.len()) =~= y) by {
        assert(forall|o: int|
            0 <= o < y.len() ==> #[trigger] t.subrange(q + x.len(), q + x.len() + y.len())[o]
                == whole[x.len() + o]);
    }
}

/// A successful lookup returns the value of some entry with that name.
proof fn lemma_lookup_is_entry(hs: Seq<HeaderModel>, n: Seq<char>)
    requires
        header_lookup(hs, n) is Some,
    ensures
        exists|k: int|
            0 <= k < hs.len() && (#[trigger] hs[k]).0 == n && hs[k].1 == header_lookup(
                hs,
                n,
            )->Some_0,
    decreases hs.len(),
{
    if hs.len() > 0 {
        if hs.last().0 == n {
            assert(hs[hs.len() - 1].0 == n);
        } else {
            lemma_lookup_is_entry(hs.drop_last(), n);
            let k = choose|k: int|
                0 <= k < hs.drop_last().len() && (#[trigger] hs.drop_last()[k]).0 == n
                    && hs.drop_last()[k].1 == header_lookup(hs.drop_last(), n)->Some_0;
            assert(hs[k] == hs.drop_last()[k]);
        }
    }
}

/// Canonicalising a safe header list keeps it safe.
proof fn lemma_canonical_safe(h: Seq<HeaderModel>)
    requires
        emit_safe_headers(h),
    ensures
        emit_safe_headers(canonical_headers(h)),
{
    lemma_canonical_headers_props(h);
    let c = canonical_headers(h);
    assert forall|k: int| 0 <= k < c.len() implies emit_safe_header(#[trigger] c[k]) by {
        let j = choose|j: int| 0 <= j < h.len() && h[j] == c[k];
        assert(emit_safe_header(h[j]));
    }
}

/// A left trim keeps every character property of the text.
proof fn lemma_trim_start_excludes(s: Seq<char>, c0: char)
    requires
        forall|k: int| 0 <= k < s.len() ==> s[k] != c0,
    ensures
        forall|k: int| 0 <= k < trim_start(s).len() ==> trim_start(s)[k] != c0,
    decreases s.len(),
{
    if s.len() > 0 && is_ws_char(s[0]) {
        let d = s.drop_first();
        assert(forall|k: int| 0 <= k < d.len() ==> (#[trigger] d[k]) != c0) by {
            assert(forall|k: int| 0 <= k < d.len() ==> d[k] == s[k + 1]);
        }
        lemma_trim_start_excludes(d, c0);
        assert(trim_start(s) == trim_start(d));
    } else if s.len() > 0 {
        assert(trim_start(s) =~= s);
    }
}

/// A right trim keeps every character property of the text.
proof fn lemma_trim_end_excludes(s: Seq<char>, c0: char)
    requires
        forall|k: int| 0 <= k < s.len() ==> s[k] != c0,
    ensures
        forall|k: int| 0 <= k < trim_end(s).len() ==> trim_end(s)[k] != c0,
    decreases s.len(),
{
    if s.len() > 0 && is_ws_char(s.last()) {
        let d = s.drop_last();
        assert(forall|k: int| 0 <= k < d.len() ==> (#[trigger] d[k]) != c0) by {
            assert(forall|k: int| 0 <= k < d.len() ==> d[k] == s[k]);
        }
        lemma_trim_end_excludes(d, c0);
        assert(trim_end(s) == trim_end(d));
    } else if s.len() > 0 {
        assert(trim_end(s) =~= s);
    }
}

/// A trimmed CR-free body is a fixed point of the compared-body normalisation.
proof fn lemma_norm_body_of_safe(b: Seq<char>)
    requires
        forall|k: int| 0 <= k < b.len() ==> b[k] != '\r',
    ensures
        norm_body(b) == trim(b),
{
    lemma_trim_start_excludes(b, '\r');
    lemma_trim_end_excludes(trim_start(b), '\r');
    lemma_norm_id(trim(b));
}

/// A found heading followed by a fenced stretch parses as that section.
proof fn lemma_parse_section_at(
    t: Seq<char>,
    from: int,
    heading: Seq<char>,
    h: int,
    a: int,
    b: int,
)
    requires
        0 <= from <= h,
        heading.len() > 0,
        crate::text::matches_at(t, heading, h),
        forall|k: int| from <= k < h ==> t[k] != heading[0],
        h + heading.len() <= a,
        crate::text::matches_at(t, "```"@, a),
        forall|k: int| h + heading.len() <= k < a ==> t[k] != '`',
        a + 3 <= b,
        crate::text::matches_at(t, "```"@, b),
        forall|k: int| a + 3 <= k < b ==> t[k] != '`',
    ensures
        crate::markdown::parse::parse_section(t, from, heading) == Some(
            (t.subrange(a + 3, b), b + 3),
        ),
{
    reveal_strlit("```");
    lemma_find_exact(t, heading, from, h);
    assert("```"@[0] == '`');
    lemma_find_exact(t, "```"@, h + heading.len(), a);
    lemma_find_exact(t, "```"@, a + 3, b);
}

/// The heading literal of a headers section.
pub open spec fn sec_heading(req: bool) -> Seq<char> {
    if req {
        "### Request headers recorded for playback"@
    } else {
        "### Response headers recorded for playback"@
    }
}

/// The whole emitted heading-and-opening-fence piece of a headers section.
pub open spec fn sec_lit(req: bool) -> Seq<char> {
    if req {
        "### Request headers recorded for playback:\r\n\r\n```\r\n"@
    } else {
        "### Response headers recorded for playback:\r\n\r\n```\r\n"@
    }
}

/// The line terminator a headers section is emitted with.
pub open spec fn sec_term(req: bool) -> Seq<char> {
    if req {
        "\r\n"@
    } else {
        "\n"@
    }
}

/// An emitted headers section parses back to exactly its header list.
#[verifier::rlimit(100)]
proof fn lemma_emitted_headers_section(t: Seq<char>, hpos: int, hs: Seq<HeaderModel>, req: bool)
    requires
        4 <= hpos,
        emit_safe_headers(hs),
        headers_strictly_sorted(hs),
        t.subrange(hpos - 4, hpos) == "\r\n\r\n"@,
        t.subrange(hpos, hpos + sec_lit(req).len()) == sec_lit(req),
        ({
            let lines = crate::markdown::emit_header_lines(hs, sec_term(req));
            t.subrange(hpos + sec_lit(req).len(), hpos + sec_lit(req).len() + lines.len())
                == lines
        }),
        ({
            let end = hpos + sec_lit(req).len() + crate::markdown::emit_header_lines(
                hs,
                sec_term(req),
            ).len();
            end + 7 <= t.len() && t.subrange(end, end + 7) == "```\r\n\r\n"@
        }),
    ensures
        ({
            let lit = sec_lit(req);
            let lines = crate::markdown::emit_header_lines(hs, sec_term(req));
            let end = hpos + lit.len() + lines.len();
            &&& crate::markdown::parse::parse_section(t, hpos - 4, sec_heading(req)) == Some(
                (t.subrange(hpos + lit.len() - 2, end), end + 3),
            )
            &&& crate::markdown::parse::parse_headers_text(
                t.subrange(hpos + lit.len() - 2, end),
            ) == hs
        }),
{
    reveal_strlit("\r\n\r\n");
    reveal_strlit("\r\n");
    reveal_strlit("\n");
    reveal_strlit("```");
    reveal_strlit("```\r\n\r\n");
    reveal_strlit("### Request headers recorded for playback:\r\n\r\n```\r\n");
    reveal_strlit("### Request headers recorded for playback");
    reveal_strlit("### Response headers recorded for playback:\r\n\r\n```\r\n");
    reveal_strlit("### Response headers recorded for playback");
    let heading = sec_heading(req);
    let lit = sec_lit(req);
    let lines = crate::markdown::emit_header_lines(hs, sec_term(req));
    let end = hpos + lit.len() + lines.len();
    assert(lit.len() == heading.len() + 10);
    lemma_matches_chars(t, "\r\n\r\n"@, hpos - 4);
    lemma_matches_chars(t, lit, hpos);
    lemma_matches_chars(t, lines, hpos + lit.len());
    lemma_matches_chars(t, "```\r\n\r\n"@, end);
    lemma_header_lines_no_backtick(hs, sec_term(req));
    assert(crate::text::matches_at(t, heading, hpos)) by {
        assert(t.subrange(hpos, hpos + heading.len()) =~= heading) by {
            assert(forall|o: int| 0 <= o < heading.len() ==> lit[o] == #[trigger] heading[o]);
            assert(forall|o: int|
                0 <= o < heading.len() ==> #[trigger] t.subrange(hpos, hpos + heading.len())[o]
                    == t[hpos + o]);
        }
    }
    let a = hpos + heading.len() + 5;
    assert(crate::text::matches_at(t, "```"@, a)) by {
        assert forall|o: int| 0 <= o < 3 implies #[trigger] t.subrange(a, a + 3)[o] == "```"@[o] by {
            assert(t.subrange(a, a + 3)[o] == t[a + o]);
            assert(t[hpos + ((a + o) - hpos)] == lit[(a + o) - hpos]);
        }
        assert(t.subrange(a, a + 3) =~= "```"@);
    }
    assert(crate::text::matches_at(t, "```"@, end)) by {
        assert forall|o: int| 0 <= o < 3 implies #[trigger] t.subrange(end, end + 3)[o]
            == "```"@[o] by {
            assert(t.subrange(end, end + 3)[o] == t[end + o]);
            assert(t[end + ((end + o) - end)] == "```\r\n\r\n"@[(end + o) - end]);
        }
        assert(t.subrange(end, end + 3) =~= "```"@);
    }
    assert(heading[0] == '#');
    assert forall|k: int| hpos - 4 <= k < hpos implies t[k] != heading[0] by {
        assert(t[(hpos - 4) + (k - (hpos - 4))] == "\r\n\r\n"@[k - (hpos - 4)]);
    }
    assert forall|k: int| hpos + heading.len() <= k < a implies t[k] != '`' by {
        assert(t[hpos + (k - hpos)] == lit[k - hpos]);
    }
    assert forall|k: int| a + 3 <= k < end implies t[k] != '`' by {
        if k < hpos + lit.len() {
            assert(t[hpos + (k - hpos)] == lit[k - hpos]);
        } else {
            assert(t[(hpos + lit.len()) + (k - hpos - lit.len())] == lines[k - hpos - lit.len()]);
        }
    }
    lemma_parse_section_at(t, hpos - 4, heading, hpos, a, end);
    let content = t.subrange(a + 3, end);
    assert(a + 3 == hpos + lit.len() - 2);
    assert(content =~= "\r\n"@ + lines) by {
        assert forall|o: int| 0 <= o < content.len() implies #[trigger] content[o] == ("\r\n"@
            + lines)[o] by {
            assert(content[o] == t[a + 3 + o]);
            if o < 2 {
                assert(t[hpos + ((a + 3 + o) - hpos)] == lit[(a + 3 + o) - hpos]);
            } else {
                assert(t[(hpos + lit.len()) + (o - 2)] == lines[o - 2]);
            }
        }
    }
    lemma_parse_emitted_headers_content(hs, req);
    assert(crate::markdown::parse::parse_headers_text("\r\n"@ + crate::markdown::emit_header_lines(
        hs,
        if req {
            "\r\n"@
        } else {
            "\n"@
        },
    )) == hs);
}

/// An emitted request-body section parses back to its body, trimmed.
#[verifier::rlimit(100)]
proof fn lemma_emitted_body_section(t: Seq<char>, hpos: int, body: Seq<char>)
    requires
        4 <= hpos,
        forall|k: int| 0 <= k < body.len() ==> (#[trigger] body[k]) != '`',
        t.subrange(hpos - 4, hpos) == "\r\n\r\n"@,
        t.subrange(
            hpos,
            hpos + "### Request body recorded for playback ():\r\n\r\n```\r\n"@.len(),
        ) == "### Request body recorded for playback ():\r\n\r\n```\r\n"@,
        ({
            let litlen = "### Request body recorded for playback ():\r\n\r\n```\r\n"@.len();
            t.subrange(hpos + litlen, hpos + litlen + body.len()) == body
        }),
        ({
            let bend = hpos + "### Request body recorded for playback ():\r\n\r\n```\r\n"@.len()
                + body.len();
            bend + 9 <= t.len() && t.subrange(bend, bend + 9) == "\r\n```\r\n\r\n"@
        }),
    ensures
        ({
            let lit = "### Request body recorded for playback ():\r\n\r\n```\r\n"@;
            let bend = hpos + lit.len() + body.len();
            let content = t.subrange(hpos + lit.len() - 2, bend + 2);
            &&& crate::markdown::parse::parse_section(
                t,
                hpos - 4,
                "### Request body recorded for playback"@,
            ) == Some((content, bend + 5))
            &&& content == "\r\n"@ + body + "\r\n"@
            &&& trim(content) == trim(body)
        }),
{
    reveal_strlit("\r\n\r\n");
    reveal_strlit("\r\n");
    reveal_strlit("```");
    reveal_strlit("\r\n```\r\n\r\n");
    reveal_strlit("### Request body recorded for playback ():\r\n\r\n```\r\n");
    reveal_strlit("### Request body recorded for playback");
    let heading = "### Request body recorded for playback"@;
    let lit = "### Request body recorded for playback ():\r\n\r\n```\r\n"@;
    let tail = "\r\n```\r\n\r\n"@;
    let bend = hpos + lit.len() + body.len();
    assert(lit.len() == heading.len() + 13);
    lemma_matches_chars(t, "\r\n\r\n"@, hpos - 4);
    lemma_matches_chars(t, lit, hpos);
    lemma_matches_chars(t, body, hpos + lit.len());
    lemma_matches_chars(t, tail, bend);
    assert(crate::text::matches_at(t, heading, hpos)) by {
        assert(t.subrange(hpos, hpos + heading.len()) =~= heading) by {
            assert(forall|o: int| 0 <= o < heading.len() ==> lit[o] == #[trigger] heading[o]);
            assert(forall|o: int|
                0 <= o < heading.len() ==> #[trigger] t.subrange(hpos, hpos + heading.len())[o]
                    == t[hpos + o]);
        }
    }
    let a = hpos + heading.len() + 8;
    assert(crate::text::matches_at(t, "```"@, a)) by {
        assert forall|o: int| 0 <= o < 3 implies #[trigger] t.subrange(a, a + 3)[o] == "```"@[o] by {
            assert(t.subrange(a, a + 3)[o] == t[a + o]);
            assert(t[hpos + ((a + o) - hpos)] == lit[(a + o) - hpos]);
        }
        assert(t.subrange(a, a + 3) =~= "```"@);
    }
    let b = bend + 2;
    assert(crate::text::matches_at(t, "```"@, b)) by {
        assert forall|o: int| 0 <= o < 3 implies #[trigger] t.subrange(b, b + 3)[o] == "```"@[o] by {
            assert(t.subrange(b, b + 3)[o] == t[b + o]);
            assert(t[bend + ((b + o) - bend)] == tail[(b + o) - bend]);
        }
        assert(t.subrange(b, b + 3) =~= "```"@);
    }
    assert(heading[0] == '#');
    assert forall|k: int| hpos - 4 <= k < hpos implies t[k] != heading[0] by {
        assert(t[(hpos - 4) + (k - (hpos - 4))] == "\r\n\r\n"@[k - (hpos - 4)]);
    }
    assert forall|k: int| hpos + heading.len() <= k < a implies t[k] != '`' by {
        assert(t[hpos + (k - hpos)] == lit[k - hpos]);
    }
    assert forall|k: int| a + 3 <= k < b implies t[k] != '`' by {
        if k < hpos + lit.len() {
            assert(t[hpos + (k - hpos)] == lit[k - hpos]);
        } else if k < bend {
            assert(t[(hpos + lit.len()) + (k - hpos - lit.len())] == body[k - hpos - lit.len()]);
        } else {
            assert(t[bend + (k - bend)] == tail[k - bend]);
        }
    }
    lemma_parse_section_at(t, hpos - 4, heading, hpos, a, b);
    let content = t.subrange(a + 3, b);
    assert(a + 3 == hpos + lit.len() - 2);
    assert(content =~= "\r\n"@ + body + "\r\n"@) by {
        assert forall|o: int| 0 <= o < content.len() implies #[trigger] content[o] == ("\r\n"@
            + body + "\r\n"@)[o] by {
            assert(content[o] == t[a + 3 + o]);
            if o < 2 {
                assert(t[hpos + ((a + 3 + o) - hpos)] == lit[(a + 3 + o) - hpos]);
            } else if o < 2 + body.len() {
                assert(t[(hpos + lit.len()) + (o - 2)] == body[o - 2]);
            } else {
                assert(t[bend + ((a + 3 + o) - bend)] == tail[(a + 3 + o) - bend]);
            }
        }
    }
    lemma_trim_ws_wrap("\r\n"@, body, "\r\n"@);
}

/// An emitted response-body section parses back to its status digits and its
/// body, trimmed.
#[verifier::rlimit(100)]
proof fn lemma_emitted_status_section(
    t: Seq<char>,
    hpos: int,
    sdig: Seq<char>,
    ct: Seq<char>,
    body: Seq<char>,
)
    requires
        4 <= hpos,
        sdig.len() >= 1,
        crate::text::all_digits(sdig),
        forall|k: int| 0 <= k < ct.len() ==> (#[trigger] ct[k]) != '`',
        forall|k: int| 0 <= k < body.len() ==> (#[trigger] body[k]) != '`',
        t.subrange(hpos - 4, hpos) == "\r\n\r\n"@,
        t.subrange(hpos, hpos + "### Response body recorded for playback ("@.len())
            == "### Response body recorded for playback ("@,
        ({
            let d0 = hpos + "### Response body recorded for playback ("@.len();
            &&& t.subrange(d0, d0 + sdig.len()) == sdig
            &&& t.subrange(d0 + sdig.len(), d0 + sdig.len() + 2) == ": "@
            &&& t.subrange(d0 + sdig.len() + 2, d0 + sdig.len() + 2 + ct.len()) == ct
            &&& t.subrange(
                d0 + sdig.len() + 2 + ct.len(),
                d0 + sdig.len() + 2 + ct.len() + 11,
            ) == "):\r\n\r\n```\r\n"@
            &&& t.subrange(
                d0 + sdig.len() + 13 + ct.len(),
                d0 + sdig.len() + 13 + ct.len() + body.len(),
            ) == body
            &&& d0 + sdig.len() + 13 + ct.len() + body.len() + 9 <= t.len()
            &&& t.subrange(
                d0 + sdig.len() + 13 + ct.len() + body.len(),
                d0 + sdig.len() + 13 + ct.len() + body.len() + 9,
            ) == "\r\n```\r\n\r\n"@
        }),
    ensures
        ({
            let d0 = hpos + "### Response body recorded for playback ("@.len();
            let d1 = d0 + sdig.len();
            let bend = d1 + 13 + ct.len() + body.len();
            let content = t.subrange(d1 + 11 + ct.len(), bend + 2);
            &&& crate::markdown::parse::parse_status_section(t, hpos - 4) == Some(
                (sdig, content, bend + 5),
            )
            &&& content == "\r\n"@ + body + "\r\n"@
            &&& trim(content) == trim(body)
        }),
{
    reveal_strlit("\r\n\r\n");
    reveal_strlit("\r\n");
    reveal_strlit(": ");
    reveal_strlit("```");
    reveal_strlit("\r\n```\r\n\r\n");
    reveal_strlit("):\r\n\r\n```\r\n");
    reveal_strlit("### Response body recorded for playback (");
    let heading = "### Response body recorded for playback ("@;
    let mid = "):\r\n\r\n```\r\n"@;
    let tail = "\r\n```\r\n\r\n"@;
    let d0 = hpos + heading.len();
    let d1 = d0 + sdig.len();
    let ctend = d1 + 2 + ct.len();
    let bend = d1 + 13 + ct.len() + body.len();
    lemma_matches_chars(t, "\r\n\r\n"@, hpos - 4);
    lemma_matches_chars(t, heading, hpos);
    lemma_matches_chars(t, sdig, d0);
    lemma_matches_chars(t, ": "@, d1);
    lemma_matches_chars(t, ct, d1 + 2);
    lemma_matches_chars(t, mid, ctend);
    lemma_matches_chars(t, body, ctend + 11);
    lemma_matches_chars(t, tail, bend);
    assert(heading[0] == '#');
    assert forall|k: int| hpos - 4 <= k < hpos implies t[k] != heading[0] by {
        assert(t[(hpos - 4) + (k - (hpos - 4))] == "\r\n\r\n"@[k - (hpos - 4)]);
    }
    lemma_find_exact(t, heading, hpos - 4, hpos);
    assert forall|k: int| d0 <= k < d1 implies crate::text::is_digit_char(t[k]) by {
        assert(t[d0 + (k - d0)] == sdig[k - d0]);
    }
    assert(t[d1] == ':') by {
        assert(": "@[0] == ':');
        assert(t[d1 + 0] == ": "@[0]);
    }
    assert(!crate::text::is_digit_char(':'));
    lemma_scan_digits_exact(t, d0, d1);
    let a = ctend + 6;
    assert(crate::text::matches_at(t, "```"@, a)) by {
        assert forall|o: int| 0 <= o < 3 implies #[trigger] t.subrange(a, a + 3)[o] == "```"@[o] by {
            assert(t.subrange(a, a + 3)[o] == t[a + o]);
            assert(t[ctend + ((a + o) - ctend)] == mid[(a + o) - ctend]);
        }
        assert(t.subrange(a, a + 3) =~= "```"@);
    }
    let b = bend + 2;
    assert(crate::text::matches_at(t, "```"@, b)) by {
        assert forall|o: int| 0 <= o < 3 implies #[trigger] t.subrange(b, b + 3)[o] == "```"@[o] by {
            assert(t.subrange(b, b + 3)[o] == t[b + o]);
            assert(t[bend + ((b + o) - bend)] == tail[(b + o) - bend]);
        }
        assert(t.subrange(b, b + 3) =~= "```"@);
    }
    assert("```"@[0] == '`');
    assert forall|k: int| d1 <= k < a implies t[k] != '`' by {
        if k < d1 + 2 {
            assert(t[d1 + (k - d1)] == ": "@[k - d1]);
        } else if k < ctend {
            assert(t[(d1 + 2) + (k - d1 - 2)] == ct[k - d1 - 2]);
        } else {
            assert(t[ctend + (k - ctend)] == mid[k - ctend]);
        }
    }
    lemma_find_exact(t, "```"@, d1, a);
    assert forall|k: int| a + 3 <= k < b implies t[k] != '`' by {
        if k < ctend + 11 {
            assert(t[ctend + (k - ctend)] == mid[k - ctend]);
        } else if k < bend {
            assert(t[(ctend + 11) + (k - ctend - 11)] == body[k - ctend - 11]);
        } else {
            assert(t[bend + (k - bend)] == tail[k - bend]);
        }
    }
    lemma_find_exact(t, "```"@, a + 3, b);
    let content = t.subrange(a + 3, b);
    assert(a + 3 == d1 + 11 + ct.len());
    assert(content =~= "\r\n"@ + body + "\r\n"@) by {
        assert forall|o: int| 0 <= o < content.len() implies #[trigger] content[o] == ("\r\n"@
            + body + "\r\n"@)[o] by {
            assert(content[o] == t[a + 3 + o]);
            if o < 2 {
                assert(t[ctend + ((a + 3 + o) - ctend)] == mid[(a + 3 + o) - ctend]);
            } else if o < 2 + body.len() {
                assert(t[(ctend + 11) + (o - 2)] == body[o - 2]);
            } else {
                assert(t[bend + ((a + 3 + o) - bend)] == tail[(a + 3 + o) - bend]);
            }
        }
    }
    assert(t.subrange(d0, d1) == sdig);
    lemma_trim_ws_wrap("\r\n"@, body, "\r\n"@);
}

/// An emitted interaction block, found anywhere in a text, parses back to the
/// canonical headers, the trimmed bodies and the exact number, method, URI and
/// status it was emitted from; parsing ends four characters short of the
/// block's end, before its final blank line.
#[verifier::rlimit(100)]
proof fn lemma_parse_emitted_block(t: Seq<char>, p: int, i: InteractionModel)
    requires
        0 <= p,
        emit_safe(i),
        crate::text::matches_at(t, crate::markdown::emit_interaction(i), p),
    ensures
        crate::markdown::parse::parse_block(t, p) is Some,
        crate::text::matches_at(t, crate::markdown::parse::block_marker(), p),
        t.subrange(
            p + crate::markdown::emit_interaction(i).len() - 4,
            p + crate::markdown::emit_interaction(i).len(),
        ) == "\r\n\r\n"@,
        ({
            let (raw, nx) = crate::markdown::parse::parse_block(t, p)->Some_0;
            &&& raw.number == crate::text::dec_digits_of(i.interaction_number as nat)
            &&& raw.method == i.request_data.method
            &&& raw.uri == i.request_data.uri
            &&& raw.request_headers == canonical_headers(i.request_data.headers)
            &&& raw.request_body == trim(i.request_data.body)
            &&& raw.response_headers == canonical_headers(i.response_data.headers)
            &&& raw.status == crate::text::dec_digits_of(i.response_data.status_code as nat)
            &&& raw.response_body == trim(i.response_data.body)
            &&& nx == p + crate::markdown::emit_interaction(i).len() - 4
        }),
{
    reveal_strlit("## Interaction ");
    reveal_strlit(": ");
    reveal_strlit(" ");
    reveal_strlit("\r\n\r\n");
    reveal_strlit("\r\n");
    reveal_strlit("\n");
    reveal_strlit("```\r\n\r\n");
    reveal_strlit("\r\n```\r\n\r\n");
    reveal_strlit("### Request headers recorded for playback:\r\n\r\n```\r\n");
    reveal_strlit("### Request body recorded for playback ():\r\n\r\n```\r\n");
    reveal_strlit("### Response headers recorded for playback:\r\n\r\n```\r\n");
    reveal_strlit("### Response body recorded for playback (");
    reveal_strlit("):\r\n\r\n```\r\n");
    let ndig = crate::text::dec_digits_of(i.interaction_number as nat);
    let meth = i.request_data.method;
    let uri = i.request_data.uri;
    let rh = canonical_headers(i.request_data.headers);
    let l1 = crate::markdown::emit_header_lines(rh, "\r\n"@);
    let body1 = i.request_data.body;
    let sh = canonical_headers(i.response_data.headers);
    let l3 = crate::markdown::emit_header_lines(sh, "\n"@);
    let sdig = crate::text::dec_digits_of(i.response_data.status_code as nat);
    let ct = crate::markdown::content_type_of(sh);
    let body2 = i.response_data.body;
    crate::text::lemma_dec_digits_of(i.interaction_number as nat);
    crate::text::lemma_dec_digits_of(i.response_data.status_code as nat);
    lemma_canonical_safe(i.request_data.headers);
    lemma_canonical_safe(i.response_data.headers);
    lemma_canonical_headers_props(i.request_data.headers);
    lemma_canonical_headers_props(i.response_data.headers);
    assert(forall|k: int| 0 <= k < ct.len() ==> (#[trigger] ct[k]) != '`') by {
        if header_lookup(sh, "content-type"@) is Some {
            lemma_lookup_is_entry(sh, "content-type"@);
            let k0 = choose|k0: int|
                0 <= k0 < sh.len() && (#[trigger] sh[k0]).0 == "content-type"@ && sh[k0].1
                    == header_lookup(sh, "content-type"@)->Some_0;
            assert(emit_safe_header(sh[k0]));
        }
    }
    let e1 = "## Interaction "@;
    let e2 = e1 + ndig;
    let e3 = e2 + ": "@;
    let e4 = e3 + meth;
    let e5 = e4 + " "@;
    let e6 = e5 + uri;
    let e7 = e6 + "\r\n\r\n"@;
    let e8 = e7 + "### Request headers recorded for playback:\r\n\r\n```\r\n"@;
    let e9 = e8 + l1;
    let e10 = e9 + "```\r\n\r\n"@;
    let e11 = e10 + "### Request body recorded for playback ():\r\n\r\n```\r\n"@;
    let e12 = e11 + body1;
    let e13 = e12 + "\r\n```\r\n\r\n"@;
    let e14 = e13 + "### Response headers recorded for playback:\r\n\r\n```\r\n"@;
    let e15 = e14 + l3;
    let e16 = e15 + "```\r\n\r\n"@;
    let e17 = e16 + "### Response body recorded for playback ("@;
    let e18 = e17 + sdig;
    let e19 = e18 + ": "@;
    let e20 = e19 + ct;
    let e21 = e20 + "):\r\n\r\n```\r\n"@;
    let e22 = e21 + body2;
    let e23 = e22 + "\r\n```\r\n\r\n"@;
    assert(crate::markdown::emit_interaction(i) == e23);
    assert(t.subrange(p, p + e23.len()) == e23);
    lemma_split_concat(t, p, e22, "\r\n```\r\n\r\n"@);
    lemma_split_concat(t, p, e21, body2);
    lemma_split_concat(t, p, e20, "):\r\n\r\n```\r\n"@);
    lemma_split_concat(t, p, e19, ct);
    lemma_split_concat(t, p, e18, ": "@);
    lemma_split_concat(t, p, e17, sdig);
    lemma_split_concat(t, p, e16, "### Response body recorded for playback ("@);
    lemma_split_concat(t, p, e15, "```\r\n\r\n"@);
    lemma_split_concat(t, p, e14, l3);
    lemma_split_concat(t, p, e13, "### Response headers recorded for playback:\r\n\r\n```\r\n"@);
    lemma_split_concat(t, p, e12, "\r\n```\r\n\r\n"@);
    lemma_split_concat(t, p, e11, body1);
    lemma_split_concat(t, p, e10, "### Request body recorded for playback ():\r\n\r\n```\r\n"@);
    lemma_split_concat(t, p, e9, "```\r\n\r\n"@);
    lemma_split_concat(t, p, e8, l1);
    lemma_split_concat(t, p, e7, "### Request headers recorded for playback:\r\n\r\n```\r\n"@);
    lemma_split_concat(t, p, e6, "\r\n\r\n"@);
    lemma_split_concat(t, p, e5, uri);
    lemma_split_concat(t, p, e4, " "@);
    lemma_split_concat(t, p, e3, meth);
    lemma_split_concat(t, p, e2, ": "@);
    lemma_split_concat(t, p, e1, ndig);
    lemma_matches_chars(t, ndig, p + e1.len());
    lemma_matches_chars(t, ": "@, p + e2.len());
    lemma_matches_chars(t, meth, p + e3.len());
    lemma_matches_chars(t, " "@, p + e4.len());
    lemma_matches_chars(t, uri, p + e5.len());
    lemma_matches_chars(t, "\r\n\r\n"@, p + e6.len());
    lemma_matches_chars(t, "```\r\n\r\n"@, p + e9.len());
    lemma_matches_chars(t, "\r\n```\r\n\r\n"@, p + e12.len());
    lemma_matches_chars(t, "```\r\n\r\n"@, p + e15.len());
    lemma_matches_chars(t, sdig, p + e17.len());
    lemma_matches_chars(t, ": "@, p + e18.len());
    // the heading line: number, method, URI
    let j = p + e1.len();
    let d1 = p + e2.len();
    assert(crate::markdown::parse::block_marker().len() == 15);
    assert(j == p + crate::markdown::parse::block_marker().len());
    assert forall|k: int| j <= k < d1 implies crate::text::is_digit_char(t[k]) by {
        assert(t[j + (k - j)] == ndig[k - j]);
    }
    assert(t[d1] == ':') by {
        assert(": "@[0] == ':');
        assert(t[d1 + 0] == ": "@[0]);
    }
    assert(!crate::text::is_digit_char(':'));
    lemma_scan_digits_exact(t, j, d1);
    assert(d1 != j);
    assert(crate::text::matches_at(t, ": "@, d1));
    let m0 = p + e3.len();
    let m1 = p + e4.len();
    assert forall|k: int| m0 <= k < m1 implies crate::markdown::parse::is_method_char(t[k]) by {
        assert(t[m0 + (k - m0)] == meth[k - m0]);
    }
    assert(t[m1] == ' ') by {
        assert(" "@[0] == ' ');
        assert(t[m1 + 0] == " "@[0]);
    }
    assert(!crate::markdown::parse::is_method_char(' '));
    lemma_scan_method_exact(t, m0, m1);
    assert(m1 != m0);
    assert(crate::text::matches_at(t, " "@, m1));
    let u0 = p + e5.len();
    let u1 = p + e6.len();
    assert forall|k: int| u0 <= k < u1 implies crate::markdown::parse::is_uri_char(t[k]) by {
        assert(t[u0 + (k - u0)] == uri[k - u0]);
    }
    assert(t[u1] == '\r') by {
        assert("\r\n\r\n"@[0] == '\r');
        assert(t[u1 + 0] == "\r\n\r\n"@[0]);
    }
    assert(!crate::markdown::parse::is_uri_char('\r'));
    lemma_scan_uri_exact(t, u0, u1);
    // section 1: request headers
    lemma_emitted_headers_section(t, p + e7.len(), rh, true);
    let p1n = p + e9.len() + 3;
    // section 2: request body
    assert(t.subrange(p + e10.len() - 4, p + e10.len()) =~= "\r\n\r\n"@) by {
        assert forall|o: int| 0 <= o < 4 implies #[trigger] t.subrange(
            p + e10.len() - 4,
            p + e10.len(),
        )[o] == "\r\n\r\n"@[o] by {
            assert(t.subrange(p + e10.len() - 4, p + e10.len())[o] == t[p + e10.len() - 4 + o]);
            assert(t[(p + e9.len()) + (3 + o)] == "```\r\n\r\n"@[3 + o]);
        }
    }
    lemma_emitted_body_section(t, p + e10.len(), body1);
    let p2n = p + e12.len() + 5;
    // section 3: response headers
    assert(t.subrange(p + e13.len() - 4, p + e13.len()) =~= "\r\n\r\n"@) by {
        assert forall|o: int| 0 <= o < 4 implies #[trigger] t.subrange(
            p + e13.len() - 4,
            p + e13.len(),
        )[o] == "\r\n\r\n"@[o] by {
            assert(t.subrange(p + e13.len() - 4, p + e13.len())[o] == t[p + e13.len() - 4 + o]);
            assert(t[(p + e12.len()) + (5 + o)] == "\r\n```\r\n\r\n"@[5 + o]);
        }
    }
    lemma_emitted_headers_section(t, p + e13.len(), sh, false);
    let p3n = p + e15.len() + 3;
    // the status section
    assert(t.subrange(p + e16.len() - 4, p + e16.len()) =~= "\r\n\r\n"@) by {
        assert forall|o: int| 0 <= o < 4 implies #[trigger] t.subrange(
            p + e16.len() - 4,
            p + e16.len(),
        )[o] == "\r\n\r\n"@[o] by {
            assert(t.subrange(p + e16.len() - 4, p + e16.len())[o] == t[p + e16.len() - 4 + o]);
            assert(t[(p + e15.len()) + (3 + o)] == "```\r\n\r\n"@[3 + o]);
        }
    }
    lemma_emitted_status_section(t, p + e16.len(), sdig, ct, body2);
    assert(p3n == p + e16.len() - 4);
    let nx = p + e22.len() + 5;
    assert(nx == p + e23.len() - 4);
    assert(crate::text::matches_at(t, crate::markdown::parse::block_marker(), p)) by {
        assert(crate::markdown::parse::block_marker() == e1);
        assert(t.subrange(p, p + e1.len()) == e1);
    }
    lemma_matches_chars(t, "\r\n```\r\n\r\n"@, p + e22.len());
    assert(t.subrange(p + e23.len() - 4, p + e23.len()) =~= "\r\n\r\n"@) by {
        assert forall|o: int| 0 <= o < 4 implies #[trigger] t.subrange(
            p + e23.len() - 4,
            p + e23.len(),
        )[o] == "\r\n\r\n"@[o] by {
            assert(t.subrange(p + e23.len() - 4, p + e23.len())[o] == t[p + e23.len() - 4 + o]);
            assert(t[(p + e22.len()) + (5 + o)] == "\r\n```\r\n\r\n"@[5 + o]);
        }
    }
}

/// A text whose tail, from `pos` on, is some CR/LF padding followed by an
/// emitted conversation parses from `pos` to the conversation's canonical form.
proof fn lemma_parse_loop_emitted(
    t: Seq<char>,
    pos: int,
    pad: Seq<char>,
    xs: Seq<InteractionModel>,
)
    requires
        0 <= pos <= t.len(),
        forall|k: int| 0 <= k < pad.len() ==> (#[trigger] pad[k]) == '\r' || pad[k] == '\n',
        t.subrange(pos, t.len() as int) == pad + crate::markdown::emit_conversation(xs),
        forall|k: int| 0 <= k < xs.len() ==> emit_safe(#[trigger] xs[k]),
    ensures
        crate::markdown::parse::parse_loop(t, pos) == Ok::<
            Seq<InteractionModel>,
            crate::markdown::error::Error,
        >(canonicalise(xs)),
    decreases xs.len(),
{
    reveal_strlit("## Interaction ");
    let marker = crate::markdown::parse::block_marker();
    assert(marker[0] == '#');
    let suffix = t.subrange(pos, t.len() as int);
    if xs.len() == 0 {
        assert(crate::markdown::emit_conversation(xs) == Seq::<char>::empty());
        assert(suffix =~= pad);
        assert forall|k: int| pos <= k < t.len() implies t[k] != marker[0] by {
            assert(suffix[k - pos] == t[k]);
            assert(pad[k - pos] == '\r' || pad[k - pos] == '\n');
        }
        crate::text::lemma_find_skip_region(t, marker, pos, t.len() as int);
        assert(crate::text::find_from(t, marker, t.len() as int) is None);
        assert(canonicalise(xs) =~= Seq::<InteractionModel>::empty());
    } else {
        let x0 = xs[0];
        let rest = xs.drop_first();
        let e0 = crate::markdown::emit_interaction(x0);
        let restconv = crate::markdown::emit_conversation(rest);
        assert(crate::markdown::emit_conversation(xs) == e0 + restconv);
        let q = pos + pad.len();
        assert(emit_safe(x0));
        assert(suffix.len() == pad.len() + e0.len() + restconv.len()) by {
            assert(suffix.len() == (pad + (e0 + restconv)).len());
        }
        assert(q + e0.len() <= t.len());
        assert(crate::text::matches_at(t, e0, q)) by {
            assert forall|o: int| 0 <= o < e0.len() implies #[trigger] t.subrange(
                q,
                q + e0.len(),
            )[o] == e0[o] by {
                assert(t.subrange(q, q + e0.len())[o] == t[q + o]);
                assert(t[q + o] == suffix[pad.len() + o]);
                assert(suffix[pad.len() + o] == (e0 + restconv)[o]);
            }
            assert(t.subrange(q, q + e0.len()) =~= e0);
        }
        lemma_parse_emitted_block(t, q, x0);
        assert forall|k: int| pos <= k < q implies t[k] != marker[0] by {
            assert(suffix[k - pos] == t[k]);
            assert(pad[k - pos] == '\r' || pad[k - pos] == '\n');
        }
        lemma_find_exact(t, marker, pos, q);
        let (raw, nxt) = crate::markdown::parse::parse_block(t, q)->Some_0;
        crate::text::lemma_dec_digits_of(x0.interaction_number as nat);
        crate::text::lemma_dec_digits_of(x0.response_data.status_code as nat);
        assert(crate::text::digits_value(raw.number) == x0.interaction_number);
        assert(crate::text::digits_value(raw.status) == x0.response_data.status_code);
        let pad2 = "\r\n\r\n"@;
        reveal_strlit("\r\n\r\n");
        assert(t.subrange(nxt, t.len() as int) =~= pad2 + restconv) by {
            assert forall|o: int| 0 <= o < t.len() - nxt implies #[trigger] t.subrange(
                nxt,
                t.len() as int,
            )[o] == (pad2 + restconv)[o] by {
                assert(t.subrange(nxt, t.len() as int)[o] == t[nxt + o]);
                if o < 4 {
                    assert(t.subrange(q + e0.len() - 4, q + e0.len())[o] == t[q + e0.len() - 4
                        + o]);
                } else {
                    assert(t[q + e0.len() + (o - 4)] == suffix[pad.len() + e0.len() + (o - 4)]);
                    assert(suffix[pad.len() + e0.len() + (o - 4)] == (e0 + restconv)[e0.len() + (o
                        - 4)]);
                }
            }
        }
        assert(forall|k: int| 0 <= k < rest.len() ==> emit_safe(#[trigger] rest[k])) by {
            assert(forall|k: int| 0 <= k < rest.len() ==> rest[k] == xs[k + 1]);
        }
        assert(forall|k: int| 0 <= k < pad2.len() ==> (#[trigger] pad2[k]) == '\r' || pad2[k]
            == '\n');
        lemma_parse_loop_emitted(t, nxt, pad2, rest);
        assert(crate::markdown::parse::block_model(raw) == canonicalise_interaction(x0)) by {
            lemma_norm_body_of_safe(x0.request_data.body);
            lemma_norm_body_of_safe(x0.response_data.body);
        }
        assert(seq![crate::markdown::parse::block_model(raw)] + canonicalise(rest)
            =~= canonicalise(xs)) by {
            assert(forall|k: int|
                0 <= k < rest.len() ==> #[trigger] canonicalise(rest)[k]
                    == canonicalise_interaction(xs[k + 1]));
        }
    }
}

/// Reading back an emitted conversation yields exactly its canonical form: the
/// same interactions with headers sorted by name (later duplicates winning) and
/// bodies trimmed, in the same order, with every number, method, URI, status,
/// header and body preserved.
pub proof fn lemma_parse_emit(xs: Seq<InteractionModel>)
    requires
        xs.len() > 0,
        forall|k: int| 0 <= k < xs.len() ==> emit_safe(#[trigger] xs[k]),
    ensures
        crate::markdown::parse::parse_conversation_spec(crate::markdown::emit_conversation(xs))
            == Ok::<Seq<InteractionModel>, crate::markdown::error::Error>(canonicalise(xs)),
{
    let t = crate::markdown::emit_conversation(xs);
    assert(t.subrange(0, t.len() as int) =~= Seq::<char>::empty() + t);
    lemma_parse_loop_emitted(t, 0, Seq::empty(), xs);
}

/// A canonical conversation reads back from its emitted document unchanged:
/// writing what was read gives a byte-identical document.
pub proof fn lemma_emit_parse_stable(xs: Seq<InteractionModel>)
    requires
        xs.len() > 0,
        forall|k: int| 0 <= k < xs.len() ==> emit_safe(#[trigger] xs[k]),
        canonicalise(xs) == xs,
    ensures
        crate::markdown::parse::parse_conversation_spec(crate::markdown::emit_conversation(xs))
            == Ok::<Seq<InteractionModel>, crate::markdown::error::Error>(xs),
{
    lemma_parse_emit(xs);
}

} // verus!

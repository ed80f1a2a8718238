//! The interaction model: immutable value types for a request, a response and
//! a captured request/response pair, with their mathematical models, plus the
//! canonical (sorted, duplicate-free) form of a header list.

use vstd::prelude::*;

use crate::text::{chars_eq, chars_le, chars_of, seq_char_le};

verus! {

/// Model of one header list entry: a name and a value.
pub type HeaderModel = (Seq<char>, Seq<char>);

/// Model of a captured request.
pub struct RequestModel {
    pub uri: Seq<char>,
    pub method: Seq<char>,
    pub headers: Seq<HeaderModel>,
    pub body: Seq<char>,
}

/// Model of a captured response.
pub struct ResponseModel {
    pub status_code: u16,
    pub headers: Seq<HeaderModel>,
    pub body: Seq<char>,
}

/// Model of a captured interaction.
pub struct InteractionModel {
    pub interaction_number: u8,
    pub request_data: RequestModel,
    pub response_data: ResponseModel,
}

/// The model of a header list held as vector entries.
pub open spec fn headers_model(h: Seq<(String, String)>) -> Seq<HeaderModel> {
    Seq::new(h.len(), |i: int| (h[i].0@, h[i].1@))
}

/// A captured request: method, URI, lowercased header names mapped to values,
/// and the body held as text.
#[derive(Debug)]
pub struct RequestData {
    pub uri: String,
    pub method: String,
    pub headers: Vec<(String, String)>,
    pub body: String,
}

/// A captured response: status, headers and body.
#[derive(Debug)]
pub struct ResponseData {
    pub status_code: u16,
    pub headers: Vec<(String, String)>,
    pub body: String,
}

/// One captured request/response pair and its 0-based position in the test.
#[derive(Debug)]
pub struct InteractionData {
    pub interaction_number: u8,
    pub request_data: RequestData,
    pub response_data: ResponseData,
}

impl View for RequestData {
    type V = RequestModel;

    open spec fn view(&self) -> RequestModel {
        RequestModel {
            uri: self.uri@,
            method: self.method@,
            headers: headers_model(self.headers@),
            body: self.body@,
        }
    }
}

impl View for ResponseData {
    type V = ResponseModel;

    open spec fn view(&self) -> ResponseModel {
        ResponseModel {
            status_code: self.status_code,
            headers: headers_model(self.headers@),
            body: self.body@,
        }
    }
}

impl View for InteractionData {
    type V = InteractionModel;

    open spec fn view(&self) -> InteractionModel {
        InteractionModel {
            interaction_number: self.interaction_number,
            request_data: self.request_data@,
            response_data: self.response_data@,
        }
    }
}

/// The models of a sequence of interactions.
pub open spec fn interactions_model(xs: Seq<InteractionData>) -> Seq<InteractionModel> {
    Seq::new(xs.len(), |i: int| xs[i]@)
}

/// An exact copy of a header list.
pub fn clone_headers(h: &Vec<(String, String)>) -> (r: Vec<(String, String)>)
    ensures
        r@.len() == h@.len(),
        headers_model(r@) == headers_model(h@),
{
    let mut r: Vec<(String, String)> = Vec::new();
    let n = h.len();
    let mut i: usize = 0;
    while i < n
        invariant
            n == h@.len(),
            i <= n,
            r@.len() == i,
            forall|k: int| 0 <= k < i ==> r@[k].0@ == h@[k].0@ && r@[k].1@ == h@[k].1@,
        decreases n - i,
    {
        let name = h[i].0.clone();
        let value = h[i].1.clone();
        r.push((name, value));
        i = i + 1;
    }
    proof {
        assert(headers_model(r@) =~= headers_model(h@));
    }
    r
}

impl RequestData {
    /// An exact copy of this request.
    pub fn duplicate(&self) -> (r: Self)
        ensures
            r@ == self@,
    {
        let r = RequestData {
            uri: self.uri.clone(),
            method: self.method.clone(),
            headers: clone_headers(&self.headers),
            body: self.body.clone(),
        };
        proof {
            assert(r@ == self@);
        }
        r
    }
}

impl ResponseData {
    /// An exact copy of this response.
    pub fn duplicate(&self) -> (r: Self)
        ensures
            r@ == self@,
    {
        let r = ResponseData {
            status_code: self.status_code,
            headers: clone_headers(&self.headers),
            body: self.body.clone(),
        };
        proof {
            assert(r@ == self@);
        }
        r
    }
}

impl InteractionData {
    /// An exact copy of this interaction.
    pub fn duplicate(&self) -> (r: Self)
        ensures
            r@ == self@,
    {
        let r = InteractionData {
            interaction_number: self.interaction_number,
            request_data: self.request_data.duplicate(),
            response_data: self.response_data.duplicate(),
        };
        proof {
            assert(r@ == self@);
        }
        r
    }
}

/// The value mapped to `name`, taking the last entry when names repeat.
pub open spec fn header_lookup(hs: Seq<HeaderModel>, name: Seq<char>) -> Option<Seq<char>>
    decreases hs.len(),
{
    if hs.len() == 0 {
        None
    } else if hs.last().0 == name {
        Some(hs.last().1)
    } else {
        header_lookup(hs.drop_last(), name)
    }
}

/// `name` appears among the header names of `hs`.
pub open spec fn header_has_name(hs: Seq<HeaderModel>, name: Seq<char>) -> bool {
    exists|k: int| 0 <= k < hs.len() && hs[k].0 == name
}

/// Names strictly ascend: sorted with no duplicates.
pub open spec fn headers_strictly_sorted(hs: Seq<HeaderModel>) -> bool {
    forall|i: int, j: int| #![trigger hs[i], hs[j]]
        0 <= i < j < hs.len() ==> seq_char_le(hs[i].0, hs[j].0) && hs[i].0 != hs[j].0
}

/// `e` placed into the sorted list `hs`: an entry with the same name is
/// replaced, otherwise `e` lands at its ordered position.
pub open spec fn hdr_insert(hs: Seq<HeaderModel>, e: HeaderModel) -> Seq<HeaderModel>
    decreases hs.len(),
{
    if hs.len() == 0 {
        seq![e]
    } else if e.0 == hs[0].0 {
        seq![e] + hs.drop_first()
    } else if seq_char_le(e.0, hs[0].0) {
        seq![e] + hs
    } else {
        seq![hs[0]] + hdr_insert(hs.drop_first(), e)
    }
}

/// The canonical form of a header list: names sorted ascending, duplicates
/// collapsed to the value seen last.
pub open spec fn canonical_headers(hs: Seq<HeaderModel>) -> Seq<HeaderModel>
    decreases hs.len(),
{
    if hs.len() == 0 {
        Seq::empty()
    } else {
        hdr_insert(canonical_headers(hs.drop_last()), hs.last())
    }
}

/// `e` stored into a header list: an entry with the same name keeps its place
/// and takes the new value; otherwise `e` is appended.
pub open spec fn hdr_put(hs: Seq<HeaderModel>, e: HeaderModel) -> Seq<HeaderModel>
    decreases hs.len(),
{
    if hs.len() == 0 {
        seq![e]
    } else if hs[0].0 == e.0 {
        seq![e] + hs.drop_first()
    } else {
        seq![hs[0]] + hdr_put(hs.drop_first(), e)
    }
}

/// Executable form of [`hdr_put`] on vector entries.
pub fn hdr_put_entries(entries: Vec<(String, String)>, e: (String, String)) -> (r: Vec<
    (String, String),
>)
    ensures
        headers_model(r@) == hdr_put(headers_model(entries@), (e.0@, e.1@)),
{
    let ghost em: HeaderModel = (e.0@, e.1@);
    let e_name = chars_of(e.0.as_str());
    let mut v = entries;
    let n = v.len();
    let mut k: usize = 0;
    proof {
        assert(headers_model(v@).subrange(0, 0) =~= Seq::<HeaderModel>::empty());
        assert(headers_model(v@).skip(0) =~= headers_model(v@));
        assert(hdr_put(headers_model(v@), em) =~= headers_model(v@).subrange(0, 0) + hdr_put(
            headers_model(v@).skip(0),
            em,
        ));
    }
    while k < n
        invariant
            v@ == entries@,
            n == v@.len(),
            k <= n,
            e_name@ == em.0,
            em == (e.0@, e.1@),
            hdr_put(headers_model(v@), em) == headers_model(v@).subrange(0, k as int) + hdr_put(
                headers_model(v@).skip(k as int),
                em,
            ),
        decreases n - k,
    {
        let ghost hm = headers_model(v@);
        let ghost rest = hm.skip(k as int);
        let cur_name = chars_of(v[k].0.as_str());
        proof {
            assert(rest[0] == hm[k as int]);
            assert(rest.drop_first() =~= hm.skip(k + 1));
        }
        if chars_eq(cur_name.as_slice(), e_name.as_slice()) {
            proof {
                assert(hdr_put(rest, em) == seq![em] + rest.drop_first());
            }
            v.set(k, e);
            proof {
                assert(headers_model(v@) =~= hm.subrange(0, k as int) + (seq![em] + hm.skip(
                    k + 1,
                )));
            }
            return v;
        }
        proof {
            assert(hdr_put(rest, em) == seq![rest[0]] + hdr_put(rest.drop_first(), em));
            assert(hm.subrange(0, k as int) + (seq![hm[k as int]] + hdr_put(hm.skip(k + 1), em))
                =~= hm.subrange(0, k + 1) + hdr_put(hm.skip(k + 1), em));
        }
        k = k + 1;
    }
    proof {
        assert(headers_model(v@).skip(n as int) =~= Seq::<HeaderModel>::empty());
        assert(hdr_put(Seq::<HeaderModel>::empty(), em) == seq![em]);
    }
    let ghost hm = headers_model(v@);
    v.push(e);
    proof {
        assert(headers_model(v@) =~= hm.subrange(0, n as int) + seq![em]);
    }
    v
}

/// Executable [`hdr_insert`] on vector entries.
pub fn hdr_insert_entries(entries: Vec<(String, String)>, e: (String, String)) -> (r: Vec<
    (String, String),
>)
    ensures
        headers_model(r@) == hdr_insert(headers_model(entries@), (e.0@, e.1@)),
{
    let ghost em: HeaderModel = (e.0@, e.1@);
    let e_name = chars_of(e.0.as_str());
    let mut v = entries;
    let n = v.len();
    let mut k: usize = 0;
    proof {
        assert(headers_model(v@).subrange(0, 0) =~= Seq::<HeaderModel>::empty());
        assert(headers_model(v@).skip(0) =~= headers_model(v@));
        assert(hdr_insert(headers_model(v@), em) =~= headers_model(v@).subrange(0, 0)
            + hdr_insert(headers_model(v@).skip(0), em));
    }
    while k < n
        invariant
            v@ == entries@,
            n == v@.len(),
            k <= n,
            e_name@ == em.0,
            em == (e.0@, e.1@),
            hdr_insert(headers_model(v@), em) == headers_model(v@).subrange(0, k as int)
                + hdr_insert(headers_model(v@).skip(k as int), em),
        decreases n - k,
    {
        let ghost hm = headers_model(v@);
        let ghost rest = hm.skip(k as int);
        let cur_name = chars_of(v[k].0.as_str());
        proof {
            assert(rest[0] == hm[k as int]);
            assert(rest.drop_first() =~= hm.skip(k + 1));
        }
        if chars_eq(e_name.as_slice(), cur_name.as_slice()) {
            proof {
                assert(hdr_insert(rest, em) == seq![em] + rest.drop_first());
            }
            v.set(k, e);
            proof {
                assert(headers_model(v@) =~= hm.subrange(0, k as int) + (seq![em]
                    + hm.skip(k + 1)));
            }
            return v;
        }
        if chars_le(e_name.as_slice(), cur_name.as_slice()) {
            proof {
                assert(hdr_insert(rest, em) == seq![em] + rest);
            }
            v.insert(k, e);
            proof {
                assert(headers_model(v@) =~= hm.subrange(0, k as int) + (seq![em] + hm.skip(
                    k as int,
                )));
            }
            return v;
        }
        proof {
            assert(hdr_insert(rest, em) == seq![rest[0]] + hdr_insert(rest.drop_first(), em));
            assert(hm.subrange(0, k as int) + (seq![hm[k as int]] + hdr_insert(
                hm.skip(k + 1),
                em,
            )) =~= hm.subrange(0, k + 1) + hdr_insert(hm.skip(k + 1), em));
        }
        k = k + 1;
    }
    proof {
        assert(headers_model(v@).skip(n as int) =~= Seq::<HeaderModel>::empty());
        assert(hdr_insert(Seq::<HeaderModel>::empty(), em) == seq![em]);
    }
    let ghost hm = headers_model(v@);
    v.push(e);
    proof {
        assert(headers_model(v@) =~= hm.subrange(0, n as int) + seq![em]);
    }
    v
}

/// Executable [`canonical_headers`] on vector entries.
pub fn canonicalize_headers(h: &Vec<(String, String)>) -> (r: Vec<(String, String)>)
    ensures
        headers_model(r@) == canonical_headers(headers_model(h@)),
{
    let mut r: Vec<(String, String)> = Vec::new();
    let n = h.len();
    let mut i: usize = 0;
    proof {
        assert(headers_model(h@).subrange(0, 0) =~= Seq::<HeaderModel>::empty());
        assert(canonical_headers(headers_model(h@).subrange(0, 0)) == Seq::<HeaderModel>::empty());
        assert(headers_model(r@) =~= Seq::<HeaderModel>::empty());
    }
    while i < n
        invariant
            n == h@.len(),
            i <= n,
            headers_model(r@) == canonical_headers(headers_model(h@).subrange(0, i as int)),
        decreases n - i,
    {
        let name = h[i].0.clone();
        let value = h[i].1.clone();
        r = hdr_insert_entries(r, (name, value));
        i = i + 1;
        proof {
            let hm = headers_model(h@);
            assert(hm.subrange(0, i as int).drop_last() =~= hm.subrange(0, i - 1));
            assert(hm.subrange(0, i as int).last() == hm[i - 1]);
        }
    }
    proof {
        assert(headers_model(h@).subrange(0, n as int) =~= headers_model(h@));
    }
    r
}

} // verus!

//! The mutation pipeline: ordered, composable rewrites of request or response
//! headers and bodies, applied at fixed stages of recording and playback.

mod add_header_mutation;
mod body_replace_mutation;
mod remove_headers_mutation;

pub use add_header_mutation::AddHeaderMutation;
pub use body_replace_mutation::{BodyReplaceMutation, BodyReplaceRegexMutation};
pub use remove_headers_mutation::{
    any_regex_match, name_listed, names_model, patterns_model, remove_matching, remove_names,
    RemoveHeadersMutation, RemoveHeadersRegexMutation,
};

use vstd::prelude::*;

use crate::data::{HeaderModel, RequestData, RequestModel, ResponseData, ResponseModel};

verus! {

/// A rewrite of a text body.
pub trait BodyMutation: Sized {
    /// The transformation this mutation performs.
    spec fn spec_mutate(&self, body: Seq<char>) -> Seq<char>;

    /// Applies the mutation to `body`.
    fn mutate(&self, body: &mut String)
        ensures
            final(body)@ == self.spec_mutate(old(body)@),
    ;
}

/// A rewrite of a header map.
pub trait HeadersMutation: Sized {
    /// The transformation this mutation performs.
    spec fn spec_mutate(&self, headers: Seq<HeaderModel>) -> Seq<HeaderModel>;

    /// Applies the mutation to `headers`.
    fn mutate(&self, headers: &mut Vec<(String, String)>)
        ensures
            crate::data::headers_model(final(headers)@) == self.spec_mutate(
                crate::data::headers_model(old(headers)@),
            ),
    ;
}

/// The body rewrites the pipeline knows.
#[derive(Debug)]
pub enum BodyMutationKind {
    Replace(BodyReplaceMutation),
    ReplaceRegex(BodyReplaceRegexMutation),
}

impl BodyMutation for BodyMutationKind {
    open spec fn spec_mutate(&self, body: Seq<char>) -> Seq<char> {
        match self {
            BodyMutationKind::Replace(m) => m.spec_mutate(body),
            BodyMutationKind::ReplaceRegex(m) => m.spec_mutate(body),
        }
    }

    fn mutate(&self, body: &mut String) {
        match self {
            BodyMutationKind::Replace(m) => m.mutate(body),
            BodyMutationKind::ReplaceRegex(m) => m.mutate(body),
        }
    }
}

/// The header rewrites the pipeline knows.
#[derive(Debug)]
pub enum HeadersMutationKind {
    Add(AddHeaderMutation),
    Remove(RemoveHeadersMutation),
    RemoveRegex(RemoveHeadersRegexMutation),
}

impl HeadersMutation for HeadersMutationKind {
    open spec fn spec_mutate(&self, headers: Seq<HeaderModel>) -> Seq<HeaderModel> {
        match self {
            HeadersMutationKind::Add(m) => m.spec_mutate(headers),
            HeadersMutationKind::Remove(m) => m.spec_mutate(headers),
            HeadersMutationKind::RemoveRegex(m) => m.spec_mutate(headers),
        }
    }

    fn mutate(&self, headers: &mut Vec<(String, String)>) {
        match self {
            HeadersMutationKind::Add(m) => m.mutate(headers),
            HeadersMutationKind::Remove(m) => m.mutate(headers),
            HeadersMutationKind::RemoveRegex(m) => m.mutate(headers),
        }
    }
}

/// A mutation targets either the body or the headers of a message.
#[derive(Debug)]
pub enum MutationType {
    Body(BodyMutationKind),
    Headers(HeadersMutationKind),
}

/// What one mutation does to a request.
pub open spec fn request_transform(m: MutationType, r: RequestModel) -> RequestModel {
    match m {
        MutationType::Body(b) => RequestModel { body: b.spec_mutate(r.body), ..r },
        MutationType::Headers(h) => RequestModel { headers: h.spec_mutate(r.headers), ..r },
    }
}

/// What one mutation does to a response.
pub open spec fn response_transform(m: MutationType, r: ResponseModel) -> ResponseModel {
    match m {
        MutationType::Body(b) => ResponseModel { body: b.spec_mutate(r.body), ..r },
        MutationType::Headers(h) => ResponseModel { headers: h.spec_mutate(r.headers), ..r },
    }
}

/// One step of the request pipeline.
#[derive(Debug)]
pub struct RequestMutation {
    pub mutation_type: MutationType,
}

impl RequestMutation {
    /// Wraps a mutation for use on requests.
    pub fn from_mutation_type(mutation_type: MutationType) -> (r: Self)
        ensures
            r.mutation_type == mutation_type,
    {
        Self { mutation_type }
    }

    /// What this step does to a request.
    pub open spec fn spec_mutate(&self, r: RequestModel) -> RequestModel {
        request_transform(self.mutation_type, r)
    }

    /// Applies this step to `request_data`.
    pub fn mutate(&self, request_data: &mut RequestData)
        ensures
            final(request_data)@ == self.spec_mutate(old(request_data)@),
    {
        match &self.mutation_type {
            MutationType::Headers(hm) => {
                hm.mutate(&mut request_data.headers);
            },
            MutationType::Body(bm) => {
                bm.mutate(&mut request_data.body);
            },
        }
    }
}

/// One step of the response pipeline.
#[derive(Debug)]
pub struct ResponseMutation {
    pub mutation_type: MutationType,
}

impl ResponseMutation {
    /// Wraps a mutation for use on responses.
    pub fn from_mutation_type(mutation_type: MutationType) -> (r: Self)
        ensures
            r.mutation_type == mutation_type,
    {
        Self { mutation_type }
    }

    /// What this step does to a response.
    pub open spec fn spec_mutate(&self, r: ResponseModel) -> ResponseModel {
        response_transform(self.mutation_type, r)
    }

    /// Applies this step to `response_data`.
    pub fn mutate(&self, response_data: &mut ResponseData)
        ensures
            final(response_data)@ == self.spec_mutate(old(response_data)@),
    {
        match &self.mutation_type {
            MutationType::Headers(hm) => {
                hm.mutate(&mut response_data.headers);
            },
            MutationType::Body(bm) => {
                bm.mutate(&mut response_data.body);
            },
        }
    }
}

/// The request pipeline applied in declaration order.
pub open spec fn apply_request_mutations(muts: Seq<RequestMutation>, r: RequestModel) -> RequestModel
    decreases muts.len(),
{
    if muts.len() == 0 {
        r
    } else {
        apply_request_mutations(muts.drop_first(), muts[0].spec_mutate(r))
    }
}

/// The response pipeline applied in declaration order.
pub open spec fn apply_response_mutations(
    muts: Seq<ResponseMutation>,
    r: ResponseModel,
) -> ResponseModel
    decreases muts.len(),
{
    if muts.len() == 0 {
        r
    } else {
        apply_response_mutations(muts.drop_first(), muts[0].spec_mutate(r))
    }
}

/// Applies every request mutation, in order.
pub fn run_request_mutations(muts: &Vec<RequestMutation>, data: &mut RequestData)
    ensures
        final(data)@ == apply_request_mutations(muts@, old(data)@),
{
    let count = muts.len();
    let mut i: usize = 0;
    proof {
        assert(muts@.skip(0) =~= muts@);
    }
    while i < count
        invariant
            count == muts@.len(),
            i <= count,
            apply_request_mutations(muts@, old(data)@) == apply_request_mutations(
                muts@.skip(i as int),
                data@,
            ),
        decreases count - i,
    {
        let ghost rest = muts@.skip(i as int);
        proof {
            assert(rest[0] == muts@[i as int]);
            assert(rest.drop_first() =~= muts@.skip(i + 1));
        }
        muts[i].mutate(data);
        i = i + 1;
    }
    proof {
        assert(muts@.skip(count as int) =~= Seq::<RequestMutation>::empty());
    }
}

/// Applies every response mutation, in order.
pub fn run_response_mutations(muts: &Vec<ResponseMutation>, data: &mut ResponseData)
    ensures
        final(data)@ == apply_response_mutations(muts@, old(data)@),
{
    let count = muts.len();
    let mut i: usize = 0;
    proof {
        assert(muts@.skip(0) =~= muts@);
    }
    while i < count
        invariant
            count == muts@.len(),
            i <= count,
            apply_response_mutations(muts@, old(data)@) == apply_response_mutations(
                muts@.skip(i as int),
                data@,
            ),
        decreases count - i,
    {
        let ghost rest = muts@.skip(i as int);
        proof {
            assert(rest[0] == muts@[i as int]);
            assert(rest.drop_first() =~= muts@.skip(i + 1));
        }
        muts[i].mutate(data);
        i = i + 1;
    }
    proof {
        assert(muts@.skip(count as int) =~= Seq::<ResponseMutation>::empty());
    }
}

/// Collects mutations in order, then turns them into a request or response
/// pipeline.
pub struct MutationsBuilder {
    pub mutations: Vec<MutationType>,
}

impl MutationsBuilder {
    /// An empty builder.
    pub fn new() -> (r: Self)
        ensures
            r.mutations@.len() == 0,
    {
        Self { mutations: Vec::new() }
    }

    /// Adds a case-insensitive removal of the given header names.
    pub fn remove_headers(self, headers: Vec<String>) -> (r: Self)
        ensures
            r.mutations@.len() == self.mutations@.len() + 1,
            r.mutations@.subrange(0, self.mutations@.len() as int) == self.mutations@,
            r.mutations@.last() matches MutationType::Headers(HeadersMutationKind::Remove(m)) && {
                &&& m.headers@.len() == headers@.len()
                &&& forall|i: int| 0 <= i < headers@.len() ==> #[trigger] m.headers@[i]@
                    == crate::text::lower_seq(headers@[i]@)
            },
    {
        self.add_headers_mutation(HeadersMutationKind::Remove(RemoveHeadersMutation::new(headers)))
    }

    /// Adds a removal of every header whose name any pattern matches.
    pub fn remove_headers_regex(self, patterns: Vec<crate::pattern::RegexPattern>) -> (r: Self)
        ensures
            r.mutations@.len() == self.mutations@.len() + 1,
            r.mutations@.subrange(0, self.mutations@.len() as int) == self.mutations@,
            r.mutations@.last() matches MutationType::Headers(
                HeadersMutationKind::RemoveRegex(m),
            ) && m.patterns@ == patterns@,
    {
        self.add_headers_mutation(
            HeadersMutationKind::RemoveRegex(RemoveHeadersRegexMutation::new(patterns)),
        )
    }

    /// Adds an insert-or-overwrite of one header.
    pub fn add_header(self, header_name: String, header_value: String) -> (r: Self)
        ensures
            r.mutations@.len() == self.mutations@.len() + 1,
            r.mutations@.subrange(0, self.mutations@.len() as int) == self.mutations@,
            r.mutations@.last() matches MutationType::Headers(HeadersMutationKind::Add(m)) && {
                &&& m.header_name@ == header_name@
                &&& m.header_value@ == header_value@
            },
    {
        self.add_headers_mutation(
            HeadersMutationKind::Add(AddHeaderMutation::new(header_name, header_value)),
        )
    }

    /// Adds a literal replace-all on the body.
    pub fn body_replace(self, text: String, replacement: String) -> (r: Self)
        ensures
            r.mutations@.len() == self.mutations@.len() + 1,
            r.mutations@.subrange(0, self.mutations@.len() as int) == self.mutations@,
            r.mutations@.last() matches MutationType::Body(BodyMutationKind::Replace(m)) && {
                &&& m.text@ == text@
                &&& m.substitution@ == replacement@
            },
    {
        self.add_body_mutation(BodyMutationKind::Replace(BodyReplaceMutation::new(
            text,
            replacement,
        )))
    }

    /// Adds a regular-expression replace-all on the body.
    pub fn body_replace_regex(
        self,
        pattern: crate::pattern::RegexPattern,
        replacement: String,
    ) -> (r: Self)
        ensures
            r.mutations@.len() == self.mutations@.len() + 1,
            r.mutations@.subrange(0, self.mutations@.len() as int) == self.mutations@,
            r.mutations@.last() matches MutationType::Body(BodyMutationKind::ReplaceRegex(m)) && {
                &&& m.pattern == pattern
                &&& m.substitution@ == replacement@
            },
    {
        self.add_body_mutation(
            BodyMutationKind::ReplaceRegex(BodyReplaceRegexMutation::new(pattern, replacement)),
        )
    }

    /// Adds any header mutation.
    pub fn add_headers_mutation(self, mutation: HeadersMutationKind) -> (r: Self)
        ensures
            r.mutations@ == self.mutations@.push(MutationType::Headers(mutation)),
    {
        let mut mutations = self.mutations;
        mutations.push(MutationType::Headers(mutation));
        Self { mutations }
    }

    /// Adds any body mutation.
    pub fn add_body_mutation(self, mutation: BodyMutationKind) -> (r: Self)
        ensures
            r.mutations@ == self.mutations@.push(MutationType::Body(mutation)),
    {
        let mut mutations = self.mutations;
        mutations.push(MutationType::Body(mutation));
        Self { mutations }
    }

    /// The collected mutations as a response pipeline, in order.
    pub fn into_response_mutations(self) -> (r: Vec<ResponseMutation>)
        ensures
            r@.len() == self.mutations@.len(),
            forall|i: int| 0 <= i < r@.len() ==> #[trigger] r@[i].mutation_type
                == self.mutations@[i],
    {
        let ghost orig = self.mutations@;
        let mut mutations = self.mutations;
        let mut out: Vec<ResponseMutation> = Vec::new();
        while mutations.len() > 0
            invariant
                out@.len() + mutations@.len() == orig.len(),
                mutations@ == orig.skip(out@.len() as int),
                forall|i: int| 0 <= i < out@.len() ==> #[trigger] out@[i].mutation_type == orig[i],
            decreases mutations@.len(),
        {
            let m = mutations.remove(0);
            proof {
                assert(orig.skip(out@.len() as int)[0] == orig[out@.len() as int]);
            }
            out.push(ResponseMutation::from_mutation_type(m));
            proof {
                assert(mutations@ =~= orig.skip(out@.len() as int));
            }
        }
        out
    }

    /// The collected mutations as a request pipeline, in order.
    pub fn into_request_mutations(self) -> (r: Vec<RequestMutation>)
        ensures
            r@.len() == self.mutations@.len(),
            forall|i: int| 0 <= i < r@.len() ==> #[trigger] r@[i].mutation_type
                == self.mutations@[i],
    {
        let ghost orig = self.mutations@;
        let mut mutations = self.mutations;
        let mut out: Vec<RequestMutation> = Vec::new();
        while mutations.len() > 0
            invariant
                out@.len() + mutations@.len() == orig.len(),
                mutations@ == orig.skip(out@.len() as int),
                forall|i: int| 0 <= i < out@.len() ==> #[trigger] out@[i].mutation_type == orig[i],
            decreases mutations@.len(),
        {
            let m = mutations.remove(0);
            proof {
                assert(orig.skip(out@.len() as int)[0] == orig[out@.len() as int]);
            }
            out.push(RequestMutation::from_mutation_type(m));
            proof {
                assert(mutations@ =~= orig.skip(out@.len() as int));
            }
        }
        out
    }
}

} // verus!

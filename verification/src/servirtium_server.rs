//! The interception engine: the per-test session state and the Record and
//! Playback steps a request handler drives it through. The listener itself and
//! every network call live with the embedding program; the engine receives and
//! returns plain request and response values.

use vstd::prelude::*;

use crate::data::{
    hdr_put, hdr_put_entries, headers_model, interactions_model, HeaderModel, InteractionData,
    InteractionModel, RequestData, RequestModel, ResponseData, ResponseModel,
};
use crate::error::Error;
use crate::markdown::MarkdownInteractionManager;
use crate::mutations::{apply_request_mutations, apply_response_mutations};
use crate::servirtium_configuration::ServirtiumConfiguration;
use crate::text::{find_from, find_pattern, lemma_find_spec, lower_seq};

verus! {

/// The two ways the engine can answer a request from the test under test.
#[derive(Debug, Copy, Clone, Eq, PartialEq, Structural)]
pub enum ServirtiumMode {
    /// Serve responses recorded earlier in the conversation file.
    Playback,
    /// Forward to the upstream origin and capture the exchange.
    Record,
}

/// `c` may appear in a URI authority: anything before a path, query or
/// fragment delimiter.
pub open spec fn is_authority_char(c: char) -> bool {
    c != '/' && c != '?' && c != '#'
}

/// The first position at or after `i` that ends an authority.
pub open spec fn scan_authority(t: Seq<char>, i: int) -> int
    decreases t.len() - i,
{
    if 0 <= i < t.len() && is_authority_char(t[i]) {
        scan_authority(t, i + 1)
    } else {
        i
    }
}

/// What an authority scan yields.
pub proof fn lemma_scan_authority(t: Seq<char>, i: int)
    requires
        0 <= i <= t.len(),
    ensures
        i <= scan_authority(t, i) <= t.len(),
    decreases t.len() - i,
{
    if i < t.len() && is_authority_char(t[i]) {
        lemma_scan_authority(t, i + 1);
    }
}

/// The host of a URI-shaped string: the text after any `scheme://`, up to the
/// path, with any `user@` prefix and any `:port` suffix removed. A bracketed
/// IPv6 literal keeps its brackets. `None` when that leaves nothing.
pub open spec fn uri_host(s: Seq<char>) -> Option<Seq<char>> {
    let rest = match find_from(s, "://"@, 0) {
        Some(i) => s.skip(i + 3),
        None => s,
    };
    let authority = rest.subrange(0, scan_authority(rest, 0));
    let after_user = match find_from(authority, "@"@, 0) {
        Some(i) => authority.skip(i + 1),
        None => authority,
    };
    let host = if after_user.len() > 0 && after_user[0] == '[' {
        match find_from(after_user, "]"@, 0) {
            Some(i) => after_user.subrange(0, i + 1),
            None => after_user,
        }
    } else {
        match find_from(after_user, ":"@, 0) {
            Some(i) => after_user.subrange(0, i),
            None => after_user,
        }
    };
    if host.len() == 0 {
        None
    } else {
        Some(host)
    }
}

/// Executable form of [`uri_host`].
pub fn extract_uri_host(s: &str) -> (r: Option<String>)
    ensures
        match r {
            Some(h) => uri_host(s@) == Some(h@),
            None => uri_host(s@) is None,
        },
{
    proof {
        reveal_strlit("://");
    }
    let chars = crate::text::chars_of(s);
    let n = chars.len();
    let scheme_sep = crate::text::chars_of("://");
    let rest_start: usize = match find_pattern(chars.as_slice(), scheme_sep.as_slice(), 0) {
        Some(i) => {
            proof {
                lemma_find_spec(chars@, "://"@, 0);
                assert(i + 3 <= n);
            }
            i + 3
        },
        None => 0,
    };
    let mut rest: Vec<char> = Vec::new();
    crate::text::push_range(&mut rest, chars.as_slice(), rest_start, n);
    proof {
        assert(s@.skip(0) =~= s@);
        assert(rest@ =~= s@.skip(rest_start as int));
        assert(rest@ == match find_from(s@, "://"@, 0) {
            Some(i) => s@.skip(i + 3),
            None => s@,
        });
    }
    let rn = rest.len();
    let mut ae: usize = 0;
    while ae < rn && rest[ae] != '/' && rest[ae] != '?' && rest[ae] != '#'
        invariant
            ae <= rn,
            rn == rest@.len(),
            scan_authority(rest@, 0) == scan_authority(rest@, ae as int),
        decreases rn - ae,
    {
        ae = ae + 1;
    }
    let mut authority: Vec<char> = Vec::new();
    crate::text::push_range(&mut authority, rest.as_slice(), 0, ae);
    proof {
        assert(authority@ =~= rest@.subrange(0, scan_authority(rest@, 0)));
    }
    proof {
        reveal_strlit("@");
    }
    let at_sign = crate::text::chars_of("@");
    let an = authority.len();
    let after_user: Vec<char> = match find_pattern(authority.as_slice(), at_sign.as_slice(), 0) {
        Some(i) => {
            proof {
                lemma_find_spec(authority@, "@"@, 0);
                assert(i + 1 <= an);
            }
            let mut au: Vec<char> = Vec::new();
            crate::text::push_range(&mut au, authority.as_slice(), i + 1, an);
            proof {
                assert(au@ =~= authority@.skip(i + 1));
            }
            au
        },
        None => authority,
    };
    let un = after_user.len();
    let host: Vec<char> = if un > 0 && after_user[0] == '[' {
        proof {
            reveal_strlit("]");
        }
        let bracket = crate::text::chars_of("]");
        match find_pattern(after_user.as_slice(), bracket.as_slice(), 0) {
            Some(i) => {
                proof {
                    lemma_find_spec(after_user@, "]"@, 0);
                    assert(i + 1 <= un);
                }
                let mut h: Vec<char> = Vec::new();
                crate::text::push_range(&mut h, after_user.as_slice(), 0, i + 1);
                h
            },
            None => after_user,
        }
    } else {
        proof {
            reveal_strlit(":");
        }
        let colon = crate::text::chars_of(":");
        match find_pattern(after_user.as_slice(), colon.as_slice(), 0) {
            Some(i) => {
                proof {
                    lemma_find_spec(after_user@, ":"@, 0);
                }
                let mut h: Vec<char> = Vec::new();
                crate::text::push_range(&mut h, after_user.as_slice(), 0, i);
                h
            },
            None => after_user,
        }
    };
    if host.len() == 0 {
        None
    } else {
        Some(crate::text::string_of(host.as_slice()))
    }
}

/// Header entries without `Transfer-Encoding: chunked`, which must not reach
/// the local HTTP stack when the whole body is written at once.
pub open spec fn filter_chunked(hs: Seq<HeaderModel>) -> Seq<HeaderModel>
    decreases hs.len(),
{
    if hs.len() == 0 {
        Seq::empty()
    } else if lower_seq(hs[0].0) == "transfer-encoding"@ && hs[0].1 == "chunked"@ {
        filter_chunked(hs.drop_first())
    } else {
        seq![hs[0]] + filter_chunked(hs.drop_first())
    }
}

/// Executable form of [`filter_chunked`].
pub fn filter_headers(headers: &Vec<(String, String)>) -> (r: Vec<(String, String)>)
    ensures
        headers_model(r@) == filter_chunked(headers_model(headers@)),
{
    proof {
        reveal_strlit("transfer-encoding");
        reveal_strlit("chunked");
    }
    let ghost hm = headers_model(headers@);
    let te = crate::text::chars_of("transfer-encoding");
    let chunked = crate::text::chars_of("chunked");
    let mut kept: Vec<(String, String)> = Vec::new();
    let count = headers.len();
    let mut i: usize = 0;
    proof {
        assert(hm.skip(0) =~= hm);
        assert(headers_model(kept@) =~= Seq::<HeaderModel>::empty());
    }
    while i < count
        invariant
            count == headers@.len(),
            hm == headers_model(headers@),
            te@ == "transfer-encoding"@,
            chunked@ == "chunked"@,
            i <= count,
            filter_chunked(hm) == headers_model(kept@) + filter_chunked(hm.skip(i as int)),
        decreases count - i,
    {
        let ghost rest = hm.skip(i as int);
        proof {
            assert(rest[0] == hm[i as int]);
            assert(rest.drop_first() =~= hm.skip(i + 1));
        }
        let name_lower = crate::text::lowercase_string(headers[i].0.as_str());
        let name_chars = crate::text::chars_of(name_lower.as_str());
        let value_chars = crate::text::chars_of(headers[i].1.as_str());
        let is_chunked_te = crate::text::chars_eq(name_chars.as_slice(), te.as_slice())
            && crate::text::chars_eq(value_chars.as_slice(), chunked.as_slice());
        let ghost kept0 = headers_model(kept@);
        if !is_chunked_te {
            let entry = (headers[i].0.clone(), headers[i].1.clone());
            kept.push(entry);
            proof {
                assert(headers_model(kept@) =~= kept0 + seq![hm[i as int]]);
                assert(kept0 + (seq![hm[i as int]] + filter_chunked(hm.skip(i + 1)))
                    =~= headers_model(kept@) + filter_chunked(hm.skip(i + 1)));
            }
        }
        i = i + 1;
    }
    proof {
        assert(hm.skip(count as int) =~= Seq::<HeaderModel>::empty());
        assert(headers_model(kept@) =~= filter_chunked(hm));
    }
    kept
}

/// The response the test sees when interaction `i` is played back under
/// configuration `cfg`: the recorded response through the playback-response
/// pipeline, with `Transfer-Encoding: chunked` filtered out.
pub open spec fn played_response(cfg: ServirtiumConfiguration, i: InteractionModel) -> ResponseModel {
    let m = apply_response_mutations(cfg.playback_response_mutations@, i.response_data);
    ResponseModel { headers: filter_chunked(m.headers), ..m }
}

/// The request Record mode must send upstream: the inbound request with its
/// `host` header set to the upstream's host, run through the record-request
/// pipeline.
pub open spec fn prepared_request(cfg: ServirtiumConfiguration, r: RequestModel) -> RequestModel {
    apply_request_mutations(
        cfg.record_request_mutations@,
        RequestModel {
            headers: hdr_put(
                r.headers,
                ("host"@, uri_host(cfg.domain_name->Some_0@)->Some_0),
            ),
            ..r
        },
    )
}

/// The response stored for an upstream reply `r`: the reply through the
/// record-response pipeline.
pub open spec fn recorded_response(cfg: ServirtiumConfiguration, r: ResponseModel) -> ResponseModel {
    apply_response_mutations(cfg.record_response_mutations@, r)
}

/// The per-test session state: the installed configuration, the interactions
/// captured so far in Record, the conversation loaded for Playback, the
/// ordinal of the next interaction, and the latched error.
#[derive(Debug)]
pub struct ServirtiumServer {
    configuration: Option<ServirtiumConfiguration>,
    interactions: Vec<InteractionData>,
    markdown_data: Option<Vec<InteractionData>>,
    interaction_number: u8,
    error: Option<Error>,
}

impl ServirtiumServer {
    /// The installed configuration.
    pub closed spec fn spec_config(&self) -> Option<ServirtiumConfiguration> {
        self.configuration
    }

    /// The interactions captured so far.
    pub closed spec fn captured(&self) -> Seq<InteractionModel> {
        interactions_model(self.interactions@)
    }

    /// The conversation loaded for playback, if any.
    pub closed spec fn loaded(&self) -> Option<Seq<InteractionModel>> {
        match self.markdown_data {
            Some(v) => Some(interactions_model(v@)),
            None => None,
        }
    }

    /// The ordinal of the next interaction: how many have completed.
    pub closed spec fn ordinal(&self) -> u8 {
        self.interaction_number
    }

    /// The latched error, if any.
    pub closed spec fn latched(&self) -> Option<Error> {
        self.error
    }

    /// The state is clean: nothing captured, nothing loaded, ordinal zero, no
    /// error.
    pub open spec fn is_clean(&self) -> bool {
        &&& self.captured().len() == 0
        &&& self.loaded() is None
        &&& self.ordinal() == 0
        &&& self.latched() is None
    }

    /// A fresh engine with no configuration and clean state.
    pub fn new() -> (r: Self)
        ensures
            r.spec_config() is None,
            r.is_clean(),
    {
        ServirtiumServer {
            configuration: None,
            interactions: Vec::new(),
            markdown_data: None,
            interaction_number: 0,
            error: None,
        }
    }

    /// Installs the configuration of a starting test and clears all session
    /// state left from an earlier one.
    pub fn install_configuration(&mut self, configuration: ServirtiumConfiguration)
        ensures
            final(self).spec_config() == Some(configuration),
            final(self).is_clean(),
    {
        self.configuration = Some(configuration);
        self.interactions = Vec::new();
        self.markdown_data = None;
        self.interaction_number = 0;
        self.error = None;
        proof {
            assert(final(self).captured() =~= Seq::<InteractionModel>::empty());
        }
    }

    /// Clears the configuration and all session state.
    pub fn reset(&mut self)
        ensures
            final(self).spec_config() is None,
            final(self).is_clean(),
    {
        self.configuration = None;
        self.interactions = Vec::new();
        self.markdown_data = None;
        self.interaction_number = 0;
        self.error = None;
        proof {
            assert(final(self).captured() =~= Seq::<InteractionModel>::empty());
        }
    }

    /// Latches `e` as the session error; an earlier latched error is kept.
    pub fn set_error(&mut self, e: Error)
        ensures
            old(self).latched() is None ==> final(self).latched() == Some(e),
            old(self).latched() is Some ==> final(self).latched() == old(self).latched(),
            final(self).spec_config() == old(self).spec_config(),
            final(self).captured() == old(self).captured(),
            final(self).loaded() == old(self).loaded(),
            final(self).ordinal() == old(self).ordinal(),
    {
        if self.error.is_none() {
            self.error = Some(e);
        }
    }

    /// Takes the latched error, leaving the slot empty.
    pub fn take_error(&mut self) -> (r: Option<Error>)
        ensures
            r == old(self).latched(),
            final(self).latched() is None,
            final(self).spec_config() == old(self).spec_config(),
            final(self).captured() == old(self).captured(),
            final(self).loaded() == old(self).loaded(),
            final(self).ordinal() == old(self).ordinal(),
    {
        self.error.take()
    }

    /// Whether playback still needs the conversation to be loaded.
    pub fn needs_markdown_data(&self) -> (r: bool)
        ensures
            r == (self.loaded() is None),
    {
        self.markdown_data.is_none()
    }

    /// Hands playback its loaded conversation.
    pub fn install_markdown_data(&mut self, data: Vec<InteractionData>)
        ensures
            final(self).loaded() == Some(interactions_model(data@)),
            final(self).spec_config() == old(self).spec_config(),
            final(self).captured() == old(self).captured(),
            final(self).ordinal() == old(self).ordinal(),
            final(self).latched() == old(self).latched(),
    {
        self.markdown_data = Some(data);
    }

    /// The interactions captured so far, for persistence.
    pub fn interactions(&self) -> (r: &Vec<InteractionData>)
        ensures
            interactions_model(r@) == self.captured(),
    {
        &self.interactions
    }

    /// The installed configuration, if a test is active.
    pub fn configuration(&self) -> (r: Option<&ServirtiumConfiguration>)
        ensures
            match r {
                Some(c) => self.spec_config() == Some(*c),
                None => self.spec_config() is None,
            },
    {
        self.configuration.as_ref()
    }

    /// The ordinal of the next interaction.
    pub fn interaction_number(&self) -> (r: u8)
        ensures
            r == self.ordinal(),
    {
        self.interaction_number
    }

    /// One Playback step: serves the recorded response at the current ordinal,
    /// through the playback-response pipeline and the chunked-header filter,
    /// and counts the interaction as completed. Fails when no configuration is
    /// installed, when nothing is loaded, when the conversation is exhausted,
    /// or when the ordinal cannot count one more interaction.
    pub fn handle_playback(&mut self) -> (r: Result<ResponseData, Error>)
        ensures
            r is Ok <==> (old(self).spec_config() is Some && old(self).loaded() is Some && (old(
                self,
            ).ordinal() as int) < old(self).loaded()->Some_0.len() && old(self).ordinal() < 255),
            ({
                let cfg = old(self).spec_config();
                let loaded = old(self).loaded();
                match r {
                    Ok(resp) => {
                        &&& cfg is Some
                        &&& loaded is Some
                        &&& (old(self).ordinal() as int) < loaded->Some_0.len()
                        &&& old(self).ordinal() < 255
                        &&& resp@ == played_response(
                            cfg->Some_0,
                            loaded->Some_0[old(self).ordinal() as int],
                        )
                        &&& final(self).ordinal() == old(self).ordinal() + 1
                        &&& final(self).spec_config() == cfg
                        &&& final(self).captured() == old(self).captured()
                        &&& final(self).loaded() == loaded
                        &&& final(self).latched() == old(self).latched()
                    },
                    Err(e) => {
                        &&& *final(self) == *old(self)
                        &&& (cfg is None <==> e == Error::NotConfigured)
                        &&& (cfg is Some && loaded is None <==> e == Error::NotLoaded)
                        &&& (cfg is Some && loaded is Some && (old(self).ordinal() as int)
                            >= loaded->Some_0.len() <==> e == Error::PlaybackOverflow)
                        &&& (cfg is Some && loaded is Some && (old(self).ordinal() as int)
                            < loaded->Some_0.len() && old(self).ordinal() == 255 <==> e
                            == Error::OrdinalOverflow)
                    },
                }
            }),
    {
        if self.configuration.is_none() {
            return Err(Error::NotConfigured);
        }
        if self.markdown_data.is_none() {
            return Err(Error::NotLoaded);
        }
        let idx = self.interaction_number as usize;
        let loaded_len = match &self.markdown_data {
            Some(v) => v.len(),
            None => 0,
        };
        if idx >= loaded_len {
            return Err(Error::PlaybackOverflow);
        }
        if self.interaction_number == 255 {
            return Err(Error::OrdinalOverflow);
        }
        let mut response = match &self.markdown_data {
            Some(v) => v[idx].response_data.duplicate(),
            None => {
                proof {
                    assert(false);
                }
                ResponseData { status_code: 0, headers: Vec::new(), body: String::new() }
            },
        };
        match &self.configuration {
            Some(cfg) => {
                crate::mutations::run_response_mutations(
                    &cfg.playback_response_mutations,
                    &mut response,
                );
            },
            None => {
                proof {
                    assert(false);
                }
            },
        }
        let filtered = filter_headers(&response.headers);
        let result = ResponseData {
            status_code: response.status_code,
            headers: filtered,
            body: response.body,
        };
        self.interaction_number = self.interaction_number + 1;
        Ok(result)
    }

    /// The Record-mode step before the upstream call: fixes the request that
    /// must be forwarded, with the `host` header set from the upstream domain
    /// and the record-request pipeline applied. Fails when no configuration,
    /// no upstream domain, or no host within it.
    pub fn handle_record_prepare(&self, request: RequestData) -> (r: Result<RequestData, Error>)
        ensures
            r is Ok <==> (self.spec_config() is Some && self.spec_config()->Some_0.domain_name
                is Some && uri_host(self.spec_config()->Some_0.domain_name->Some_0@) is Some),
            ({
                let cfg = self.spec_config();
                match r {
                    Ok(prepared) => {
                        &&& cfg is Some
                        &&& cfg->Some_0.domain_name is Some
                        &&& uri_host(cfg->Some_0.domain_name->Some_0@) is Some
                        &&& prepared@ == prepared_request(cfg->Some_0, request@)
                    },
                    Err(e) => {
                        &&& (cfg is None || cfg->Some_0.domain_name is None <==> e
                            == Error::NotConfigured)
                        &&& (cfg is Some && cfg->Some_0.domain_name is Some && uri_host(
                            cfg->Some_0.domain_name->Some_0@,
                        ) is None <==> e == Error::InvalidDomainName)
                    },
                }
            }),
    {
        let cfg = match &self.configuration {
            Some(c) => c,
            None => {
                return Err(Error::NotConfigured);
            },
        };
        let domain = match &cfg.domain_name {
            Some(d) => d,
            None => {
                return Err(Error::NotConfigured);
            },
        };
        let host = match extract_uri_host(domain.as_str()) {
            Some(h) => h,
            None => {
                return Err(Error::InvalidDomainName);
            },
        };
        let mut prepared = request;
        let mut taken: Vec<(String, String)> = Vec::new();
        core::mem::swap(&mut prepared.headers, &mut taken);
        let host_header = (crate::text::string_of(crate::text::chars_of("host").as_slice()), host);
        proof {
            reveal_strlit("host");
        }
        let put = hdr_put_entries(taken, host_header);
        prepared.headers = put;
        crate::mutations::run_request_mutations(&cfg.record_request_mutations, &mut prepared);
        Ok(prepared)
    }

    /// The Record-mode step after the upstream call: stores the reply through
    /// the record-response pipeline as the interaction at the current ordinal,
    /// counts the interaction as completed, and returns the stored response
    /// through the playback-response pipeline and the chunked-header filter.
    pub fn handle_record_complete(
        &mut self,
        request: RequestData,
        response: ResponseData,
    ) -> (r: Result<ResponseData, Error>)
        ensures
            r is Ok <==> (old(self).spec_config() is Some && old(self).ordinal() < 255),
            ({
                let cfg = old(self).spec_config();
                match r {
                    Ok(resp) => {
                        &&& cfg is Some
                        &&& old(self).ordinal() < 255
                        &&& ({
                            let stored = recorded_response(cfg->Some_0, response@);
                            let interaction = InteractionModel {
                                interaction_number: old(self).ordinal(),
                                request_data: request@,
                                response_data: stored,
                            };
                            &&& final(self).captured() == old(self).captured().push(interaction)
                            &&& resp@ == played_response(cfg->Some_0, interaction)
                        })
                        &&& final(self).ordinal() == old(self).ordinal() + 1
                        &&& final(self).spec_config() == cfg
                        &&& final(self).loaded() == old(self).loaded()
                        &&& final(self).latched() == old(self).latched()
                    },
                    Err(e) => {
                        &&& *final(self) == *old(self)
                        &&& (cfg is None <==> e == Error::NotConfigured)
                        &&& (cfg is Some && old(self).ordinal() == 255 <==> e
                            == Error::OrdinalOverflow)
                    },
                }
            }),
    {
        if self.configuration.is_none() {
            return Err(Error::NotConfigured);
        }
        if self.interaction_number == 255 {
            return Err(Error::OrdinalOverflow);
        }
        let mut stored = response;
        match &self.configuration {
            Some(cfg) => {
                crate::mutations::run_response_mutations(
                    &cfg.record_response_mutations,
                    &mut stored,
                );
            },
            None => {
                proof {
                    assert(false);
                }
            },
        }
        let returned_base = stored.duplicate();
        let interaction = InteractionData {
            interaction_number: self.interaction_number,
            request_data: request,
            response_data: stored,
        };
        let ghost captured0 = self.captured();
        self.interactions.push(interaction);
        proof {
            assert(self.captured() =~= captured0.push(
                self.interactions@[self.interactions@.len() - 1]@,
            ));
        }
        let mut returned = returned_base;
        match &self.configuration {
            Some(cfg) => {
                crate::mutations::run_response_mutations(
                    &cfg.playback_response_mutations,
                    &mut returned,
                );
            },
            None => {
                proof {
                    assert(false);
                }
            },
        }
        let filtered = filter_headers(&returned.headers);
        let result = ResponseData {
            status_code: returned.status_code,
            headers: filtered,
            body: returned.body,
        };
        self.interaction_number = self.interaction_number + 1;
        Ok(result)
    }
}

/// The ordinals of a captured conversation are exactly `0..len`: the list a
/// test records carries strictly ascending ordinals starting at zero.
///
/// Each completed Record interaction is captured with the engine's current
/// ordinal ([`ServirtiumServer::handle_record_complete`]), which counts the
/// interactions completed so far; this law says that stepping once more keeps
/// the captured ordinals dense.
pub proof fn lemma_captured_ordinals_dense(
    captured: Seq<InteractionModel>,
    ordinal: u8,
    interaction: InteractionModel,
)
    requires
        ordinal as int == captured.len(),
        forall|k: int|
            0 <= k < captured.len() ==> (#[trigger] captured[k]).interaction_number as int == k,
        interaction.interaction_number == ordinal,
    ensures
        captured.push(interaction).len() == ordinal + 1,
        forall|k: int|
            0 <= k < captured.push(interaction).len() ==> (#[trigger] captured.push(
                interaction,
            )[k]).interaction_number as int == k,
{
    assert forall|k: int| 0 <= k < captured.push(interaction).len() implies (
    #[trigger] captured.push(interaction)[k]).interaction_number as int == k by {
        if k < captured.len() {
            assert(captured.push(interaction)[k] == captured[k]);
        }
    }
}

/// A configuration for one test: the given mode, the Markdown store at
/// `script_path`, and the given upstream domain.
pub fn prepare_for_test(
    mode: ServirtiumMode,
    script_path: String,
    domain_name: String,
) -> (r: ServirtiumConfiguration)
    ensures
        r.interaction_mode == mode,
        r.interaction_manager.spec_path() == script_path@,
        r.domain_name is Some && r.domain_name->Some_0@ == domain_name@,
        r.fail_if_markdown_changed == false,
        r.record_request_mutations@.len() == 0,
        r.record_response_mutations@.len() == 0,
        r.playback_response_mutations@.len() == 0,
{
    let manager = MarkdownInteractionManager::new(script_path);
    let mut configuration = ServirtiumConfiguration::new(mode, manager);
    configuration.set_domain_name(domain_name);
    configuration
}

} // verus!

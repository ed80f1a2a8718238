//! The per-test configuration: mode, upstream domain, store handle, mutation
//! pipelines and the diff-guard flag. Immutable once a test has begun.

use vstd::prelude::*;

use crate::markdown::MarkdownInteractionManager;
use crate::mutations::{MutationsBuilder, RequestMutation, ResponseMutation};
use crate::ServirtiumMode;

verus! {

/// Everything one test binds to the engine.
#[derive(Debug)]
pub struct ServirtiumConfiguration {
    pub domain_name: Option<String>,
    pub interaction_mode: ServirtiumMode,
    pub fail_if_markdown_changed: bool,
    pub interaction_manager: MarkdownInteractionManager,
    pub record_request_mutations: Vec<RequestMutation>,
    pub record_response_mutations: Vec<ResponseMutation>,
    pub playback_response_mutations: Vec<ResponseMutation>,
}

impl ServirtiumConfiguration {
    /// A configuration with the given mode and store, everything else at its
    /// default: no upstream, no mutations, the diff guard off.
    pub fn new(mode: ServirtiumMode, interaction_manager: MarkdownInteractionManager) -> (r: Self)
        ensures
            r.interaction_mode == mode,
            r.domain_name is None,
            r.fail_if_markdown_changed == false,
            r.interaction_manager == interaction_manager,
            r.record_request_mutations@.len() == 0,
            r.record_response_mutations@.len() == 0,
            r.playback_response_mutations@.len() == 0,
    {
        Self {
            interaction_mode: mode,
            domain_name: None,
            fail_if_markdown_changed: false,
            interaction_manager,
            record_request_mutations: Vec::new(),
            record_response_mutations: Vec::new(),
            playback_response_mutations: Vec::new(),
        }
    }

    /// Turns the end-of-test diff guard on or off.
    pub fn set_fail_if_markdown_changed(&mut self, value: bool)
        ensures
            *final(self) == (ServirtiumConfiguration { fail_if_markdown_changed: value, ..*old(self) }),
    {
        self.fail_if_markdown_changed = value;
    }

    /// Whether the end-of-test diff guard is on.
    pub fn fail_if_markdown_changed(&self) -> (r: bool)
        ensures
            r == self.fail_if_markdown_changed,
    {
        self.fail_if_markdown_changed
    }

    /// Sets the upstream domain Record mode forwards to.
    pub fn set_domain_name(&mut self, domain_name: String)
        ensures
            *final(self) == (ServirtiumConfiguration {
                domain_name: Some(domain_name),
                ..*old(self)
            }),
    {
        self.domain_name = Some(domain_name);
    }

    /// The upstream domain, if one was set.
    pub fn domain_name(&self) -> (r: Option<&String>)
        ensures
            match r {
                Some(d) => self.domain_name is Some && d@ == self.domain_name->Some_0@,
                None => self.domain_name is None,
            },
    {
        self.domain_name.as_ref()
    }

    /// The configured mode.
    pub fn interaction_mode(&self) -> (r: ServirtiumMode)
        ensures
            r == self.interaction_mode,
    {
        self.interaction_mode
    }

    /// The conversation store this test reads and writes.
    pub fn interaction_manager(&self) -> (r: &MarkdownInteractionManager)
        ensures
            r == self.interaction_manager,
    {
        &self.interaction_manager
    }

    /// Appends the builder's mutations to the record-request pipeline.
    pub fn add_record_request_mutations(&mut self, builder: MutationsBuilder)
        ensures
            ({
                let before = old(self).record_request_mutations@;
                let after = final(self).record_request_mutations@;
                &&& after.len() == before.len() + builder.mutations@.len()
                &&& after.subrange(0, before.len() as int) == before
                &&& (forall|i: int|
                    0 <= i < builder.mutations@.len() ==> (#[trigger] after[before.len()
                        + i]).mutation_type == builder.mutations@[i])
            }),
            final(self).domain_name == old(self).domain_name,
            final(self).interaction_mode == old(self).interaction_mode,
            final(self).fail_if_markdown_changed == old(self).fail_if_markdown_changed,
            final(self).interaction_manager == old(self).interaction_manager,
            final(self).record_response_mutations == old(self).record_response_mutations,
            final(self).playback_response_mutations == old(self).playback_response_mutations,
    {
        let mut extra = builder.into_request_mutations();
        let ghost before = self.record_request_mutations@;
        self.record_request_mutations.append(&mut extra);
        proof {
            assert(self.record_request_mutations@.subrange(0, before.len() as int) =~= before);
        }
    }

    /// Appends the builder's mutations to the record-response pipeline.
    pub fn add_record_response_mutations(&mut self, builder: MutationsBuilder)
        ensures
            ({
                let before = old(self).record_response_mutations@;
                let after = final(self).record_response_mutations@;
                &&& after.len() == before.len() + builder.mutations@.len()
                &&& after.subrange(0, before.len() as int) == before
                &&& (forall|i: int|
                    0 <= i < builder.mutations@.len() ==> (#[trigger] after[before.len()
                        + i]).mutation_type == builder.mutations@[i])
            }),
            final(self).domain_name == old(self).domain_name,
            final(self).interaction_mode == old(self).interaction_mode,
            final(self).fail_if_markdown_changed == old(self).fail_if_markdown_changed,
            final(self).interaction_manager == old(self).interaction_manager,
            final(self).record_request_mutations == old(self).record_request_mutations,
            final(self).playback_response_mutations == old(self).playback_response_mutations,
    {
        let mut extra = builder.into_response_mutations();
        let ghost before = self.record_response_mutations@;
        self.record_response_mutations.append(&mut extra);
        proof {
            assert(self.record_response_mutations@.subrange(0, before.len() as int) =~= before);
        }
    }

    /// Appends the builder's mutations to the playback-response pipeline.
    pub fn add_playback_response_mutations(&mut self, builder: MutationsBuilder)
        ensures
            ({
                let before = old(self).playback_response_mutations@;
                let after = final(self).playback_response_mutations@;
                &&& after.len() == before.len() + builder.mutations@.len()
                &&& after.subrange(0, before.len() as int) == before
                &&& (forall|i: int|
                    0 <= i < builder.mutations@.len() ==> (#[trigger] after[before.len()
                        + i]).mutation_type == builder.mutations@[i])
            }),
            final(self).domain_name == old(self).domain_name,
            final(self).interaction_mode == old(self).interaction_mode,
            final(self).fail_if_markdown_changed == old(self).fail_if_markdown_changed,
            final(self).interaction_manager == old(self).interaction_manager,
            final(self).record_request_mutations == old(self).record_request_mutations,
            final(self).record_response_mutations == old(self).record_response_mutations,
    {
        let mut extra = builder.into_response_mutations();
        let ghost before = self.playback_response_mutations@;
        self.playback_response_mutations.append(&mut extra);
        proof {
            assert(self.playback_response_mutations@.subrange(0, before.len() as int) =~= before);
        }
    }

    /// The record-request pipeline.
    pub fn record_request_mutations(&self) -> (r: &Vec<RequestMutation>)
        ensures
            r == self.record_request_mutations,
    {
        &self.record_request_mutations
    }

    /// The record-response pipeline.
    pub fn record_response_mutations(&self) -> (r: &Vec<ResponseMutation>)
        ensures
            r == self.record_response_mutations,
    {
        &self.record_response_mutations
    }

    /// The playback-response pipeline.
    pub fn playback_response_mutations(&self) -> (r: &Vec<ResponseMutation>)
        ensures
            r == self.playback_response_mutations,
    {
        &self.playback_response_mutations
    }
}

} // verus!

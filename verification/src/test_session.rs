//! The end-of-test decision: which step follows when a test finishes. The
//! gate that serialises tests, and the reading and writing of conversation
//! documents, live with the embedding program.

use vstd::prelude::*;

use crate::error::Error;
use crate::ServirtiumMode;

verus! {

/// What must happen when a test ends.
#[derive(Debug)]
pub enum AfterTestPlan {
    /// A request handler latched this error: surface it, persist nothing.
    ReportError(Error),
    /// Record with the diff guard on: compare the captured interactions with
    /// the on-disk conversation; save them only when nothing changed.
    CompareThenSave,
    /// Record with the diff guard off: save the captured interactions.
    Save,
    /// Playback: nothing to persist.
    Nothing,
}

/// The end-of-test decision: a latched error wins; otherwise Record either
/// compares first (diff guard on) or saves outright; Playback persists nothing.
pub fn after_test_plan(
    latched: Option<Error>,
    mode: ServirtiumMode,
    fail_if_markdown_changed: bool,
) -> (r: AfterTestPlan)
    ensures
        match latched {
            Some(e) => r == AfterTestPlan::ReportError(e),
            None => r == if mode == ServirtiumMode::Record {
                if fail_if_markdown_changed {
                    AfterTestPlan::CompareThenSave
                } else {
                    AfterTestPlan::Save
                }
            } else {
                AfterTestPlan::Nothing
            },
        },
{
    match latched {
        Some(e) => AfterTestPlan::ReportError(e),
        None => {
            if mode == ServirtiumMode::Record {
                if fail_if_markdown_changed {
                    AfterTestPlan::CompareThenSave
                } else {
                    AfterTestPlan::Save
                }
            } else {
                AfterTestPlan::Nothing
            }
        },
    }
}

} // verus!

//! The default outbound HTTP client handle. The transport itself performs
//! network I/O and so lives with the embedding program, which hands the engine
//! the plain `ResponseData` the upstream returned.

use vstd::prelude::*;

verus! {

/// The default outbound client marker. Record mode's forwarding contract is
/// split around the network call: [`crate::ServirtiumServer::handle_record_prepare`]
/// fixes the request that must be sent, and
/// [`crate::ServirtiumServer::handle_record_complete`] takes whatever response
/// came back.
#[derive(Debug)]
pub struct ReqwestHttpClient {}

impl ReqwestHttpClient {
    /// A default outbound client handle.
    pub fn new() -> (r: Self)
        ensures
            r == (ReqwestHttpClient {  }),
    {
        Self {  }
    }
}

} // verus!

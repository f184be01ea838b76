use vstd::prelude::*;

verus! {

/// The answer to a request that created agents: how many were stored.
#[derive(Debug)]
pub struct CreateAgentResponse {
    pub records_created: u8,
}

} // verus!

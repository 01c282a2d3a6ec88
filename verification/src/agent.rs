//! The assistant agent handle: holds the key the network client will use.
//! The client itself lives outside the library.

use vstd::prelude::*;

verus! {

/// An agent handle for assistant-powered help.
#[derive(Debug)]
pub struct ClaudeAgent {
    /// API key the agent authenticates with.
    pub api_key: String,
}

impl ClaudeAgent {
    /// A new agent handle with this key.
    pub fn new(api_key: String) -> (a: ClaudeAgent)
        ensures
            a.api_key == api_key,
    {
        ClaudeAgent { api_key }
    }
}

} // verus!

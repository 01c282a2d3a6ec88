//! Chat messages for the assistant integration: the roles and the
//! message value. The network client lives outside the library.

use vstd::prelude::*;

verus! {

/// Chat message role.
#[derive(Clone, Copy, Debug, PartialEq, Eq, Structural)]
pub enum Role {
    User,
    Assistant,
}

/// Chat message.
#[derive(Debug)]
pub struct Message {
    /// Who said it.
    pub role: Role,
    /// What was said.
    pub content: String,
}

impl Message {
    /// A message from the user.
    pub fn user(content: String) -> (m: Message)
        ensures
            m.role == Role::User,
            m.content == content,
    {
        Message { role: Role::User, content }
    }

    /// A message from the assistant.
    pub fn assistant(content: String) -> (m: Message)
        ensures
            m.role == Role::Assistant,
            m.content == content,
    {
        Message { role: Role::Assistant, content }
    }
}

} // verus!

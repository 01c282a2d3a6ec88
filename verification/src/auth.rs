//! Authentication data and the status decision. Reading and writing the
//! credentials file is an edge concern handled outside the library.

use vstd::prelude::*;

verus! {

/// Authentication credentials for the assistant API.
#[derive(Debug)]
pub struct Credentials {
    /// Session key for API authentication.
    pub session_key: String,
    /// Organization identifier, when known.
    pub organization_id: Option<String>,
}

impl Clone for Credentials {
    fn clone(&self) -> (r: Self)
        ensures
            r == *self,
    {
        Credentials {
            session_key: self.session_key.clone(),
            organization_id: crate::model::clone_opt_text(&self.organization_id),
        }
    }
}

/// Authentication status.
#[derive(Debug)]
pub struct AuthStatus {
    /// Whether usable credentials are present.
    pub authenticated: bool,
    /// The organization of the credentials, when authenticated.
    pub organization_id: Option<String>,
}

/// The authentication status for whatever credentials could be loaded:
/// authenticated exactly when some were, carrying their organization.
pub fn get_auth_status(creds: Option<&Credentials>) -> (r: AuthStatus)
    ensures
        match creds {
            Option::Some(c) => r.authenticated && r.organization_id == c.organization_id,
            Option::None => !r.authenticated && r.organization_id is None,
        },
{
    match creds {
        Option::Some(c) => AuthStatus {
            authenticated: true,
            organization_id: crate::model::clone_opt_text(&c.organization_id),
        },
        Option::None => AuthStatus { authenticated: false, organization_id: Option::None },
    }
}

} // verus!

//! Why a login or a fetch fails.

use vstd::prelude::*;

verus! {

/// Why a login or a fetch fails.
#[derive(Debug, Clone)]
pub enum AuthError {
    /// The login page says that the username or the password is wrong.
    InvalidCredentials,
    /// The login ended somewhere else than on the student portal.
    UnexpectedLanding { final_url: String, status: String },
    /// The profile is no JSON text.
    ProfileNotJson,
    /// The info page came from another host.
    UnexpectedInfoHost { host: Option<String> },
    /// The info page is the login page: the session has expired.
    InfoSessionExpired,
}

} // verus!

//! Process-wide configuration: loaded once at startup, never mutated.

use vstd::prelude::*;

verus! {

/// Immutable settings shared by every operation: the tracking-service account,
/// goal and credential, and the messaging-session endpoint and login.
#[derive(Debug)]
pub struct Settings {
    pub beeminder_username: String,
    pub beeminder_goal: String,
    pub beeminder_auth_token: String,
    pub matrix_homeserver_url: String,
    pub matrix_username: String,
    pub matrix_password: String,
}

} // verus!

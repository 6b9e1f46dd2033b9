//! Which credentials an image is pulled with.

use vstd::prelude::*;

use crate::config::auth::{registry_host, registry_host_text, AuthConfig, RegistryCredential};

verus! {

/// Credentials for a pull.
pub enum PullAuth {
    Anonymous,
    BearerToken(String),
    Basic { user: String, pass: String },
}

/// The credentials that a registry is given.
pub open spec fn presents(a: PullAuth, credential: Option<RegistryCredential>) -> bool {
    match credential {
        None => a is Anonymous,
        Some(RegistryCredential::Bearer { token }) => a matches PullAuth::BearerToken(t) && t@
            == token@,
        Some(RegistryCredential::Basic { username, password }) => a matches PullAuth::Basic {
            user,
            pass,
        } && user@ == username@ && pass@ == password@,
    }
}

/// Look up the credentials for an image by the registry that it comes from.
/// Without an entry the pull is anonymous.
pub fn resolve_auth(auth: &AuthConfig, image_ref: &str) -> (r: PullAuth)
    requires
        auth.wf(),
    ensures
        presents(r, auth.lookup(registry_host_text(image_ref@))),
{
    match auth.registries.get(registry_host(image_ref)) {
        Some(RegistryCredential::Bearer { token }) => PullAuth::BearerToken(token.clone()),
        Some(RegistryCredential::Basic { username, password }) => PullAuth::Basic {
            user: username.clone(),
            pass: password.clone(),
        },
        None => PullAuth::Anonymous,
    }
}

/// A pull presents exactly what is kept for the registry: nothing, the token, or
/// the user name and the password.
pub proof fn lemma_presents(a: PullAuth, credential: Option<RegistryCredential>)
    requires
        presents(a, credential),
    ensures
        a is Anonymous <==> credential is None,
        credential matches Some(RegistryCredential::Bearer { token }) ==> a is BearerToken
            && a->BearerToken_0@ == token@,
        credential matches Some(RegistryCredential::Basic { username, password }) ==> a is Basic
            && a->user@ == username@ && a->pass@ == password@,
{
}

} // verus!

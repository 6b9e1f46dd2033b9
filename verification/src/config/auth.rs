//! Pull credentials, by registry.

use vstd::prelude::*;
use vstd::string::{StrSliceExecFns, StringExecFns};

use crate::namemap::NameMap;
use crate::number::{decimal, decimal_text};
use crate::text::{chars_of, find, find_char, has_char, same_str};

verus! {

/// How a text shows in quotes: what `{:?}` of `std::fmt` makes of it.
pub uninterp spec fn quoted(s: Seq<char>) -> Seq<char>;

/// `<str as std::fmt::Debug>::fmt`, through `format!`: the text in quotes, with
/// what it escapes. The same text always shows the same.
#[verifier::external_body]
pub(crate) fn quote(s: &str) -> (r: String)
    ensures
        r@ == quoted(s@),
{
    format!("{s:?}")
}

/// Credentials for one registry.
#[derive(Clone)]
pub enum RegistryCredential {
    Bearer { token: String },
    Basic { username: String, password: String },
}

impl RegistryCredential {
    /// What is shown of a credential: never the token or the password.
    pub open spec fn shown(self) -> Seq<char> {
        match self {
            RegistryCredential::Bearer { .. } => "Bearer { token: \"<redacted>\" }"@,
            RegistryCredential::Basic { username, .. } => "Basic { username: "@ + quoted(username@)
                + ", password: \"<redacted>\" }"@,
        }
    }

    /// The credential as diagnostics may show it.
    pub fn debug_text(&self) -> (r: String)
        ensures
            r@ == self.shown(),
    {
        match self {
            RegistryCredential::Bearer { .. } => String::from_str(
                "Bearer { token: \"<redacted>\" }",
            ),
            RegistryCredential::Basic { username, .. } => {
                let mut r = String::from_str("Basic { username: ");
                r.append(quote(username.as_str()).as_str());
                r.append(", password: \"<redacted>\" }");
                r
            },
        }
    }
}

/// What is shown of a credential does not depend on its secret.
pub proof fn lemma_shown_hides_secrets(a: String, b: String, username: String)
    ensures
        (RegistryCredential::Bearer { token: a }).shown() == (RegistryCredential::Bearer {
            token: b,
        }).shown(),
        (RegistryCredential::Basic { username, password: a }).shown() == (
        RegistryCredential::Basic { username, password: b }).shown(),
{
}

/// Credentials by registry host name, such as `ghcr.io`.
pub struct AuthConfig {
    pub registries: NameMap<RegistryCredential>,
}

impl Default for AuthConfig {
    fn default() -> (r: AuthConfig)
        ensures
            r.wf(),
            r.registries.list().len() == 0,
            forall|host: Seq<char>| (#[trigger] r.lookup(host)) is None,
    {
        AuthConfig { registries: NameMap::new() }
    }
}

impl AuthConfig {
    pub open spec fn wf(self) -> bool {
        self.registries.wf()
    }

    /// The credential for a host.
    pub open spec fn lookup(self, host: Seq<char>) -> Option<RegistryCredential> {
        self.registries.lookup(host)
    }

    /// What is shown of the credentials: how many there are, not for which
    /// hosts.
    pub open spec fn shown(self) -> Seq<char> {
        "AuthConfig { registries: "@ + decimal(self.registries.list().len()) + " }"@
    }

    /// The credentials as diagnostics may show them.
    pub fn debug_text(&self) -> (r: String)
        ensures
            r@ == self.shown(),
    {
        let mut r = String::from_str("AuthConfig { registries: ");
        r.append(decimal_text(self.registries.len() as u64).as_str());
        r.append(" }");
        r
    }
}

/// The registry that an image reference names: what stands before the first
/// slash, if it looks like a host name, else `docker.io`.
pub open spec fn registry_host_text(image_ref: Seq<char>) -> Seq<char> {
    let i = find(image_ref, '/');
    let first = image_ref.take(i);
    if i < image_ref.len() && (first.contains('.') || first.contains(':') || first
        == "localhost"@) {
        first
    } else {
        "docker.io"@
    }
}

/// The registry that an image reference names. A reference without a slash
/// (`alpine:latest`) and one whose first piece has neither a dot nor a colon
/// and is not `localhost` (`library/alpine`) belong to `docker.io`.
pub fn registry_host(image_ref: &str) -> (r: &str)
    ensures
        r@ == registry_host_text(image_ref@),
{
    let v = chars_of(image_ref);
    let i: usize = find_char(&v, '/');
    if i == v.len() {
        return "docker.io";
    }
    let first = image_ref.substring_char(0, i);
    let head = chars_of(first);
    proof {
        assert(first@ =~= image_ref@.take(i as int));
    }
    if has_char(&head, '.') || has_char(&head, ':') || same_str(first, "localhost") {
        first
    } else {
        "docker.io"
    }
}

/// An image reference names a registry exactly if a slash stands in it and what
/// stands in front of the first slash holds a dot or a colon or is `localhost`;
/// every other one belongs to `docker.io`.
pub proof fn lemma_registry_host(first: Seq<char>, rest: Seq<char>)
    requires
        forall|i: int| 0 <= i < first.len() ==> first[i] != '/',
    ensures
        first.contains('.') || first.contains(':') || first == "localhost"@ ==> registry_host_text(
            first + seq!['/'] + rest,
        ) == first,
        !first.contains('.') && !first.contains(':') && first != "localhost"@
            ==> registry_host_text(first + seq!['/'] + rest) == "docker.io"@,
        registry_host_text(first) == "docker.io"@,
{
    let full = first + seq!['/'] + rest;
    let n = first.len() as int;
    assert forall|j: int| 0 <= j < n implies full[j] != '/' by {
        assert(full[j] == first[j]);
    }
    assert(full[n] == '/');
    crate::text::lemma_find_is(full, '/', n);
    assert(full.take(n) =~= first);
    crate::text::lemma_find_is(first, '/', n);
}

/// What is shown of credentials are fixed words, the user name and a count.
pub proof fn lemma_shown(username: String, password: String, token: String, all: AuthConfig)
    ensures
        (RegistryCredential::Basic { username, password }).shown() == "Basic { username: "@
            + quoted(username@) + ", password: \"<redacted>\" }"@,
        (RegistryCredential::Bearer { token }).shown() == "Bearer { token: \"<redacted>\" }"@,
        all.shown() == "AuthConfig { registries: "@ + decimal(all.registries.list().len()) + " }"@,
{
}

/// The credential for a host is the one kept under its name.
pub proof fn lemma_credential(all: AuthConfig, host: Seq<char>)
    ensures
        all.lookup(host) == all.registries.lookup(host),
{
}

} // verus!

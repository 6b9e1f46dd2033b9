//! Bearer tokens: the admin's, and one for each app's rollouts.

use vstd::prelude::*;
use vstd::slice::slice_subrange;
use vstd::utf8::encode_utf8;

use super::deploy_key::{accepts, DeployKeySecret};
use super::secret::{same_bytes, seal, secret_view, unseal, SecretBytes};
use crate::router::headers::Headers;
use crate::text::{chars_of, has_prefix, lowercase, starts_with, string_of};

verus! {

pub const AUTHORIZATION: &'static str = "authorization";

/// The only status that a missing or wrong token is answered with.
pub const UNAUTHORIZED: u16 = 401;

/// The token that a request presents: what follows `Bearer ` in its first
/// `Authorization` header.
pub open spec fn presented_token(h: Headers) -> Option<Seq<char>> {
    match h.first_text(AUTHORIZATION@) {
        Some(t) => if starts_with(t, "Bearer "@) {
            Some(t.skip(7))
        } else {
            None
        },
        None => None,
    }
}

/// The token that a request presents.
pub fn bearer_token(headers: &Headers) -> (r: Option<String>)
    ensures
        match r {
            Some(t) => presented_token(*headers) == Some(t@),
            None => presented_token(*headers) is None,
        },
{
    proof {
        reveal_strlit("Bearer ");
        reveal_strlit("authorization");
        assert(lowercase(AUTHORIZATION@) =~= AUTHORIZATION@);
    }
    match headers.get_text(AUTHORIZATION) {
        None => None,
        Some(t) => if has_prefix(&t, &chars_of("Bearer ")) {
            let rest = slice_subrange(&t, 7, t.len());
            proof {
                assert(rest@ =~= t@.skip(7));
            }
            Some(string_of(rest))
        } else {
            None
        },
    }
}

/// Verifier of the admin token.
pub struct AdminAuth {
    expected_token: SecretBytes,
}

impl AdminAuth {
    /// The bytes that a token has to have.
    pub closed spec fn expected(self) -> Seq<u8> {
        secret_view(self.expected_token)
    }

    pub fn from_token(token: String) -> (r: AdminAuth)
        ensures
            r.expected() == encode_utf8(token@),
    {
        let bytes = token.as_str().as_bytes();
        let mut v: Vec<u8> = Vec::new();
        let mut i: usize = 0;
        while i < bytes.len()
            invariant
                i <= bytes@.len(),
                v@ == bytes@.take(i as int),
            decreases bytes@.len() - i,
        {
            v.push(bytes[i]);
            i += 1;
        }
        proof {
            assert(bytes@.take(i as int) =~= bytes@);
        }
        AdminAuth { expected_token: seal(v) }
    }

    /// Let a request through that presents the admin token.
    pub fn check(&self, headers: &Headers) -> (r: Result<(), u16>)
        ensures
            match r {
                Ok(_) => presented_token(*headers) is Some && encode_utf8(
                    presented_token(*headers)->0,
                ) == self.expected(),
                Err(status) => status == UNAUTHORIZED && (presented_token(*headers) is None
                    || encode_utf8(presented_token(*headers)->0) != self.expected()),
            },
    {
        match bearer_token(headers) {
            None => Err(UNAUTHORIZED),
            Some(t) => if same_bytes(t.as_str().as_bytes(), unseal(&self.expected_token)) {
                Ok(())
            } else {
                Err(UNAUTHORIZED)
            },
        }
    }
}

/// The presented token is the deploy token of the app.
pub open spec fn deploy_token_fits(
    key: Seq<u8>,
    token: Option<Seq<char>>,
    app: Option<(&str, &str)>,
) -> bool {
    match (token, app) {
        (Some(t), Some((name, repo))) => accepts(key, t, name@, repo@),
        _ => false,
    }
}

/// Let a request for an app's rollouts through that presents the app's deploy
/// token. `app` is the name and the current repository of the app that the path
/// names; none if there is no such app. Whatever is amiss, the answer is the
/// same.
pub fn require_deploy_token(
    secret: &DeployKeySecret,
    headers: &Headers,
    app: Option<(&str, &str)>,
) -> (r: Result<(), u16>)
    ensures
        match r {
            Ok(_) => deploy_token_fits(secret.key(), presented_token(*headers), app),
            Err(status) => status == UNAUTHORIZED && !deploy_token_fits(
                secret.key(),
                presented_token(*headers),
                app,
            ),
        },
{
    let presented = match bearer_token(headers) {
        Some(t) => t,
        None => {
            return Err(UNAUTHORIZED);
        },
    };
    match app {
        None => Err(UNAUTHORIZED),
        Some((name, repo)) => if secret.verify(presented.as_str(), name, repo) {
            Ok(())
        } else {
            Err(UNAUTHORIZED)
        },
    }
}

/// A request presents a token exactly if its first `Authorization` line is
/// `Bearer`, a blank and the token.
pub proof fn lemma_presented_token(h: Headers, token: Seq<char>)
    ensures
        presented_token(h) == Some(token) <==> h.first_text("authorization"@) == Some(
            "Bearer "@ + token,
        ),
        h.first_text("authorization"@) is None ==> presented_token(h) is None,
{
    reveal_strlit("Bearer ");
    let p = "Bearer "@;
    assert((p + token).take(7) =~= p);
    assert((p + token).skip(7) =~= token);
    if presented_token(h) == Some(token) {
        let t = h.first_text("authorization"@)->0;
        crate::text::lemma_starts_with(t, p);
        assert(t =~= p + t.skip(7));
    }
    if h.first_text("authorization"@) == Some(p + token) {
        crate::text::lemma_starts_with(p + token, p);
    }
}

/// A request for an app's rollouts is let through only with a token, only where
/// there is such an app, and only with the token of that very app; whatever is
/// amiss, it is answered that the caller is not authorised.
pub proof fn lemma_deploy_token(key: Seq<u8>, token: Option<Seq<char>>, app: Option<(&str, &str)>)
    ensures
        UNAUTHORIZED == 401,
        token is None ==> !deploy_token_fits(key, token, app),
        app is None ==> !deploy_token_fits(key, token, app),
        app matches Some((name, repo)) ==> token matches Some(t) ==> (deploy_token_fits(key, token, app)
            <==> accepts(key, t, name@, repo@)),
{
}

} // verus!

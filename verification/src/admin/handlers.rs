//! What the handlers of the admin API decide.

use vstd::prelude::*;
use vstd::string::StringExecFns;
use vstd::utf8::{decode_utf8, valid_utf8};

use super::deploy_key::{accepts, token_text, DeployKeySecret};
use super::error::{AdminError, BAD_REQUEST, NOT_FOUND, TOO_MANY_REQUESTS};
use crate::config::spec::AppSpec;
use crate::router::headers::Headers;
use crate::text::{
    chars_of, lowercase, pieces, same_ignoring_case, split, split_on, trim, trimmed, utf8_text,
};

verus! {

/// Bytes that a request body may have.
pub const MAX_BODY_BYTES: usize = 262144;

/// Requests that are let through in each period.
pub const RATE_LIMIT_REQUESTS: u64 = 60;

/// Seconds of a period.
pub const RATE_LIMIT_PERIOD_SECS: u64 = 60;

pub const CONTENT_TYPE: &'static str = "content-type";

/// How a spec is written down in a request body.
#[derive(Debug, Clone, Copy, PartialEq, Eq, Structural)]
pub enum BodyFormat {
    Toml,
    Json,
}

/// The media type that a request names, without parameters.
pub open spec fn media_type(h: Headers) -> Seq<char> {
    trim(
        split(
            match h.first_text(CONTENT_TYPE@) {
                Some(t) => t,
                None => seq![],
            },
            ';',
        )[0],
    )
}

/// TOML where the request says so, in either of the two ways; else JSON.
pub open spec fn format_of(h: Headers) -> BodyFormat {
    let m = lowercase(media_type(h));
    if m == lowercase("application/toml"@) || m == lowercase("text/toml"@) {
        BodyFormat::Toml
    } else {
        BodyFormat::Json
    }
}

pub fn body_format(headers: &Headers) -> (r: BodyFormat)
    ensures
        r == format_of(*headers),
{
    let none: Vec<char> = Vec::new();
    proof {
        assert(none@ =~= Seq::<char>::empty());
        reveal_strlit("content-type");
        assert(lowercase(CONTENT_TYPE@) =~= CONTENT_TYPE@);
    }
    let text = match headers.get_text(CONTENT_TYPE) {
        Some(t) => t,
        None => none,
    };
    let parts = split_on(&text, ';');
    proof {
        assert(pieces(parts@)[0] == parts@[0]@);
    }
    let media = trimmed(&parts[0]);
    if same_ignoring_case(media, &chars_of("application/toml")) || same_ignoring_case(
        media,
        &chars_of("text/toml"),
    ) {
        BodyFormat::Toml
    } else {
        BodyFormat::Json
    }
}

/// What came of reading a body: the spec, or why there is none.
pub open spec fn parse_answer(
    outcome: Result<AppSpec, String>,
    complaint: Seq<char>,
    r: Result<AppSpec, AdminError>,
) -> bool {
    match outcome {
        Ok(spec) => r == Ok::<AppSpec, AdminError>(spec),
        Err(e) => r matches Err(a) && a.says(BAD_REQUEST, complaint + e@),
    }
}

fn complain(complaint: &str, outcome: Result<AppSpec, String>) -> (r: Result<AppSpec, AdminError>)
    ensures
        parse_answer(outcome, complaint@, r),
{
    match outcome {
        Ok(spec) => Ok(spec),
        Err(e) => {
            let mut m = String::from_str(complaint);
            m.append(e.as_str());
            Err(AdminError::new(BAD_REQUEST, m))
        },
    }
}

/// Read a spec from a request body, in the format that the request names.
/// `read_toml` and `read_json` read the two formats.
pub fn parse_app_spec<F: Fn(&str) -> Result<AppSpec, String>, G: Fn(&[u8]) -> Result<
    AppSpec,
    String,
>>(headers: &Headers, body: &[u8], read_toml: F, read_json: G) -> (r: Result<AppSpec, AdminError>)
    requires
        forall|s: &str| #[trigger] read_toml.requires((s,)),
        read_json.requires((body,)),
    ensures
        match format_of(*headers) {
            BodyFormat::Toml => if valid_utf8(body@) {
                exists|s: &str, outcome: Result<AppSpec, String>|
                    {
                        &&& s@ == decode_utf8(body@)
                        &&& #[trigger] read_toml.ensures((s,), outcome)
                        &&& parse_answer(outcome, "invalid TOML body: "@, r)
                    }
            } else {
                r matches Err(a) && a.says(BAD_REQUEST, "TOML body must be UTF-8"@)
            },
            BodyFormat::Json => exists|outcome: Result<AppSpec, String>|
                {
                    &&& #[trigger] read_json.ensures((body,), outcome)
                    &&& parse_answer(outcome, "invalid JSON body: "@, r)
                },
        },
{
    match body_format(headers) {
        BodyFormat::Toml => {
            let text = match utf8_text(body) {
                Ok(t) => t,
                Err(_) => {
                    let m = String::from_str("TOML body must be UTF-8");
                    return Err(AdminError::new(BAD_REQUEST, m));
                },
            };
            let s = text.as_str();
            let outcome = read_toml(s);
            let ghost seen = outcome;
            let r = complain("invalid TOML body: ", outcome);
            proof {
                assert(read_toml.ensures((s,), seen));
            }
            r
        },
        BodyFormat::Json => {
            let outcome = read_json(body);
            complain("invalid JSON body: ", outcome)
        },
    }
}

/// What is told of an app that is not registered.
pub fn app_not_found(name: &str) -> (r: AdminError)
    ensures
        r.says(NOT_FOUND, "app '"@ + name@ + "' not found"@),
{
    let mut m = String::from_str("app '");
    m.append(name);
    m.append("' not found");
    AdminError::new(NOT_FOUND, m)
}

/// What is told of a request that comes too soon after others.
pub fn rate_limited(reason: &str) -> (r: AdminError)
    ensures
        r.says(TOO_MANY_REQUESTS, "rate limit exceeded: "@ + reason@),
{
    let mut m = String::from_str("rate limit exceeded: ");
    m.append(reason);
    AdminError::new(TOO_MANY_REQUESTS, m)
}

/// What is told of a body that could not be received.
pub fn unread_body(reason: &str) -> (r: AdminError)
    ensures
        r.says(BAD_REQUEST, "read body: "@ + reason@),
{
    let mut m = String::from_str("read body: ");
    m.append(reason);
    AdminError::new(BAD_REQUEST, m)
}

/// Make the deploy token of an app, under its name and its current repository;
/// `repo` is none if there is no such app.
pub fn issue_deploy_key(secret: &DeployKeySecret, name: &str, repo: Option<&str>) -> (r: Result<
    String,
    AdminError,
>)
    ensures
        match repo {
            Some(p) => r matches Ok(t) && t@ == token_text(secret.key(), name@, p@) && accepts(
                secret.key(),
                t@,
                name@,
                p@,
            ),
            None => r matches Err(a) && a.says(NOT_FOUND, "app '"@ + name@ + "' not found"@),
        },
{
    match repo {
        Some(p) => Ok(secret.derive(name, p)),
        None => Err(app_not_found(name)),
    }
}

/// A body is TOML exactly if its `Content-Type`, up to the first semicolon,
/// without blanks around it and whatever the case of its letters, is
/// `application/toml` or `text/toml`; in every other case, and where none is
/// given, it is JSON.
pub proof fn lemma_body_format(h: Headers)
    ensures
        h.first_text("content-type"@) is None ==> format_of(h) == BodyFormat::Json,
        h.first_text("content-type"@) matches Some(t) ==> (format_of(h) == BodyFormat::Toml <==> {
            let end = crate::text::find(t, ';');
            lowercase(trim(t.take(end))) == "application/toml"@ || lowercase(trim(t.take(end)))
                == "text/toml"@
        }),
{
    reveal_strlit("application/toml");
    reveal_strlit("text/toml");
    assert(lowercase("application/toml"@) =~= "application/toml"@);
    assert(lowercase("text/toml"@) =~= "text/toml"@);
    if h.first_text("content-type"@) is Some {
        let t = h.first_text("content-type"@)->0;
        crate::text::lemma_find(t, ';');
        let end = crate::text::find(t, ';');
        if end == t.len() {
            assert(t.take(end) =~= t);
        }
        assert(split(t, ';')[0] == t.take(end));
    } else {
        crate::text::lemma_split_of_one(seq![], ';');
        assert(split(seq![], ';')[0] == Seq::<char>::empty());
        assert(media_type(h).len() == 0);
        assert(lowercase(media_type(h)).len() == 0);
        assert("application/toml"@.len() == 16);
        assert("text/toml"@.len() == 9);
    }
}

/// What came of reading a body is passed on: the spec as it was read, or 400 and
/// the complaint with the reader's own words behind it.
pub proof fn lemma_parse_answer(
    outcome: Result<AppSpec, String>,
    complaint: Seq<char>,
    r: Result<AppSpec, AdminError>,
)
    requires
        parse_answer(outcome, complaint, r),
    ensures
        r is Ok <==> outcome is Ok,
        r is Ok ==> r->Ok_0 == outcome->Ok_0,
        r is Err ==> r->Err_0.status == 400 && r->Err_0.message@ == complaint + outcome->Err_0@,
{
}

/// A body may have 256 kilobytes, and sixty requests are let through in a
/// minute.
pub proof fn lemma_admin_limits()
    ensures
        MAX_BODY_BYTES == 256 * 1024,
        RATE_LIMIT_REQUESTS == 60,
        RATE_LIMIT_PERIOD_SECS == 60,
{
}

} // verus!

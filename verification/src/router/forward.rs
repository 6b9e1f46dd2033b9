//! Passing requests on, and what is answered where that is not possible.

use vstd::prelude::*;
use vstd::string::StringExecFns;

use super::config::RouterConfig;
use super::headers::{
    inject_forwarded_headers, is_upgrade_request, strip_hop_by_hop_headers, stripped,
    upgrade_requested, with_origin, Headers,
};
use super::host::{first_label, subdomain_of};
use crate::egress::addr::{IpAddr, SocketAddr};

verus! {

/// Why no app could be found for a request.
#[derive(Debug)]
pub enum ResolveError {
    /// No app is registered for the host.
    NoSuchApp,
    /// The app is registered but did not come up, for the given reason.
    Unhealthy(String),
}

impl ResolveError {
    /// What the log says.
    pub open spec fn text(self) -> Seq<char> {
        match self {
            ResolveError::NoSuchApp => "no app registered for this host"@,
            ResolveError::Unhealthy(e) => "upstream is registered but failed to come up: "@ + e@,
        }
    }

    pub fn message(&self) -> (r: String)
        ensures
            r@ == self.text(),
    {
        match self {
            ResolveError::NoSuchApp => String::from_str("no app registered for this host"),
            ResolveError::Unhealthy(e) => {
                let mut r = String::from_str("upstream is registered but failed to come up: ");
                r.append(e.as_str());
                r
            },
        }
    }
}

/// An answer of the router's own.
#[derive(Debug)]
pub struct ErrorReply {
    pub status: u16,
    pub body: String,
}

/// The answer has this status and this body.
pub open spec fn says(r: ErrorReply, status: u16, body: Seq<char>) -> bool {
    r.status == status && r.body@ == body
}

fn reply(status: u16, body: &str) -> (r: ErrorReply)
    ensures
        says(r, status, body@),
{
    ErrorReply { status, body: String::from_str(body) }
}

/// The answer to a request whose app could not be found: 404 for a host that no
/// app has, 502 for an app that did not come up. The reason for the latter is
/// not told.
pub fn resolve_failure(host: &str, error: &ResolveError) -> (r: ErrorReply)
    ensures
        match error {
            ResolveError::NoSuchApp => says(r, 404, "no app matched host '"@ + host@ + "'\n"@),
            ResolveError::Unhealthy(_) => says(
                r,
                502,
                "upstream for '"@ + host@ + "' failed to come up\n"@,
            ),
        },
{
    match error {
        ResolveError::NoSuchApp => {
            let mut body = String::from_str("no app matched host '");
            body.append(host);
            body.append("'\n");
            ErrorReply { status: 404, body }
        },
        ResolveError::Unhealthy(_) => {
            let mut body = String::from_str("upstream for '");
            body.append(host);
            body.append("' failed to come up\n");
            ErrorReply { status: 502, body }
        },
    }
}

/// The label under which requests for a host are counted.
pub fn app_label(host: &str) -> (r: String)
    ensures
        r@ == (match first_label(host@) {
            Some(l) => l,
            None => "unknown"@,
        }),
{
    match subdomain_of(host) {
        Some(l) => l.to_owned(),
        None => String::from_str("unknown"),
    }
}

/// The target of a request that is passed on, in its parts.
#[derive(Debug)]
pub struct Target {
    pub scheme: String,
    pub authority: String,
    pub path_and_query: String,
}

/// Where a request goes: over HTTP to the upstream's address, with the path and
/// query of the request, or the root if it has none.
pub fn rewrite_uri(path_and_query: Option<&str>, upstream: SocketAddr) -> (r: Target)
    ensures
        r.scheme@ == "http"@,
        r.authority@ == upstream.text(),
        r.path_and_query@ == (match path_and_query {
            Some(p) => p@,
            None => "/"@,
        }),
{
    Target {
        scheme: String::from_str("http"),
        authority: upstream.show(),
        path_and_query: match path_and_query {
            Some(p) => String::from_str(p),
            None => String::from_str("/"),
        },
    }
}

/// How a request is passed on.
#[derive(Debug)]
pub enum ForwardStep {
    /// Not at all.
    Reply(ErrorReply),
    /// As a request for an upgraded connection.
    Upgrade,
    /// As an ordinary request.
    Plain,
}

/// Make the headers of a request ready to be passed on. `uri_ok` says whether
/// the parts of the target made a valid one. The headers that ask for an
/// upgrade are passed on with a request that asks for one, and with no other.
pub fn prepare_forward(
    headers: &mut Headers,
    uri_ok: bool,
    peer: Option<IpAddr>,
    original_host: &str,
    config: &RouterConfig,
) -> (r: ForwardStep)
    requires
        config.wf(),
    ensures
        old(headers).wf() ==> final(headers).wf(),
        if !uri_ok {
            &&& r matches ForwardStep::Reply(e) && says(e, 502, "upstream URI rewrite failed\n"@)
            &&& *final(headers) == *old(headers)
        } else {
            let origin = with_origin(old(headers).table(), peer, original_host@, *config);
            if upgrade_requested(*old(headers)) {
                r is Upgrade && final(headers).table() == origin
            } else {
                r is Plain && final(headers).table() == stripped(origin)
            }
        },
{
    let is_upgrade = is_upgrade_request(headers);
    if !uri_ok {
        return ForwardStep::Reply(reply(502, "upstream URI rewrite failed\n"));
    }
    inject_forwarded_headers(headers, peer, original_host, config);
    if is_upgrade {
        return ForwardStep::Upgrade;
    }
    strip_hop_by_hop_headers(headers);
    ForwardStep::Plain
}

/// What came back for an ordinary request.
#[derive(Debug)]
pub enum SendOutcome {
    Response(Headers),
    Failed,
    TimedOut,
}

/// What the client gets.
#[derive(Debug)]
pub enum ForwardResult {
    /// The upstream's response, with these headers.
    Pass(Headers),
    Reply(ErrorReply),
}

/// Turn what came back into the answer: a response is passed on without the
/// headers of its connection, a failed connection is 502, silence is 504.
pub fn finish_forward(outcome: SendOutcome) -> (r: ForwardResult)
    ensures
        match outcome {
            SendOutcome::Response(h) => r matches ForwardResult::Pass(out) && out.table()
                == stripped(h.table()),
            SendOutcome::Failed => r matches ForwardResult::Reply(e) && says(
                e,
                502,
                "upstream connection failed\n"@,
            ),
            SendOutcome::TimedOut => r matches ForwardResult::Reply(e) && says(
                e,
                504,
                "upstream request timed out\n"@,
            ),
        },
{
    match outcome {
        SendOutcome::Response(h) => {
            let mut out = h;
            strip_hop_by_hop_headers(&mut out);
            ForwardResult::Pass(out)
        },
        SendOutcome::Failed => ForwardResult::Reply(reply(502, "upstream connection failed\n")),
        SendOutcome::TimedOut => ForwardResult::Reply(reply(504, "upstream request timed out\n")),
    }
}

/// The answer to a request for an upgrade when no slot for one is left.
pub fn refuse_upgrade(slot_left: bool) -> (r: Option<ErrorReply>)
    ensures
        match r {
            None => slot_left,
            Some(e) => !slot_left && says(e, 503, "upgrade limit reached; retry later\n"@),
        },
{
    if slot_left {
        None
    } else {
        Some(reply(503, "upgrade limit reached; retry later\n"))
    }
}

/// What came back for a request for an upgrade.
#[derive(Debug)]
pub enum UpgradeOutcome {
    Response { status: u16, headers: Headers },
    Failed,
    TimedOut,
}

/// What becomes of a request for an upgrade.
#[derive(Debug)]
pub enum UpgradeResult {
    /// Both sides agree: pass the response on as it is and splice the two
    /// connections.
    Splice(Headers),
    /// The upstream declines: an ordinary response.
    Pass(Headers),
    Reply(ErrorReply),
}

/// Turn what came back for an upgrade into the answer. Only a response that
/// switches protocols is passed on untouched and leads to a splice.
pub fn finish_upgrade(outcome: UpgradeOutcome) -> (r: UpgradeResult)
    ensures
        match outcome {
            UpgradeOutcome::Response { status, headers } => if status == 101 {
                r == UpgradeResult::Splice(headers)
            } else {
                r matches UpgradeResult::Pass(out) && out.table() == stripped(headers.table())
            },
            UpgradeOutcome::Failed => r matches UpgradeResult::Reply(e) && says(
                e,
                502,
                "upstream connection failed\n"@,
            ),
            UpgradeOutcome::TimedOut => r matches UpgradeResult::Reply(e) && says(
                e,
                504,
                "upstream request timed out\n"@,
            ),
        },
{
    match outcome {
        UpgradeOutcome::Response { status, headers } => {
            if status == 101 {
                return UpgradeResult::Splice(headers);
            }
            let mut out = headers;
            strip_hop_by_hop_headers(&mut out);
            UpgradeResult::Pass(out)
        },
        UpgradeOutcome::Failed => UpgradeResult::Reply(reply(502, "upstream connection failed\n")),
        UpgradeOutcome::TimedOut => UpgradeResult::Reply(
            reply(504, "upstream request timed out\n"),
        ),
    }
}

/// What the log says of a request without an app.
pub proof fn lemma_resolve_texts(e: String)
    ensures
        ResolveError::NoSuchApp.text() == "no app registered for this host"@,
        ResolveError::Unhealthy(e).text() == "upstream is registered but failed to come up: "@ + e@,
{
}

/// An answer says a status and a body where it has both.
pub proof fn lemma_reply(r: ErrorReply, status: u16, body: Seq<char>)
    requires
        says(r, status, body),
    ensures
        r.status == status,
        r.body@ == body,
{
}

} // verus!

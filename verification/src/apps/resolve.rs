//! From a request to the app that serves it.

use std::sync::Arc;
use vstd::prelude::*;

use super::registry::{Registered, Registry};
use crate::egress::addr::{IpAddr, SocketAddr};
use crate::router::forward::ResolveError;
use crate::router::host::{first_label, subdomain_of};

verus! {

/// The app that a host name stands for.
pub open spec fn app_at<V>(registry: Registry<V>, host: Seq<char>) -> Option<Registered<V>> {
    match first_label(host) {
        Some(s) => registry.at_subdomain(s),
        None => None,
    }
}

/// Find the app that serves a host.
pub fn find_app<V>(registry: &Registry<V>, host: &str) -> (r: Result<
    Arc<Registered<V>>,
    ResolveError,
>)
    requires
        registry.wf(),
    ensures
        match r {
            Ok(a) => app_at(*registry, host@) == Some(*a),
            Err(e) => e == ResolveError::NoSuchApp && app_at(*registry, host@) is None,
        },
{
    match subdomain_of(host) {
        None => Err(ResolveError::NoSuchApp),
        Some(s) => match registry.find_by_subdomain(s) {
            Some(a) => Ok(a),
            None => Err(ResolveError::NoSuchApp),
        },
    }
}

/// Where requests for an app go, once it is up.
pub fn finish_resolve(outcome: Result<u32, String>, port: u16) -> (r: Result<
    SocketAddr,
    ResolveError,
>)
    ensures
        match outcome {
            Ok(ip) => r == Ok::<SocketAddr, ResolveError>(SocketAddr { ip: IpAddr::V4(ip), port }),
            Err(e) => r == Err::<SocketAddr, ResolveError>(ResolveError::Unhealthy(e)),
        },
{
    match outcome {
        Ok(ip) => Ok(SocketAddr { ip: IpAddr::V4(ip), port }),
        Err(e) => Err(ResolveError::Unhealthy(e)),
    }
}

/// A request reaches the app that is registered for the first label of its host,
/// and no other.
pub proof fn lemma_requests_reach_their_app<V>(registry: Registry<V>, host: Seq<char>)
    requires
        registry.coherent(),
        app_at(registry, host) is Some,
    ensures
        first_label(host) == Some(app_at(registry, host)->0.identity.subdomain@),
        registry.named(app_at(registry, host)->0.identity.name@) == app_at(registry, host),
{
}

/// Every app whose subdomain is a label is reached at that subdomain, whatever
/// domain and port follow it.
pub proof fn lemma_app_is_reached<V>(
    registry: Registry<V>,
    subdomain: Seq<char>,
    domain: Seq<char>,
    port: Seq<char>,
)
    requires
        crate::config::validate::is_dns_label(subdomain),
    ensures
        app_at(registry, subdomain) == registry.at_subdomain(subdomain),
        app_at(registry, subdomain + seq!['.'] + domain) == registry.at_subdomain(subdomain),
        app_at(registry, subdomain + seq!['.'] + domain + seq![':'] + port)
            == registry.at_subdomain(subdomain),
{
    crate::config::validate::lemma_dns_label(subdomain);
    crate::router::host::lemma_label_is_itself(subdomain, domain, port);
}

/// A host that begins with a bracket reaches no app.
pub proof fn lemma_literal_reaches_nobody<V>(registry: Registry<V>, host: Seq<char>)
    requires
        host.len() > 0,
        host[0] == '[',
    ensures
        app_at(registry, host) is None,
{
    crate::router::host::lemma_first_label(host);
}

} // verus!

//! What an operator sets for the router, and its limits.

use vstd::prelude::*;
use vstd::string::StringExecFns;

use crate::egress::net::IpNet;

verus! {

/// Seconds to wait for a connection to an app.
pub const CONNECT_TIMEOUT_SECS: u64 = 5;

/// Seconds that a request may take until its response begins.
pub const REQUEST_TIMEOUT_SECS: u64 = 30;

/// Seconds after which an unused connection to an app is closed.
pub const IDLE_TIMEOUT_SECS: u64 = 60;

/// Seconds to wait for the headers of a request.
pub const HEADER_READ_TIMEOUT_SECS: u64 = 10;

/// Largest body of a request, in bytes.
pub const MAX_BODY_BYTES: usize = 4194304;

/// Requests that are handled at the same time.
pub const MAX_CONCURRENT_REQUESTS: usize = 64;

/// Seconds to wait for the next piece of a response's body.
pub const RESPONSE_FRAME_TIMEOUT_SECS: u64 = 60;

/// Largest body of a response, in bytes.
pub const MAX_RESPONSE_BODY_BYTES: usize = 67108864;

/// Upgraded connections that are open at the same time.
pub const MAX_CONCURRENT_UPGRADES: usize = 32;

/// Seconds without traffic after which an upgraded connection is closed.
pub const UPGRADE_IDLE_TIMEOUT_SECS: u64 = 300;

/// Streams of one HTTP/2 connection that are open at the same time.
pub const H2_MAX_CONCURRENT_STREAMS: u32 = 16;

/// What an operator sets for the router.
#[derive(Debug)]
pub struct RouterConfig {
    /// Networks whose `X-Forwarded-For` is believed. With none given, every
    /// peer's is.
    pub trusted_proxies: Vec<IpNet>,
    /// What `X-Forwarded-Proto` is set to where a request carries none.
    pub forwarded_proto: String,
}

impl RouterConfig {
    pub open spec fn wf(self) -> bool {
        forall|i: int|
            0 <= i < self.trusted_proxies@.len() ==> (#[trigger] self.trusted_proxies@[i]).wf()
    }

    /// No proxies given, `http` advertised.
    pub fn defaults() -> (r: RouterConfig)
        ensures
            r.wf(),
            r.trusted_proxies@.len() == 0,
            r.forwarded_proto@ == "http"@,
    {
        RouterConfig { trusted_proxies: Vec::new(), forwarded_proto: String::from_str("http") }
    }
}

impl Default for RouterConfig {
    fn default() -> (r: RouterConfig)
        ensures
            r.wf(),
            r.trusted_proxies@.len() == 0,
            r.forwarded_proto@ == "http"@,
    {
        RouterConfig::defaults()
    }
}

/// How long the router waits, in seconds, and how much it takes at a time.
pub proof fn lemma_router_limits()
    ensures
        CONNECT_TIMEOUT_SECS == 5,
        REQUEST_TIMEOUT_SECS == 30,
        IDLE_TIMEOUT_SECS == 60,
        HEADER_READ_TIMEOUT_SECS == 10,
        MAX_BODY_BYTES == 4 * 1024 * 1024,
        MAX_CONCURRENT_REQUESTS == 64,
        RESPONSE_FRAME_TIMEOUT_SECS == 60,
        MAX_RESPONSE_BODY_BYTES == 64 * 1024 * 1024,
        MAX_CONCURRENT_UPGRADES == 32,
        UPGRADE_IDLE_TIMEOUT_SECS == 5 * 60,
        H2_MAX_CONCURRENT_STREAMS == 16,
{
}

} // verus!

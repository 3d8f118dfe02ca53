//! The shared state of one gateway process.

use vstd::prelude::*;
use crate::channels::ChannelRegistry;
use crate::clients::ClientRegistry;
use crate::rate_limit::RateLimiter;

verus! {

/// Everything the handlers share: the two registries, the rate
/// limiter, and the configuration they are checked against.
pub struct AppState {
    pub channels: ChannelRegistry,
    pub clients: ClientRegistry,
    pub rate_limits: RateLimiter,
    /// The opaque admin token; non-empty.
    pub admin_token: String,
    /// The absolute URL of the delegated authenticator.
    pub api_endpoint: String,
}

impl AppState {
    pub open spec fn wf(self) -> bool {
        &&& self.channels.wf()
        &&& self.clients.wf()
        &&& self.rate_limits.wf()
        &&& self.admin_token@.len() > 0
    }

    /// A fresh state: no channels, no clients, no rate windows.
    pub fn new(
        admin_token: String,
        api_endpoint: String,
        rate_limit_count: u32,
        rate_limit_window_ms: u64,
    ) -> (r: AppState)
        requires
            admin_token@.len() > 0,
        ensures
            r.wf(),
            r.admin_token@ == admin_token@,
            r.api_endpoint@ == api_endpoint@,
            r.rate_limits.limit_spec() == rate_limit_count,
            r.rate_limits.window_spec() == rate_limit_window_ms,
            forall|n: Seq<char>| !r.channels.has(n),
            forall|n: Seq<char>| !r.clients.has(n),
            forall|a: Seq<char>| !r.rate_limits.has(a),
            r.clients.entries().len() == 0,
    {
        AppState {
            channels: ChannelRegistry::new(),
            clients: ClientRegistry::new(),
            rate_limits: RateLimiter::new(rate_limit_count, rate_limit_window_ms),
            admin_token,
            api_endpoint,
        }
    }
}

} // verus!

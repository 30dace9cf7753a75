//! The settings of the HTTP clients.

use vstd::prelude::*;

use crate::storage::MAX_CONCURRENT_REQUESTS;

verus! {

/// The settings of an HTTP client. Where one is absent, the client keeps its own.
#[derive(Clone, Copy, Debug, PartialEq, Eq)]
pub struct ClientSettings {
    pub user_agent: Option<&'static str>,
    pub connect_timeout_secs: Option<u64>,
    pub timeout_secs: u64,
    pub pool_max_idle_per_host: usize,
    pub pool_idle_timeout_secs: Option<u64>,
    pub http2_keep_alive_interval_secs: Option<u64>,
    pub http2_keep_alive_timeout_secs: Option<u64>,
}

/// The settings of the client that the storage fetches pieces with: it keeps as many idle
/// connections as there can be requests under way.
pub fn storage_client() -> (settings: ClientSettings)
    ensures
        settings == (ClientSettings {
            user_agent: None,
            connect_timeout_secs: None,
            timeout_secs: 30,
            pool_max_idle_per_host: MAX_CONCURRENT_REQUESTS,
            pool_idle_timeout_secs: None,
            http2_keep_alive_interval_secs: None,
            http2_keep_alive_timeout_secs: None,
        }),
{
    ClientSettings {
        user_agent: None,
        connect_timeout_secs: None,
        timeout_secs: 30,
        pool_max_idle_per_host: MAX_CONCURRENT_REQUESTS,
        pool_idle_timeout_secs: None,
        http2_keep_alive_interval_secs: None,
        http2_keep_alive_timeout_secs: None,
    }
}

/// The settings of the client behind the C interface.
pub fn client() -> (settings: ClientSettings)
    ensures
        settings.user_agent matches Some(agent) && agent@ == "cdn_seed/1.0"@,
        settings.connect_timeout_secs == Some(5u64),
        settings.timeout_secs == 15,
        settings.pool_max_idle_per_host == 8,
        settings.pool_idle_timeout_secs == Some(30u64),
        settings.http2_keep_alive_interval_secs == Some(10u64),
        settings.http2_keep_alive_timeout_secs == Some(5u64),
{
    ClientSettings {
        user_agent: Some("cdn_seed/1.0"),
        connect_timeout_secs: Some(5),
        timeout_secs: 15,
        pool_max_idle_per_host: 8,
        pool_idle_timeout_secs: Some(30),
        http2_keep_alive_interval_secs: Some(10),
        http2_keep_alive_timeout_secs: Some(5),
    }
}

} // verus!

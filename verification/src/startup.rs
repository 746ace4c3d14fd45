//! What the application decides when it starts.

use crate::service::ProxyConfig;
use crate::text::joined;
use vstd::prelude::*;

verus! {

/// The settings of the local HTTP API.
#[derive(Clone, Copy, Debug, PartialEq, Eq, Structural)]
pub struct HttpApiSettings {
    pub enabled: bool,
    pub port: u16,
}

/// The port on which the HTTP API is served, if it is: the configured port
/// where the settings were loaded and enable it, none where they disable
/// it, and `default_port` where they could not be loaded.
pub open spec fn api_port(settings: Option<HttpApiSettings>, default_port: u16) -> Option<u16> {
    match settings {
        Some(s) => if s.enabled {
            Some(s.port)
        } else {
            None
        },
        None => Some(default_port),
    }
}

/// Decides whether and where the HTTP API is served. `settings` is `None`
/// where they could not be loaded.
pub fn http_api_port(settings: Option<HttpApiSettings>, default_port: u16) -> (port: Option<u16>)
    ensures
        port == api_port(settings, default_port),
{
    match settings {
        Some(s) => if s.enabled {
            Some(s.port)
        } else {
            None
        },
        None => Some(default_port),
    }
}

/// Whether the service starts with the application: the settings were
/// loaded and ask for it. `config` is `None` where they could not be loaded.
pub fn should_auto_start(config: Option<&ProxyConfig>) -> (start: bool)
    ensures
        start == (config matches Some(c) && c.auto_start),
{
    match config {
        Some(c) => c.auto_start,
        None => false,
    }
}

/// The greeting for `name`.
pub open spec fn greeting(name: Seq<char>) -> Seq<char> {
    "Hello, "@ + name + "! You've been greeted from Rust!"@
}

/// Greets `name`.
pub fn greet(name: &str) -> (r: String)
    ensures
        r@ == greeting(name@),
{
    let mut r = joined("Hello, ", name);
    r.append("! You've been greeted from Rust!");
    r
}

} // verus!

//! A configurable HTTP reverse-proxy gateway library.
//!
//! The crate provides the verified core of the gateway: the configuration
//! model with its validation invariants, the API-key pool selector, the
//! route matcher and request rewriter, the metrics bookkeeping, the health
//! probe, and the master-token access guard. Listener wiring and transport
//! I/O live outside the library.

use vstd::prelude::*;

pub mod api_key;
pub mod config;
pub mod engine;
pub mod health;
pub mod metrics;
pub mod proxy;
pub mod text;
pub mod tui;

pub use config::GatewayConfig;
pub use config::MasterAccessTokenConfig;

verus! {

/// Returns true when `status` counts as an error outcome (status >= 400).
pub open spec fn spec_is_error_status(status: u16) -> bool {
    status >= 400
}

/// Classifies an HTTP status code as an error for bookkeeping purposes.
pub fn is_error_status(status: u16) -> (r: bool)
    ensures
        r == spec_is_error_status(status),
{
    status >= 400
}

} // verus!

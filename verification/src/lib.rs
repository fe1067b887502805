//! Admission-control and resource-management core of a self-hosted gateway
//! that pools multiple vendor OAuth accounts behind a unified API surface.
//!
//! The crate covers the in-memory multi-account credential pool (selection,
//! session affinity, hot reload), the quota-refresh workflow with
//! retry/backoff, the admin web-session store, and the layered authentication
//! chain that separates administrative control from proxy usage.

pub mod account;
pub mod api;
pub mod clock;
pub mod config;
pub mod cookie;
pub mod errors;
pub mod oauth_flow;
pub mod gate;
pub mod pool;
pub mod quota;
pub mod session;
pub mod webauth;
pub mod zai;

//! Shared HTTP core for network backends: SSRF guard, per-credential client
//! cache, request planning, response reading and downstream-error shaping.
//!
//! - [`client_registry`] keeps one client per resolved credential bundle, and
//!   drops it when it is unused for too long, when there are too many, or when
//!   its credential is revoked.
//! - [`client`] and [`safe_dns`] decide which address a client is pinned to, and
//!   refuse private ones.
//! - [`exec`] plans the request of a call and reads the headers of the response;
//!   [`body`] reads the body up to a limit.
//! - [`retry`] turns failures into errors with retry guidance.
//! - [`runtime`] holds the state of a profile, and decides what a call resolves
//!   to; [`context`], [`credentials`] and [`bundle`] hold the parts of that.
//! - [`types`], [`json`], [`headers`], [`url`], [`percent`], [`sort`] and [`text`]
//!   hold what the others share.
//!
//! Everything here is a decision or a computation on values. Resolving names,
//! sending requests, waiting for bytes and telling the time is done around it.

pub mod body;
pub mod bundle;
pub mod client;
pub mod client_registry;
pub mod context;
pub mod credentials;
pub mod exec;
pub mod headers;
pub mod json;
pub mod percent;
pub mod retry;
pub mod runtime;
pub mod safe_dns;
pub mod sort;
pub mod text;
pub mod types;
pub mod url;

//! An authenticating, rate-limited gateway core: agents hold short-lived
//! sessions and per-service entitlements; upstream credentials live in an
//! encrypted vault; each forwarded request passes an ordered admission
//! pipeline before its upstream form is built.

pub mod agent;
pub mod agent_store;
pub mod cipher;
pub mod credential;
pub mod errors;
pub mod handlers;
pub mod lookup;
pub mod pipeline;
pub mod rate_limiter;
pub mod refresh;
pub mod registry;
pub mod settings;
pub mod strutil;
pub mod sys;
pub mod user;
pub mod user_store;
pub mod vault;

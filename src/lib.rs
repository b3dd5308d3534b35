//! Admission-and-dispatch core of an API gateway: route resolution,
//! token authentication, per-client token-bucket rate limiting, and a
//! bounded request log.

pub mod text;
pub mod config;
pub mod error;
pub mod logger;
pub mod gateway;
pub mod auth;
pub mod rate_limiter;
pub mod routing;

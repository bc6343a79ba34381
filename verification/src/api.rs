//! The rate-limited conditional client: endpoints, the limiter, the response
//! cache and the interpretation of responses.

pub mod cache;
pub mod client;
pub mod endpoint;
pub mod error;
pub mod rate_limit;
pub mod response;

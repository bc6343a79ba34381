//! Board workers and the supervisor that owns them.

pub mod client;
pub mod error;
pub mod laws;
pub mod stream;
pub mod watermark;
pub mod worker;

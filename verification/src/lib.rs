//! A polling change detector for a read-only bulletin-board API.
//!
//! The crate holds the decisions of the engine as verified functions on plain
//! values: how an endpoint renders to a URL, when the rate limiter lets a
//! request depart, what the response cache answers, how a polling cycle moves
//! the per-thread watermarks, and which posts of a fetched thread are new.
//! Transport, timers and tasks live with the caller.

pub mod types;
pub mod stream;
pub mod api;

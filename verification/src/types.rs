//! The decoded shapes of the upstream's JSON bodies.

pub mod board;
pub mod catalog;
pub mod index;
pub mod post;
pub mod utils;

//! Serving requests.
pub mod handler;

//! Verified core of a tarpit that classifies HTTP requests and serves generated text.
use vstd::prelude::*;

pub mod reading;
pub mod chars;
pub mod classifier;
pub mod config;
pub mod garbage;
pub mod generator;
pub mod metrics;
pub mod order;
pub mod random;
pub mod service;
pub mod text;
pub mod tokens;

verus! {
} // verus!

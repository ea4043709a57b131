//! Classifying requests: trusted paths, addresses and agents, poisoned paths,
//! unwanted agents and networks.
pub mod asn;
pub mod classifier;
pub mod matcher;

//! The first text generator: a table of word triples read from a corpus.
pub mod generator;
pub mod read_text;

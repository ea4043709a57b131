//! The current text generator: a word graph read from a corpus.
pub mod generator;
pub mod read_text;
pub mod garbage;
pub mod template;
pub mod dump;

//! The configuration: its settings, and how they are read from a document.
pub mod document;
pub mod parse_error;
pub mod values;
pub mod settings;
pub mod parse;

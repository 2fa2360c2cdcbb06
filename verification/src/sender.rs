//! The destinations of documents, as far as they are decided here.

pub mod file;

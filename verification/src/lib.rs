//! Synthesizes JSON documents from a template whose marked keys hold
//! generator calls, evaluated afresh for every document.
//!
//! A template is JSON text. A key that starts with the marker holds, as a
//! string, a call such as `uuid()` or `choice(1, int(2, 9))`; in every
//! document the key stands without the marker and holds what the call
//! evaluated to. Everything else goes into every document as it stands.
//!
//! The text is read by [`reader`], the calls by [`parser`] after the
//! grammar in [`grammar`]; [`json_template`] builds the template,
//! [`evaluator`] evaluates a call against the functions of [`registry`] on
//! words drawn from [`random`], and [`engine`] generates the documents.
//! [`config`], [`dispatch`] and [`sender`] decide what a run is made of,
//! where its documents go and in which order, without touching the outside
//! world. [`laws`],
//! [`grammar_laws`] and [`printing`] state what holds of all of it.

pub mod call;
pub mod config;
pub mod dispatch;
pub mod engine;
pub mod error;
pub mod evaluator;
pub mod grammar;
pub mod grammar_laws;
pub mod json;
pub mod json_template;
pub mod laws;
pub mod parser;
pub mod printing;
pub mod random;
pub mod reader;
pub mod registry;
pub mod sender;
pub mod text;
pub mod uuid;

pub use crate::engine::generate;

//! A small one-shot compiler for a declarative widget-description language.
//!
//! The pipeline parses a brace-delimited widget tree, extracts which model
//! fields each displayed property depends on, emits an ordered construction
//! procedure for the widget graph, and rewrites a user-supplied
//! state-transition routine so that every assignment to a tracked model field
//! is immediately followed by statements re-applying the dependent properties.

pub mod tokens;
pub mod errors;
pub mod analyzer;
pub mod depmap;
pub mod synth;
pub mod parser;
pub mod printer;
pub mod gen;
pub mod orchestrator;
pub mod ast;

pub use orchestrator::widget;

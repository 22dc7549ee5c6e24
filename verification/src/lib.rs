//! A query engine over parsed hierarchical markup documents.
//!
//! A pipeline of selection stages — each combining structural selector
//! patterns, substring filters and regex filters, plus a traversal
//! direction — is applied recursively to a document tree.  The elements
//! that satisfy every stage are recorded, counted, or used to
//! short-circuit the whole run, depending on the output mode.

pub mod dom;
pub mod engine;
pub mod laws;
pub mod pattern;
pub mod pipeline;
pub mod recorder;
pub mod split;
pub mod stage;
pub mod text;

//! Sanitization engine: treatments, passes, apply / undo / redo.
pub mod apply;
pub mod diff;
pub mod pass;
pub mod document_ops;
pub mod edits;
pub mod laws;
pub mod treatment;
pub mod treatments;

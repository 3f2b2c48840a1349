//! The in-memory bookmark document model.
pub mod attrs;
pub mod document;
pub mod edit;
pub mod history;
pub mod ids;
pub mod node;
pub mod preserve;
pub mod search;
pub mod tree;
pub mod merge;
pub mod settled;
pub mod numbering;

//! The logic behind the desktop commands: search, filtering and the
//! values the commands hand to the interface.
pub mod glob;
pub mod types;
pub mod filter;
pub mod browse;
pub mod search;
pub mod preview;
pub mod documents;
pub mod catalogue;
pub mod report;

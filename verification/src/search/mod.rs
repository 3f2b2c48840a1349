//! Narrowing a text search over the bookmarks of a document.
pub mod index;

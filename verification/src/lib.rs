//! Lantern: exploring, sanitising and re-exporting browser bookmark files.
//!
//! The library holds the bookmark document model, the sanitisation engine
//! (treatments, passes, apply / undo / redo), the Netscape HTML emitter and
//! parsers, cross-document merge and diff, the search index and the
//! filtering logic used by the user interface.
#![allow(unused_imports)]

pub mod error;
pub mod text;
pub mod listing;
pub mod diff;
pub mod emit;
pub mod urls;
pub mod regexes;
pub mod model;
pub mod sanitize;
pub mod commands;
pub mod parser;
pub mod search;

//! Reading bookmark files: format detection and the tree builders.
//!
//! The caller supplies bytes; nothing here touches the filesystem.
pub mod sniff;
pub mod dom;
pub mod stamp;
pub mod html;
pub mod chrome;

use vstd::prelude::*;
use crate::error::CoreError;
use crate::model::document::{Document, LineEnding};
use crate::model::ids::DocumentId;
use crate::parser::dom::{html_tree, html_tree_of};
use crate::parser::html::{build_document, built_from};
use crate::parser::sniff::{after_bom, detect_line_ending, has_bom, strip_utf8_bom};

verus! {

/// Parse a Netscape / Firefox bookmark HTML file into a document with id
/// `id`: a leading byte order mark is noted and skipped, the line-ending
/// convention is noted, `html5ever` builds the document tree, and the
/// bookmark tree is read from it.
pub fn parse(bytes: &[u8], id: DocumentId) -> (r: Result<Document, CoreError>)
    ensures
        built_from(
            r,
            html_tree_of(after_bom(bytes@)),
            has_bom(bytes@),
            if after_bom(bytes@).contains(0x0Du8) {
                LineEnding::Crlf
            } else {
                LineEnding::Lf
            },
            id,
        ),
{
    let (bom, body) = strip_utf8_bom(bytes);
    let line_ending = detect_line_ending(body);
    let tree = html_tree(body);
    build_document(&tree, bom, line_ending, id)
}

} // verus!

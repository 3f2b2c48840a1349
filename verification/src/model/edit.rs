//! What reading and editing a tree by node id means, stated over views.
use vstd::prelude::*;
use crate::model::document::Field;
use crate::model::node::{url_from_text, BookmarkFlag, BookmarkV, FolderV, NodeId, NodeV};
use crate::model::tree::{
    contains_id, first_path, folder_at, id_at, insert_child, node_at, remove_child, replace_child,
};

verus! {

/// The first path, in document order, to a node with id `id`.
pub open spec fn locate(f: FolderV, id: NodeId) -> Seq<int> {
    first_path(f, id)->0
}

/// The tree holds a node (or is a folder) with id `id`.
pub open spec fn found(f: FolderV, id: NodeId) -> bool {
    first_path(f, id) is Some
}

/// The node with id `id`, below the root (the root itself excluded).
pub open spec fn node_with_id(f: FolderV, id: NodeId) -> Option<NodeV> {
    if found(f, id) && locate(f, id).len() > 0 {
        node_at(f, locate(f, id))
    } else {
        None
    }
}

/// The value of `field` on the node with id `id`: a folder's name, a
/// bookmark's title or URL text; `None` when there is no such node or the
/// field does not apply to it.
pub open spec fn read_field_v(f: FolderV, id: NodeId, field: Field) -> Option<Seq<char>> {
    if !found(f, id) {
        None
    } else if locate(f, id).len() == 0 {
        if field == Field::FolderName { Some(f.name) } else { None }
    } else {
        match node_at(f, locate(f, id))->0 {
            NodeV::Folder(g) => if field == Field::FolderName { Some(g.name) } else { None },
            NodeV::Bookmark(b) => match field {
                Field::Title => Some(b.title),
                Field::Url => Some(b.url.text()),
                Field::FolderName => None,
            },
            NodeV::Separator(_) => None,
        }
    }
}

/// `b` with `field` set to `value`; a URL is re-parsed from the text.
pub open spec fn bookmark_with_field(b: BookmarkV, field: Field, value: Seq<char>) -> BookmarkV {
    match field {
        Field::Title => BookmarkV { title: value, ..b },
        Field::Url => BookmarkV { url: url_from_text(value), ..b },
        Field::FolderName => b,
    }
}

/// The tree with `field` of the node with id `id` set to `value` (unchanged
/// when there is no such node or the field does not apply to it).
pub open spec fn write_field_v(f: FolderV, id: NodeId, field: Field, value: Seq<char>) -> FolderV {
    if !found(f, id) {
        f
    } else if locate(f, id).len() == 0 {
        if field == Field::FolderName { FolderV { name: value, ..f } } else { f }
    } else {
        let p = locate(f, id);
        match node_at(f, p)->0 {
            NodeV::Folder(g) => if field == Field::FolderName {
                replace_child(f, p.drop_last(), p.last(), NodeV::Folder(FolderV { name: value, ..g }))
            } else {
                f
            },
            NodeV::Bookmark(b) => if field == Field::FolderName {
                f
            } else {
                replace_child(f, p.drop_last(), p.last(), NodeV::Bookmark(bookmark_with_field(b, field, value)))
            },
            NodeV::Separator(_) => f,
        }
    }
}

/// The value of `flag` on the bookmark with id `id`.
pub open spec fn read_flag_v(f: FolderV, id: NodeId, flag: BookmarkFlag) -> Option<bool> {
    match node_with_id(f, id) {
        Some(NodeV::Bookmark(b)) => Some(b.is_shortener),
        _ => None,
    }
}

/// The tree with `flag` of the bookmark with id `id` set to `value`.
pub open spec fn write_flag_v(f: FolderV, id: NodeId, flag: BookmarkFlag, value: bool) -> FolderV {
    match node_with_id(f, id) {
        Some(NodeV::Bookmark(b)) => {
            let p = locate(f, id);
            replace_child(f, p.drop_last(), p.last(), NodeV::Bookmark(BookmarkV { is_shortener: value, ..b }))
        },
        _ => f,
    }
}

/// Where the node with id `id` sits: its parent's id, its index among the
/// parent's children, and the node.
pub open spec fn position_v(f: FolderV, id: NodeId) -> Option<(NodeId, int, NodeV)> {
    match node_with_id(f, id) {
        Some(n) => {
            let p = locate(f, id);
            Some((folder_at(f, p.drop_last())->0.id, p.last(), n))
        },
        None => None,
    }
}

/// The tree with the node with id `id` (and its subtree) removed.
pub open spec fn remove_v(f: FolderV, id: NodeId) -> FolderV {
    match node_with_id(f, id) {
        Some(_) => {
            let p = locate(f, id);
            remove_child(f, p.drop_last(), p.last())
        },
        None => f,
    }
}

/// The path to the folder with id `id` (the root included).
pub open spec fn folder_with_id(f: FolderV, id: NodeId) -> Option<FolderV> {
    if found(f, id) {
        folder_at(f, locate(f, id))
    } else {
        None
    }
}

/// The tree with `n` inserted at `index` (clamped) of the folder with id
/// `parent_id`; unchanged when there is no such folder.
pub open spec fn insert_v(f: FolderV, parent_id: NodeId, index: int, n: NodeV) -> FolderV {
    match folder_with_id(f, parent_id) {
        Some(_) => insert_child(f, locate(f, parent_id), index, n),
        None => f,
    }
}

} // verus!

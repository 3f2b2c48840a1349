//! The structural edits of a document (rename, delete, create, move), each
//! recording an undoable entry.
use vstd::prelude::*;
use crate::error::CoreError;
use crate::model::attrs::attr_map_new;
use crate::model::document::{
    entries_v, push_bounded, Document, DocumentStats, Field, InverseKind, InverseKindV, UndoEntry,
};
use crate::model::edit::{folder_with_id, locate, position_v, read_field_v, remove_v, write_field_v};
use crate::model::node::{
    lemma_folder_v, lemma_nodes_v, Bookmark, BookmarkFlags, BookmarkUrl, Folder, FolderV, Node,
    NodeId, NodeV, Separator,
};
use crate::model::tree::{append_child, folder_at, ids_below, insert_child, ipath};
use crate::sanitize::apply::{
    append_node_at, find_node_with_parent, position_of, folder_path, insert_node_at, read_field, take_node,
    write_field,
};
use crate::sanitize::document_ops::{
    create_target, new_bookmark_v, new_folder_v, rename_field, single, single_entry,
};

verus! {

broadcast use {lemma_nodes_v, lemma_folder_v};

/// Where a moved node lands: the tree without it, with the node inserted at
/// `index` (clamped) of the destination (the root for parent id 0).
pub open spec fn moved_v(f: FolderV, id: NodeId, new_parent_id: NodeId, index: int) -> FolderV {
    let f1 = remove_v(f, id);
    match (position_v(f, id), create_target(f1, new_parent_id)) {
        (Some((_, _, n)), Some(p)) => insert_child(f1, p, index, n),
        _ => f1,
    }
}

/// Why `move_node` refuses: the node is missing, the destination folder is
/// missing, or the destination lies inside the moved folder.
pub open spec fn move_refused(f: FolderV, id: NodeId, new_parent_id: NodeId) -> bool {
    match position_v(f, id) {
        None => true,
        Some((_, _, n)) => new_parent_id != 0 && (folder_with_id(f, new_parent_id) is None || (
        n matches NodeV::Folder(g) && folder_with_id(g, new_parent_id) is Some)),
    }
}

/// What `move_node` says when it refuses.
pub open spec fn move_refusal(f: FolderV, id: NodeId, new_parent_id: NodeId) -> Seq<char> {
    if position_v(f, id) is None {
        crate::sanitize::document_ops::message_v("node "@, id as nat, " not found"@)
    } else if folder_with_id(f, new_parent_id) is None {
        crate::sanitize::document_ops::message_v("folder "@, new_parent_id as nat, " not found"@)
    } else {
        crate::sanitize::document_ops::message_v("cannot move folder "@, id as nat, " into its own subtree"@)
    }
}

impl Document {
    /// Push `entry`, clear the redo stack and mark the document dirty.
    fn record(&mut self, entry: UndoEntry)
        ensures
            entries_v(final(self).undo_stack@) == push_bounded(entries_v(old(self).undo_stack@), entry@),
            old(self).undo_stack.len() <= crate::model::document::MAX_UNDO_ENTRIES
                ==> final(self).undo_stack.len() <= crate::model::document::MAX_UNDO_ENTRIES,
            final(self).redo_stack.len() == 0,
            final(self).dirty,
            final(self).history_dropped == old(self).drops_history(),
            final(self).root == old(self).root,
            final(self).id_gen == old(self).id_gen,
            final(self).stats == old(self).stats,
            final(self).same_identity(*old(self)),
    {
        self.push_undo(entry);
        self.redo_stack.clear();
        self.dirty = true;
    }

    /// Rename a node (bookmark title or folder name) and record an undoable
    /// entry.
    ///
    /// Returns `Err` if the node does not exist or is a separator (not
    /// renameable).  Renaming to the current name changes nothing.
    pub fn rename_node(&mut self, node_id: NodeId, new_name: String) -> (r: Result<(), CoreError>)
        ensures
            old(self).wf() ==> final(self).wf(),
            ({
                let f0 = old(self).root@;
                match rename_field(f0, node_id) {
                    None => (r matches Err(CoreError::InvalidOperation(m)) && m@ == crate::sanitize::document_ops::message_v(
                        "node "@,
                        node_id as nat,
                        " not found or not renameable (separators have no name)"@,
                    )) && *final(self) == *old(self),
                    Some(field) => {
                        let old_name = read_field_v(f0, node_id, field)->0;
                        &&& r is Ok
                        &&& old_name == new_name@ ==> *final(self) == *old(self)
                        &&& old_name != new_name@ ==> {
                            &&& final(self).root@ == write_field_v(f0, node_id, field, new_name@)
                            &&& entries_v(final(self).undo_stack@) == push_bounded(
                                entries_v(old(self).undo_stack@),
                                single_entry("rename"@, node_id, InverseKindV::WriteField { field, value: old_name }),
                            )
                            &&& final(self).redo_stack.len() == 0
                            &&& final(self).dirty
                            &&& final(self).history_dropped == old(self).drops_history()
                            &&& final(self).stats == old(self).stats
                            &&& final(self).id_gen == old(self).id_gen
                            &&& final(self).same_identity(*old(self))
                        }
                    },
                }
            }),
    {
        let field = if read_field(&self.root, node_id, Field::Title).is_some() {
            Field::Title
        } else if read_field(&self.root, node_id, Field::FolderName).is_some() {
            Field::FolderName
        } else {
            return Err(CoreError::InvalidOperation(crate::sanitize::document_ops::message(
                "node ",
                node_id,
                " not found or not renameable (separators have no name)",
            )));
        };
        let old_name = read_field(&self.root, node_id, field).unwrap();
        if old_name == new_name {
            return Ok(());
        }
        proof {
            if old(self).wf() {
                let c = crate::sanitize::treatment::ChangeV {
                    node_id,
                    kind: crate::sanitize::treatment::ChangeKindV::SetField { field, before: old_name@, after: new_name@ },
                    treatment_id: Seq::empty(),
                    rationale: Seq::empty(),
                    destructive: false,
                    approved: true,
                };
                crate::sanitize::laws::lemma_step_keeps_ids(self.root@, c, self.id_gen.next_id() as int);
            }
        }
        write_field(&mut self.root, node_id, field, new_name.as_str());
        let entry = single("rename", node_id, InverseKind::WriteField { field, value: old_name });
        self.record(entry);
        Ok(())
    }

    /// Delete a node from the tree and record an undoable entry.
    ///
    /// Returns `Err` if the node is not found.
    pub fn delete_node(&mut self, node_id: NodeId) -> (r: Result<(), CoreError>)
        ensures
            old(self).wf() ==> final(self).wf(),
            ({
                let f0 = old(self).root@;
                match position_v(f0, node_id) {
                    None => (r matches Err(CoreError::InvalidOperation(m)) && m@ == crate::sanitize::document_ops::message_v(
                        "node "@,
                        node_id as nat,
                        " not found"@,
                    )) && *final(self) == *old(self),
                    Some((pid, idx, n)) => {
                        let f1 = remove_v(f0, node_id);
                        &&& r is Ok
                        &&& final(self).root@ == f1
                        &&& entries_v(final(self).undo_stack@) == push_bounded(
                            entries_v(old(self).undo_stack@),
                            single_entry("delete"@, node_id, InverseKindV::RestoreNode { parent_id: pid, index: idx, snapshot: n }),
                        )
                        &&& final(self).redo_stack.len() == 0
                        &&& final(self).dirty
                        &&& final(self).history_dropped == old(self).drops_history()
                        &&& final(self).stats.counts(f1)
                        &&& final(self).id_gen == old(self).id_gen
                        &&& final(self).same_identity(*old(self))
                    },
                }
            }),
    {
        if position_of(&self.root, node_id).is_none() {
            return Err(CoreError::InvalidOperation(
                crate::sanitize::document_ops::message("node ", node_id, " not found"),
            ));
        }
        proof {
            if old(self).wf() {
                let c = crate::sanitize::treatment::ChangeV {
                    node_id,
                    kind: crate::sanitize::treatment::ChangeKindV::DeleteNode,
                    treatment_id: Seq::empty(),
                    rationale: Seq::empty(),
                    destructive: false,
                    approved: true,
                };
                crate::sanitize::laws::lemma_step_keeps_ids(self.root@, c, self.id_gen.next_id() as int);
            }
        }
        let (parent_id, index, snapshot) = take_node(&mut self.root, node_id).unwrap();
        let entry = single("delete", node_id, InverseKind::RestoreNode { parent_id, index, snapshot: Box::new(snapshot) });
        self.record(entry);
        self.stats = DocumentStats::from_root(&self.root);
        Ok(())
    }

    /// Add `node` as the last child of `parent_id` (0 = document root) and
    /// record the entry that removes it again.
    fn create_node(&mut self, parent_id: NodeId, node: Node) -> (r: Result<NodeId, CoreError>)
        ensures
            old(self).undo_stack.len() <= crate::model::document::MAX_UNDO_ENTRIES
                ==> final(self).undo_stack.len() <= crate::model::document::MAX_UNDO_ENTRIES,
            ({
                let f0 = old(self).root@;
                match create_target(f0, parent_id) {
                    None => (r matches Err(CoreError::InvalidOperation(m)) && m@ == crate::sanitize::document_ops::message_v(
                        "folder "@,
                        parent_id as nat,
                        " not found"@,
                    )) && *final(self) == *old(self),
                    Some(p) => {
                        let f1 = append_child(f0, p, node@);
                        &&& r == Ok::<NodeId, CoreError>(node@.id())
                        &&& final(self).root@ == f1
                        &&& entries_v(final(self).undo_stack@) == push_bounded(
                            entries_v(old(self).undo_stack@),
                            single_entry("create"@, node@.id(), InverseKindV::RemoveNode),
                        )
                        &&& final(self).redo_stack.len() == 0
                        &&& final(self).dirty
                        &&& final(self).history_dropped == old(self).drops_history()
                        &&& final(self).stats.counts(f1)
                        &&& final(self).id_gen == old(self).id_gen
                        &&& final(self).same_identity(*old(self))
                    },
                }
            }),
    {
        let new_id = node.id();
        if parent_id == 0 {
            let root_path: Vec<usize> = Vec::new();
            proof {
                assert(ipath(root_path@) =~= Seq::<int>::empty());
            }
            append_node_at(&mut self.root, &root_path, node);
        } else {
            match folder_path(&self.root, parent_id) {
                Some(path) => {
                    append_node_at(&mut self.root, &path, node);
                },
                None => {
                    return Err(CoreError::InvalidOperation(
                        crate::sanitize::document_ops::message("folder ", parent_id, " not found"),
                    ));
                },
            }
        }
        let entry = single("create", new_id, InverseKind::RemoveNode);
        self.record(entry);
        self.stats = DocumentStats::from_root(&self.root);
        Ok(new_id)
    }

    /// Create a new bookmark inside `parent_id` (0 = document root).
    ///
    /// Returns the new node's ID.  The id is taken from the allocator before
    /// the parent is looked up, so a failed call still uses one up.
    pub fn create_bookmark(&mut self, parent_id: NodeId, title: String, url_str: String) -> (r: Result<NodeId, CoreError>)
        requires
            old(self).id_gen.next_id() < u64::MAX,
        ensures
            old(self).wf() ==> final(self).wf(),
            final(self).id_gen.next_id() == old(self).id_gen.next_id() + 1,
            ({
                let f0 = old(self).root@;
                let id = old(self).id_gen.next_id();
                match create_target(f0, parent_id) {
                    None => (r matches Err(CoreError::InvalidOperation(m)) && m@ == crate::sanitize::document_ops::message_v(
                        "folder "@,
                        parent_id as nat,
                        " not found"@,
                    )) && final(self).root == old(self).root
                        && final(self).undo_stack == old(self).undo_stack
                        && final(self).redo_stack == old(self).redo_stack
                        && final(self).dirty == old(self).dirty && final(self).history_dropped == old(self).history_dropped
                        && final(self).stats == old(self).stats
                        && final(self).same_identity(*old(self)),
                    Some(p) => {
                        let f1 = append_child(f0, p, new_bookmark_v(id, title@, url_str@));
                        &&& r == Ok::<NodeId, CoreError>(id)
                        &&& final(self).root@ == f1
                        &&& entries_v(final(self).undo_stack@) == push_bounded(
                            entries_v(old(self).undo_stack@),
                            single_entry("create"@, id, InverseKindV::RemoveNode),
                        )
                        &&& final(self).redo_stack.len() == 0
                        &&& final(self).dirty
                        &&& final(self).history_dropped == old(self).drops_history()
                        &&& final(self).stats.counts(f1)
                        &&& final(self).same_identity(*old(self))
                    },
                }
            }),
    {
        let new_id = self.id_gen.alloc_id();
        let url = BookmarkUrl::parse(url_str.as_str());
        let node = Node::Bookmark(Bookmark {
            id: new_id,
            title,
            url,
            add_date: None,
            last_modified: None,
            icon_blob: None,
            description: None,
            attrs: attr_map_new(),
            flags: BookmarkFlags::default(),
        });
        proof {
            assert(node@ == new_bookmark_v(new_id, title@, url_str@));
        }
        proof {
            if old(self).wf() && create_target(old(self).root@, parent_id) is Some {
                crate::sanitize::laws::create_then_undo_then_redo(old(self).root@, parent_id, node@);
            }
            if old(self).wf() {
                assert(ids_below(self.root@, self.id_gen.next_id() as int));
                if create_target(old(self).root@, parent_id) is Some {
                    if parent_id != 0 {
                        crate::model::tree::lemma_first_path(old(self).root@, parent_id);
                    }
                    crate::model::settled::lemma_append_settled(
                        old(self).root@,
                        create_target(old(self).root@, parent_id)->0,
                        node@,
                    );
                }
            }
        }
        self.create_node(parent_id, node)
    }

    /// Create a new folder inside `parent_id` (0 = document root).
    ///
    /// Returns the new node's ID.  The id is taken from the allocator before
    /// the parent is looked up, so a failed call still uses one up.
    pub fn create_folder(&mut self, parent_id: NodeId, name: String) -> (r: Result<NodeId, CoreError>)
        requires
            old(self).id_gen.next_id() < u64::MAX,
        ensures
            old(self).wf() ==> final(self).wf(),
            final(self).id_gen.next_id() == old(self).id_gen.next_id() + 1,
            ({
                let f0 = old(self).root@;
                let id = old(self).id_gen.next_id();
                match create_target(f0, parent_id) {
                    None => (r matches Err(CoreError::InvalidOperation(m)) && m@ == crate::sanitize::document_ops::message_v(
                        "folder "@,
                        parent_id as nat,
                        " not found"@,
                    )) && final(self).root == old(self).root
                        && final(self).undo_stack == old(self).undo_stack
                        && final(self).redo_stack == old(self).redo_stack
                        && final(self).dirty == old(self).dirty && final(self).history_dropped == old(self).history_dropped
                        && final(self).stats == old(self).stats
                        && final(self).same_identity(*old(self)),
                    Some(p) => {
                        let f1 = append_child(f0, p, new_folder_v(id, name@));
                        &&& r == Ok::<NodeId, CoreError>(id)
                        &&& final(self).root@ == f1
                        &&& entries_v(final(self).undo_stack@) == push_bounded(
                            entries_v(old(self).undo_stack@),
                            single_entry("create"@, id, InverseKindV::RemoveNode),
                        )
                        &&& final(self).redo_stack.len() == 0
                        &&& final(self).dirty
                        &&& final(self).history_dropped == old(self).drops_history()
                        &&& final(self).stats.counts(f1)
                        &&& final(self).same_identity(*old(self))
                    },
                }
            }),
    {
        let new_id = self.id_gen.alloc_id();
        let node = Node::Folder(Folder {
            id: new_id,
            name,
            add_date: None,
            last_modified: None,
            is_toolbar: false,
            attrs: attr_map_new(),
            children: Vec::new(),
        });
        proof {
            assert(node@ == new_folder_v(new_id, name@));
        }
        proof {
            if old(self).wf() && create_target(old(self).root@, parent_id) is Some {
                crate::sanitize::laws::create_then_undo_then_redo(old(self).root@, parent_id, node@);
            }
            if old(self).wf() {
                assert(ids_below(self.root@, self.id_gen.next_id() as int));
                if create_target(old(self).root@, parent_id) is Some {
                    if parent_id != 0 {
                        crate::model::tree::lemma_first_path(old(self).root@, parent_id);
                    }
                    crate::model::settled::lemma_append_settled(
                        old(self).root@,
                        create_target(old(self).root@, parent_id)->0,
                        node@,
                    );
                }
            }
        }
        self.create_node(parent_id, node)
    }

    /// Create a new separator inside `parent_id` (0 = document root).
    ///
    /// Returns the new node's ID.  The id is taken from the allocator before
    /// the parent is looked up, so a failed call still uses one up.
    pub fn create_separator(&mut self, parent_id: NodeId) -> (r: Result<NodeId, CoreError>)
        requires
            old(self).id_gen.next_id() < u64::MAX,
        ensures
            old(self).wf() ==> final(self).wf(),
            final(self).id_gen.next_id() == old(self).id_gen.next_id() + 1,
            ({
                let f0 = old(self).root@;
                let id = old(self).id_gen.next_id();
                match create_target(f0, parent_id) {
                    None => (r matches Err(CoreError::InvalidOperation(m)) && m@ == crate::sanitize::document_ops::message_v(
                        "folder "@,
                        parent_id as nat,
                        " not found"@,
                    )) && final(self).root == old(self).root
                        && final(self).undo_stack == old(self).undo_stack
                        && final(self).redo_stack == old(self).redo_stack
                        && final(self).dirty == old(self).dirty && final(self).history_dropped == old(self).history_dropped
                        && final(self).stats == old(self).stats
                        && final(self).same_identity(*old(self)),
                    Some(p) => {
                        let f1 = append_child(f0, p, NodeV::Separator(id));
                        &&& r == Ok::<NodeId, CoreError>(id)
                        &&& final(self).root@ == f1
                        &&& entries_v(final(self).undo_stack@) == push_bounded(
                            entries_v(old(self).undo_stack@),
                            single_entry("create"@, id, InverseKindV::RemoveNode),
                        )
                        &&& final(self).redo_stack.len() == 0
                        &&& final(self).dirty
                        &&& final(self).history_dropped == old(self).drops_history()
                        &&& final(self).stats.counts(f1)
                        &&& final(self).same_identity(*old(self))
                    },
                }
            }),
    {
        let new_id = self.id_gen.alloc_id();
        let node = Node::Separator(Separator { id: new_id });
        proof {
            if old(self).wf() && create_target(old(self).root@, parent_id) is Some {
                crate::sanitize::laws::create_then_undo_then_redo(old(self).root@, parent_id, node@);
            }
            if old(self).wf() {
                assert(ids_below(self.root@, self.id_gen.next_id() as int));
                if create_target(old(self).root@, parent_id) is Some {
                    if parent_id != 0 {
                        crate::model::tree::lemma_first_path(old(self).root@, parent_id);
                    }
                    crate::model::settled::lemma_append_settled(
                        old(self).root@,
                        create_target(old(self).root@, parent_id)->0,
                        node@,
                    );
                }
            }
        }
        self.create_node(parent_id, node)
    }

    /// Move `node_id` to position `new_index` within `new_parent_id` (0 =
    /// root).
    ///
    /// Captures the original position and records an undoable entry.  Clamps
    /// `new_index` to the folder length after removal.  Refuses a missing
    /// node, a missing destination, and a destination inside the moved
    /// folder.
    pub fn move_node(&mut self, node_id: NodeId, new_parent_id: NodeId, new_index: usize) -> (r: Result<(), CoreError>)
        ensures
            ({
                let f0 = old(self).root@;
                &&& move_refused(f0, node_id, new_parent_id) ==> (r matches Err(CoreError::InvalidOperation(m)) && m@
                    == move_refusal(f0, node_id, new_parent_id)) && *final(self) == *old(self)
                &&& !move_refused(f0, node_id, new_parent_id) ==> {
                    let (pid, idx, _) = position_v(f0, node_id)->0;
                    &&& r is Ok
                    &&& final(self).root@ == moved_v(f0, node_id, new_parent_id, new_index as int)
                    &&& entries_v(final(self).undo_stack@) == push_bounded(
                        entries_v(old(self).undo_stack@),
                        single_entry("move"@, node_id, InverseKindV::MoveNode { to_parent_id: pid, to_index: idx }),
                    )
                    &&& final(self).redo_stack.len() == 0
                    &&& final(self).dirty
                    &&& final(self).history_dropped == old(self).drops_history()
                    &&& final(self).stats == old(self).stats
                    &&& final(self).id_gen == old(self).id_gen
                    &&& final(self).same_identity(*old(self))
                }
            }),
    {
        let (old_parent_id, old_index, found_node) = match find_node_with_parent(&self.root, node_id) {
            Some(t) => t,
            None => {
                return Err(CoreError::InvalidOperation(
                    crate::sanitize::document_ops::message("node ", node_id, " not found"),
                ));
            },
        };
        if new_parent_id != 0 {
            if folder_path(&self.root, new_parent_id).is_none() {
                return Err(CoreError::InvalidOperation(
                    crate::sanitize::document_ops::message("folder ", new_parent_id, " not found"),
                ));
            }
            if let Node::Folder(f) = &found_node {
                if folder_path(f, new_parent_id).is_some() {
                    return Err(CoreError::InvalidOperation(crate::sanitize::document_ops::message(
                        "cannot move folder ",
                        node_id,
                        " into its own subtree",
                    )));
                }
            }
        }
        let ghost f0 = self.root@;
        let node = take_node(&mut self.root, node_id).unwrap().2;
        if new_parent_id == 0 {
            let root_path: Vec<usize> = Vec::new();
            proof {
                assert(ipath(root_path@) =~= Seq::<int>::empty());
            }
            insert_node_at(&mut self.root, &root_path, new_index, node);
        } else {
            if let Some(path) = folder_path(&self.root, new_parent_id) {
                insert_node_at(&mut self.root, &path, new_index, node);
            }
        }
        let entry = single(
            "move",
            node_id,
            InverseKind::MoveNode { to_parent_id: old_parent_id, to_index: old_index },
        );
        self.record(entry);
        Ok(())
    }
}

} // verus!

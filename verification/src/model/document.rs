//! Documents, their cached statistics, header metadata and undo history.
use vstd::prelude::*;
use crate::model::ids::{DocumentId, NodeIdAllocator};
use crate::model::node::{
    lemma_folder_v, lemma_nodes_v, node_v, nodes_v, BookmarkFlag, Folder, FolderV, Node, NodeId,
    NodeV,
};
use crate::model::tree::{ids_below, unique_ids};
use crate::model::settled::urls_settled;

verus! {

broadcast use {lemma_nodes_v, lemma_folder_v};

// ---------------------------------------------------------------------------
// DocumentStats
// ---------------------------------------------------------------------------

/// Counts of bookmarks, folders and separators among `ns` and all their
/// descendants.
pub open spec fn tally(ns: Seq<NodeV>) -> (nat, nat, nat)
    decreases ns,
{
    if ns.len() == 0 {
        (0, 0, 0)
    } else {
        let rest = tally(ns.subrange(0, ns.len() - 1));
        match ns[ns.len() - 1] {
            NodeV::Folder(f) => {
                let sub = tally(f.children);
                (rest.0 + sub.0, rest.1 + sub.1 + 1, rest.2 + sub.2)
            },
            NodeV::Bookmark(_) => (rest.0 + 1, rest.1, rest.2),
            NodeV::Separator(_) => (rest.0, rest.1, rest.2 + 1),
        }
    }
}

/// `n` as a `u64`, saturating at `u64::MAX`.
pub open spec fn sat(n: int) -> u64 {
    if n <= u64::MAX { n as u64 } else { u64::MAX }
}

/// Cached counts for a document.
#[derive(Debug, Clone, Copy, Default)]
pub struct DocumentStats {
    pub bookmark_count: u64,
    pub folder_count: u64,
    pub separator_count: u64,
}

impl DocumentStats {
    /// The counts describe the tree below `root` (saturating at `u64::MAX`).
    pub open spec fn counts(self, root: FolderV) -> bool {
        let t = tally(root.children);
        &&& self.bookmark_count == sat(t.0 as int)
        &&& self.folder_count == sat(t.1 as int)
        &&& self.separator_count == sat(t.2 as int)
    }

    /// Walk `root` and count all nodes below it by type.
    pub fn from_root(root: &Folder) -> (r: Self)
        ensures
            r.counts(root@),
    {
        let mut stats = DocumentStats { bookmark_count: 0, folder_count: 0, separator_count: 0 };
        Self::count_recursive(root, &mut stats);
        stats
    }

    fn count_recursive(folder: &Folder, stats: &mut Self)
        ensures
            ({
                let t = tally(folder@.children);
                &&& final(stats).bookmark_count == sat(old(stats).bookmark_count + t.0)
                &&& final(stats).folder_count == sat(old(stats).folder_count + t.1)
                &&& final(stats).separator_count == sat(old(stats).separator_count + t.2)
            }),
        decreases folder,
    {
        let n = folder.children.len();
        let mut i: usize = 0;
        let ghost cs = folder@.children;
        while i < n
            invariant
                n == folder.children.len(),
                i <= n,
                cs == folder@.children,
                cs.len() == n,
                ({
                    let t = tally(cs.subrange(0, i as int));
                    &&& stats.bookmark_count == sat(old(stats).bookmark_count + t.0)
                    &&& stats.folder_count == sat(old(stats).folder_count + t.1)
                    &&& stats.separator_count == sat(old(stats).separator_count + t.2)
                }),
            decreases n - i,
        {
            proof {
                assert(cs.subrange(0, i + 1).subrange(0, i as int) =~= cs.subrange(0, i as int));
                assert(cs[i as int] == node_v(folder.children@[i as int]));
            }
            match &folder.children[i] {
                Node::Folder(f) => {
                    proof {
                        assert(decreases_to!(folder => folder.children));
                        assert(decreases_to!(folder.children => folder.children@));
                        assert(decreases_to!(folder.children@ => folder.children@[i as int]));
                    }
                    stats.folder_count = stats.folder_count.saturating_add(1);
                    Self::count_recursive(f, stats);
                },
                Node::Bookmark(_) => {
                    stats.bookmark_count = stats.bookmark_count.saturating_add(1);
                },
                Node::Separator(_) => {
                    stats.separator_count = stats.separator_count.saturating_add(1);
                },
            }
            i += 1;
        }
        proof {
            assert(cs.subrange(0, n as int) =~= cs);
        }
    }
}

// ---------------------------------------------------------------------------
// HeaderMetadata
// ---------------------------------------------------------------------------

/// Line ending convention detected in the original file.
#[derive(Debug, Clone, Copy, PartialEq, Eq, Structural)]
pub enum LineEnding {
    Lf,
    Crlf,
}

impl Default for LineEnding {
    fn default() -> (r: Self)
        ensures
            r == LineEnding::Lf,
    {
        LineEnding::Lf
    }
}

/// Metadata from the Netscape bookmark file's preamble.
#[derive(Debug, Clone)]
pub struct HeaderMetadata {
    pub charset: Option<String>,
    /// Contents of the `<TITLE>` element (typically `"Bookmarks"`).
    pub title: Option<String>,
    /// True if a UTF-8 BOM was present at the start of the file.
    pub has_bom: bool,
    pub line_ending: LineEnding,
}

impl Default for HeaderMetadata {
    fn default() -> (r: Self)
        ensures
            r.charset is Some && r.charset->0@ == "UTF-8"@,
            r.title is Some && r.title->0@ == "Bookmarks"@,
            !r.has_bom,
            r.line_ending == LineEnding::Lf,
    {
        HeaderMetadata {
            charset: Some("UTF-8".to_string()),
            title: Some("Bookmarks".to_string()),
            has_bom: false,
            line_ending: LineEnding::Lf,
        }
    }
}

// ---------------------------------------------------------------------------
// Undo model
// ---------------------------------------------------------------------------

/// Which text field of a node a change targets.
#[derive(Debug, Clone, Copy, PartialEq, Eq, Structural)]
pub enum Field {
    Url,
    Title,
    FolderName,
}

/// The kind of a single undo/redo inverse operation.
#[derive(Debug)]
pub enum InverseKind {
    /// Restore a single text field to its previous value.
    WriteField { field: Field, value: String },
    /// Re-insert a previously deleted node at its original position.
    RestoreNode { parent_id: NodeId, index: usize, snapshot: Box<Node> },
    /// Remove a node that was created.
    RemoveNode,
    /// Restore a bookmark flag to its previous value.
    WriteFlag { flag: BookmarkFlag, value: bool },
    /// Move a node back to a previous `(parent_id, index)` position.
    MoveNode { to_parent_id: NodeId, to_index: usize },
}

pub enum InverseKindV {
    WriteField { field: Field, value: Seq<char> },
    RestoreNode { parent_id: NodeId, index: int, snapshot: NodeV },
    RemoveNode,
    WriteFlag { flag: BookmarkFlag, value: bool },
    MoveNode { to_parent_id: NodeId, to_index: int },
}

impl View for InverseKind {
    type V = InverseKindV;

    open spec fn view(&self) -> InverseKindV {
        match self {
            InverseKind::WriteField { field, value } => InverseKindV::WriteField {
                field: *field,
                value: value@,
            },
            InverseKind::RestoreNode { parent_id, index, snapshot } => InverseKindV::RestoreNode {
                parent_id: *parent_id,
                index: *index as int,
                snapshot: node_v(**snapshot),
            },
            InverseKind::RemoveNode => InverseKindV::RemoveNode,
            InverseKind::WriteFlag { flag, value } => InverseKindV::WriteFlag {
                flag: *flag,
                value: *value,
            },
            InverseKind::MoveNode { to_parent_id, to_index } => InverseKindV::MoveNode {
                to_parent_id: *to_parent_id,
                to_index: *to_index as int,
            },
        }
    }
}

/// The inverse of a single applied operation.
#[derive(Debug)]
pub struct InverseChange {
    pub node_id: NodeId,
    pub kind: InverseKind,
}

pub struct InverseV {
    pub node_id: NodeId,
    pub kind: InverseKindV,
}

impl View for InverseChange {
    type V = InverseV;

    open spec fn view(&self) -> InverseV {
        InverseV { node_id: self.node_id, kind: self.kind@ }
    }
}

/// One item on the undo stack, corresponding to one apply / structural edit.
#[derive(Debug)]
pub struct UndoEntry {
    /// Name of the operation that produced this entry (rule-set name,
    /// "rename", "delete", "create", "move", …).
    pub rule_set_name: String,
    pub inverses: Vec<InverseChange>,
}

pub struct UndoEntryV {
    pub name: Seq<char>,
    pub inverses: Seq<InverseV>,
}

pub open spec fn inverses_v(s: Seq<InverseChange>) -> Seq<InverseV> {
    s.map_values(|c: InverseChange| c@)
}

impl View for UndoEntry {
    type V = UndoEntryV;

    open spec fn view(&self) -> UndoEntryV {
        UndoEntryV { name: self.rule_set_name@, inverses: inverses_v(self.inverses@) }
    }
}

pub open spec fn entries_v(s: Seq<UndoEntry>) -> Seq<UndoEntryV> {
    s.map_values(|e: UndoEntry| e@)
}

/// Maximum number of undo entries retained per document.
pub const MAX_UNDO_ENTRIES: usize = 100;

/// `s` with `e` pushed, the oldest entry dropped when over the limit.
pub open spec fn push_bounded(s: Seq<UndoEntryV>, e: UndoEntryV) -> Seq<UndoEntryV> {
    if s.len() + 1 > MAX_UNDO_ENTRIES {
        s.push(e).subrange(1, s.len() as int + 1)
    } else {
        s.push(e)
    }
}

// ---------------------------------------------------------------------------
// Document
// ---------------------------------------------------------------------------

/// An opened bookmark file, held entirely in memory.
#[derive(Debug)]
pub struct Document {
    pub id: DocumentId,
    /// Original file path if this document was loaded from disk.
    pub path: Option<String>,
    pub root: Folder,
    pub header: HeaderMetadata,
    pub id_gen: NodeIdAllocator,
    pub stats: DocumentStats,
    /// Undo history for this document. Index 0 is the oldest entry.
    pub undo_stack: Vec<UndoEntry>,
    pub redo_stack: Vec<UndoEntry>,
    /// True if any pass has been applied (and not fully undone) since open.
    pub dirty: bool,
    /// True once the undo stack has dropped its oldest entry: an edit made
    /// since open can then no longer be undone.
    pub history_dropped: bool,
}

/// The largest id in the tree rooted at `f` (the folder itself included).
pub open spec fn is_max_id(f: FolderV, m: NodeId) -> bool {
    ids_below(f, m + 1) && crate::model::tree::contains_id(f, m)
}

impl Document {
    /// The document invariants: node ids are unique, every id is below the
    /// allocator's next id, every URL is settled (parsing its text gives it
    /// back), and the undo stack is bounded.
    pub open spec fn wf(self) -> bool {
        &&& unique_ids(self.root@)
        &&& urls_settled(self.root@)
        &&& ids_below(self.root@, self.id_gen.next_id() as int)
        &&& self.undo_stack.len() <= MAX_UNDO_ENTRIES
    }

    /// Whether pushing one more undo entry leaves history dropped: it was
    /// dropped already, or the stack is full and loses its oldest entry.
    pub open spec fn drops_history(self) -> bool {
        self.history_dropped || self.undo_stack.len() + 1 > MAX_UNDO_ENTRIES
    }

    /// Returns `true` if there is at least one entry to undo.
    pub fn can_undo(&self) -> (r: bool)
        ensures
            r == (self.undo_stack.len() > 0),
    {
        self.undo_stack.len() > 0
    }

    /// Returns `true` if there is at least one entry to redo.
    pub fn can_redo(&self) -> (r: bool)
        ensures
            r == (self.redo_stack.len() > 0),
    {
        self.redo_stack.len() > 0
    }
}

} // verus!

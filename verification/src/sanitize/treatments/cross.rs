//! Whole-document treatments: removing folders that hold no bookmark.
use vstd::prelude::*;
use crate::model::document::Document;
use crate::model::node::{lemma_folder_v, lemma_nodes_v, node_v, Folder, FolderV, Node, NodeV};
use crate::sanitize::treatment::{changes_v, Change, ChangeKindV, ChangeV, PassContext, TreatmentCategory};

verus! {

broadcast use {lemma_nodes_v, lemma_folder_v};

/// No bookmark among `ns` or below them.
pub open spec fn no_bookmarks(ns: Seq<NodeV>) -> bool
    decreases ns,
{
    if ns.len() == 0 {
        true
    } else {
        let rest = no_bookmarks(ns.subrange(0, ns.len() - 1));
        match ns[ns.len() - 1] {
            NodeV::Bookmark(_) => false,
            NodeV::Folder(f) => rest && no_bookmarks(f.children),
            NodeV::Separator(_) => rest,
        }
    }
}

/// The deletion of an empty folder.
pub open spec fn empty_folder_delete(id: crate::model::node::NodeId) -> ChangeV {
    ChangeV {
        node_id: id,
        kind: ChangeKindV::DeleteNode,
        treatment_id: "cross.empty_folders"@,
        rationale: "Folder contains no bookmarks"@,
        destructive: true,
        approved: false,
    }
}

/// In document order: the folders among `ns` that hold no bookmark, and,
/// inside the others, the same again (a folder to delete is not looked
/// into).
pub open spec fn empty_folder_deletes(ns: Seq<NodeV>) -> Seq<ChangeV>
    decreases ns,
{
    if ns.len() == 0 {
        Seq::empty()
    } else {
        let rest = empty_folder_deletes(ns.subrange(0, ns.len() - 1));
        match ns[ns.len() - 1] {
            NodeV::Folder(f) => if no_bookmarks(f.children) {
                rest.push(empty_folder_delete(f.id))
            } else {
                rest + empty_folder_deletes(f.children)
            },
            _ => rest,
        }
    }
}

fn has_no_bookmarks(folder: &Folder) -> (r: bool)
    ensures
        r == no_bookmarks(folder@.children),
    decreases folder,
{
    let ghost cs = folder@.children;
    let mut i: usize = 0;
    while i < folder.children.len()
        invariant
            cs == folder@.children,
            i <= folder.children.len(),
            no_bookmarks(cs.subrange(0, i as int)),
        decreases folder.children.len() - i,
    {
        proof {
            assert(cs.subrange(0, i + 1).subrange(0, i as int) =~= cs.subrange(0, i as int));
            assert(cs[i as int] == node_v(folder.children@[i as int]));
        }
        match &folder.children[i] {
            Node::Bookmark(_) => {
                proof {
                    lemma_no_bookmarks_prefix(cs, i as int + 1);
                }
                return false;
            },
            Node::Folder(f) => {
                proof {
                    assert(decreases_to!(folder => folder.children));
                    assert(decreases_to!(folder.children => folder.children@));
                    assert(decreases_to!(folder.children@ => folder.children@[i as int]));
                }
                if !has_no_bookmarks(f) {
                    proof {
                        lemma_no_bookmarks_prefix(cs, i as int + 1);
                    }
                    return false;
                }
            },
            Node::Separator(_) => {},
        }
        i += 1;
    }
    proof {
        assert(cs.subrange(0, cs.len() as int) =~= cs);
    }
    true
}

/// A prefix holding a bookmark means the whole holds one.
proof fn lemma_no_bookmarks_prefix(ns: Seq<NodeV>, k: int)
    requires
        0 <= k <= ns.len(),
        !no_bookmarks(ns.subrange(0, k)),
    ensures
        !no_bookmarks(ns),
    decreases ns.len() - k,
{
    if k < ns.len() {
        assert(ns.subrange(0, k + 1).subrange(0, k) =~= ns.subrange(0, k));
        lemma_no_bookmarks_prefix(ns, k + 1);
    } else {
        assert(ns.subrange(0, k) =~= ns);
    }
}

fn collect_empty_folder_deletes(folder: &Folder, changes: &mut Vec<Change>)
    ensures
        changes_v(final(changes)@) == changes_v(old(changes)@) + empty_folder_deletes(folder@.children),
    decreases folder,
{
    let ghost cs = folder@.children;
    let ghost start = changes_v(changes@);
    let mut i: usize = 0;
    proof {
        assert(start + Seq::<ChangeV>::empty() =~= start);
    }
    while i < folder.children.len()
        invariant
            cs == folder@.children,
            i <= folder.children.len(),
            changes_v(changes@) == start + empty_folder_deletes(cs.subrange(0, i as int)),
        decreases folder.children.len() - i,
    {
        proof {
            assert(cs.subrange(0, i + 1).subrange(0, i as int) =~= cs.subrange(0, i as int));
            assert(cs[i as int] == node_v(folder.children@[i as int]));
        }
        let ghost before = changes_v(changes@);
        if let Node::Folder(f) = &folder.children[i] {
            proof {
                assert(decreases_to!(folder => folder.children));
                assert(decreases_to!(folder.children => folder.children@));
                assert(decreases_to!(folder.children@ => folder.children@[i as int]));
            }
            if has_no_bookmarks(f) {
                changes.push(Change::delete_node(f.id, "cross.empty_folders", "Folder contains no bookmarks"));
                proof {
                    assert(changes_v(changes@) =~= before.push(empty_folder_delete(f.id)));
                }
            } else {
                collect_empty_folder_deletes(f, changes);
                proof {
                    assert(changes_v(changes@) =~= start + empty_folder_deletes(cs.subrange(0, i + 1)));
                }
            }
        }
        i += 1;
    }
    proof {
        assert(cs.subrange(0, cs.len() as int) =~= cs);
    }
}

/// Proposes deleting every folder that holds no bookmark at any depth.
/// Destructive; the document root itself is never proposed.
#[derive(Debug, Clone, Copy)]
pub struct EmptyFoldersTreatment;

impl EmptyFoldersTreatment {
    pub fn id(&self) -> (r: &'static str)
        ensures
            r@ == "cross.empty_folders"@,
    {
        "cross.empty_folders"
    }

    pub fn name(&self) -> (r: &'static str)
        ensures
            r@ == "Remove empty folders"@,
    {
        "Remove empty folders"
    }

    pub fn category(&self) -> (r: TreatmentCategory)
        ensures
            r == TreatmentCategory::CrossField,
    {
        TreatmentCategory::CrossField
    }

    pub fn is_destructive(&self) -> (r: bool)
        ensures
            r,
    {
        true
    }

    /// Per-node proposals: none; all work happens over the whole document.
    pub fn propose(&self, node: &Node, ctx: &PassContext) -> (r: Vec<Change>)
        ensures
            r@.len() == 0,
    {
        Vec::new()
    }

    /// The deletions of the empty folders of the document, in document
    /// order.
    pub fn propose_document(&self, doc: &Document, ctx: &PassContext) -> (r: Vec<Change>)
        ensures
            changes_v(r@) == empty_folder_deletes(doc.root@.children),
    {
        let mut changes: Vec<Change> = Vec::new();
        collect_empty_folder_deletes(&doc.root, &mut changes);
        proof {
            assert(changes_v(Seq::<Change>::empty()) + empty_folder_deletes(doc.root@.children)
                =~= empty_folder_deletes(doc.root@.children));
        }
        changes
    }
}

} // verus!

//! Editing a document tree by node id, `Document::apply`, `undo`, `redo` and
//! the structural edits (rename, delete, create, move).
use vstd::prelude::*;
use crate::model::attrs::attr_map_clone;
use crate::model::document::{Field, InverseChange, InverseKind};
use crate::model::history::{apply_inverse_v, apply_step, capture_v, change_target_present};
use crate::sanitize::treatment::{Change, ChangeKind};
use crate::model::edit::{
    found, folder_with_id, insert_v, locate, node_with_id, position_v, read_field_v, read_flag_v,
    remove_v, write_field_v, write_flag_v, bookmark_with_field,
};
use crate::model::node::{
    lemma_folder_v, lemma_nodes_v, node_v, nodes_v, Bookmark, BookmarkFlag, BookmarkUrl, Folder,
    FolderV, Node, NodeId, NodeV, BookmarkV,
};
use crate::model::search::{find_path, placeholder_folder, swap_folder_at};
use crate::model::tree::{
    contains_id, folder_at, id_at, insert_child, ipath, lemma_folder_at_with, lemma_id_at_child,
    lemma_node_at_parent, lemma_with_folder_at_twice, lemma_remove_insert, lemma_replace_same, lemma_folder_at_node, node_at, remove_child, replace_child,
    unique_ids, with_children, with_folder_at,
};

verus! {

broadcast use {lemma_nodes_v, lemma_folder_v};


/// The node at `p[k..]`.
fn node_ref_at<'a>(f: &'a Folder, p: &Vec<usize>, k: usize) -> (r: &'a Node)
    requires
        k < p.len(),
        node_at(f@, ipath(p@).subrange(k as int, p.len() as int)) is Some,
    ensures
        r@ == node_at(f@, ipath(p@).subrange(k as int, p.len() as int))->0,
    decreases p.len() - k,
{
    let ghost q = ipath(p@).subrange(k as int, p.len() as int);
    let i = p[k];
    proof {
        assert(q[0] == i as int);
        assert(q.subrange(1, q.len() as int) =~= ipath(p@).subrange(k + 1, p.len() as int));
    }
    if k + 1 == p.len() {
        &f.children[i]
    } else {
        match &f.children[i] {
            Node::Folder(c) => node_ref_at(c, p, k + 1),
            _ => {
                proof {
                    assert(false);
                }
                &f.children[i]
            },
        }
    }
}

/// Split a non-empty path into its parent path and last index.
fn split_last(p: &Vec<usize>) -> (r: (Vec<usize>, usize))
    requires
        p.len() > 0,
    ensures
        ipath(r.0@) == ipath(p@).drop_last(),
        r.1 as int == ipath(p@).last(),
{
    let mut q = p.clone();
    let last = q.pop().unwrap();
    proof {
        assert(ipath(q@) =~= ipath(p@).drop_last());
    }
    (q, last)
}

/// Remove and return child `i` of the folder at `q`.
fn remove_node_at(root: &mut Folder, q: &Vec<usize>, i: usize) -> (n: Node)
    requires
        folder_at(old(root)@, ipath(q@)) is Some,
        i < folder_at(old(root)@, ipath(q@))->0.children.len(),
    ensures
        n@ == folder_at(old(root)@, ipath(q@))->0.children[i as int],
        final(root)@ == remove_child(old(root)@, ipath(q@), i as int),
{
    let ghost qq = ipath(q@);
    let ghost g0 = folder_at(old(root)@, qq)->0;
    proof {
        assert(qq.subrange(0, q.len() as int) =~= qq);
    }
    let ph = placeholder_folder();
    let ghost phv = ph@;
    let mut g = swap_folder_at(root, q, 0, ph);
    let ghost gc = g.children@;
    let n = g.children.remove(i);
    proof {
        lemma_folder_at_with(old(root)@, qq, phv);
        assert(nodes_v(g.children@) =~= nodes_v(gc).remove(i as int));
        assert(g@ == with_children(g0, g0.children.remove(i as int)));
    }
    let _ = swap_folder_at(root, q, 0, g);
    proof {
        lemma_with_folder_at_twice(old(root)@, qq, phv, with_children(g0, g0.children.remove(i as int)));
    }
    n
}

/// Insert `n` at index `i` (clamped) of the folder at `q`.
pub(crate) fn insert_node_at(root: &mut Folder, q: &Vec<usize>, i: usize, n: Node)
    requires
        folder_at(old(root)@, ipath(q@)) is Some,
    ensures
        final(root)@ == insert_child(old(root)@, ipath(q@), i as int, n@),
{
    let ghost qq = ipath(q@);
    let ghost g0 = folder_at(old(root)@, qq)->0;
    proof {
        assert(qq.subrange(0, q.len() as int) =~= qq);
    }
    let ph = placeholder_folder();
    let ghost phv = ph@;
    let mut g = swap_folder_at(root, q, 0, ph);
    let ghost gc = g.children@;
    let at = if i < g.children.len() { i } else { g.children.len() };
    let ghost nv = n@;
    g.children.insert(at, n);
    proof {
        lemma_folder_at_with(old(root)@, qq, phv);
        assert(nodes_v(g.children@) =~= nodes_v(gc).insert(at as int, nv));
        assert(g@ == with_children(g0, g0.children.insert(at as int, nv)));
    }
    let _ = swap_folder_at(root, q, 0, g);
    proof {
        lemma_with_folder_at_twice(old(root)@, qq, phv, with_children(g0, g0.children.insert(at as int, nv)));
    }
}

/// Add `n` after the last child of the folder at `q`.
pub(crate) fn append_node_at(root: &mut Folder, q: &Vec<usize>, n: Node)
    requires
        folder_at(old(root)@, ipath(q@)) is Some,
    ensures
        final(root)@ == crate::model::tree::append_child(old(root)@, ipath(q@), n@),
{
    proof {
        assert(ipath(q@).subrange(0, q.len() as int) =~= ipath(q@));
    }
    let len = folder_ref_at(root, q, 0).children.len();
    insert_node_at(root, q, len, n);
}

/// Replace child `i` of the folder at `q` by `n`, returning the old child.
fn replace_node_at(root: &mut Folder, q: &Vec<usize>, i: usize, n: Node) -> (old_n: Node)
    requires
        folder_at(old(root)@, ipath(q@)) is Some,
        i < folder_at(old(root)@, ipath(q@))->0.children.len(),
    ensures
        old_n@ == folder_at(old(root)@, ipath(q@))->0.children[i as int],
        final(root)@ == replace_child(old(root)@, ipath(q@), i as int, n@),
{
    let ghost qq = ipath(q@);
    let ghost g0 = folder_at(old(root)@, qq)->0;
    proof {
        assert(qq.subrange(0, q.len() as int) =~= qq);
    }
    let ph = placeholder_folder();
    let ghost phv = ph@;
    let mut g = swap_folder_at(root, q, 0, ph);
    let ghost gc = g.children@;
    let ghost nv = n@;
    let old_n = g.children.remove(i);
    g.children.insert(i, n);
    proof {
        lemma_folder_at_with(old(root)@, qq, phv);
        assert(nodes_v(g.children@) =~= nodes_v(gc).update(i as int, nv));
        assert(g@ == with_children(g0, g0.children.update(i as int, nv)));
    }
    let _ = swap_folder_at(root, q, 0, g);
    proof {
        lemma_with_folder_at_twice(old(root)@, qq, phv, with_children(g0, g0.children.update(i as int, nv)));
    }
    old_n
}

} // verus!

verus! {

/// The folder at `p[k..]`.
fn folder_ref_at<'a>(f: &'a Folder, p: &Vec<usize>, k: usize) -> (r: &'a Folder)
    requires
        k <= p.len(),
        folder_at(f@, ipath(p@).subrange(k as int, p.len() as int)) is Some,
    ensures
        r@ == folder_at(f@, ipath(p@).subrange(k as int, p.len() as int))->0,
    decreases p.len() - k,
{
    let ghost q = ipath(p@).subrange(k as int, p.len() as int);
    if k == p.len() {
        return f;
    }
    let i = p[k];
    proof {
        assert(q[0] == i as int);
        assert(q.subrange(1, q.len() as int) =~= ipath(p@).subrange(k + 1, p.len() as int));
    }
    match &f.children[i] {
        Node::Folder(c) => folder_ref_at(c, p, k + 1),
        _ => {
            proof {
                assert(false);
            }
            f
        },
    }
}

/// Deep copy of a node with the same view.
pub fn clone_node(n: &Node) -> (r: Node)
    ensures
        r@ == n@,
    decreases n,
{
    match n {
        Node::Folder(f) => Node::Folder(clone_folder(f)),
        Node::Bookmark(b) => Node::Bookmark(clone_bookmark(b)),
        Node::Separator(s) => Node::Separator(*s),
    }
}

/// Copy of a bookmark with the same view.
pub fn clone_bookmark(b: &Bookmark) -> (r: Bookmark)
    ensures
        r@ == b@,
{
    Bookmark {
        id: b.id,
        title: b.title.clone(),
        url: b.url.duplicate(),
        add_date: b.add_date,
        last_modified: b.last_modified,
        icon_blob: match &b.icon_blob { Some(s) => Some(s.clone()), None => None },
        description: match &b.description { Some(s) => Some(s.clone()), None => None },
        attrs: attr_map_clone(&b.attrs),
        flags: b.flags,
    }
}

/// Deep copy of a folder with the same view.
pub fn clone_folder(f: &Folder) -> (r: Folder)
    ensures
        r@ == f@,
    decreases f,
{
    let mut children: Vec<Node> = Vec::new();
    let n = f.children.len();
    let mut i: usize = 0;
    while i < n
        invariant
            n == f.children.len(),
            i <= n,
            children.len() == i,
            forall|j: int| 0 <= j < i ==> #[trigger] node_v(children@[j]) == node_v(f.children@[j]),
        decreases n - i,
    {
        proof {
            assert(decreases_to!(f => f.children));
            assert(decreases_to!(f.children => f.children@));
            assert(decreases_to!(f.children@ => f.children@[i as int]));
        }
        let c = clone_node(&f.children[i]);
        children.push(c);
        i += 1;
    }
    let r = Folder {
        id: f.id,
        name: f.name.clone(),
        add_date: f.add_date,
        last_modified: f.last_modified,
        is_toolbar: f.is_toolbar,
        attrs: attr_map_clone(&f.attrs),
        children,
    };
    proof {
        assert(nodes_v(r.children@) =~= nodes_v(f.children@));
    }
    r
}

/// Read the current value of `field` on the node with `node_id`.
pub(crate) fn read_field(folder: &Folder, node_id: NodeId, field: Field) -> (r: Option<String>)
    ensures
        crate::urls::opt_view(r) == read_field_v(folder@, node_id, field),
{
    match find_path(folder, node_id) {
        None => None,
        Some(p) => {
            proof {
                assert(ipath(p@).subrange(0, p.len() as int) =~= ipath(p@));
            }
            if p.len() == 0 {
                if field == Field::FolderName { Some(folder.name.clone()) } else { None }
            } else {
                match node_ref_at(folder, &p, 0) {
                    Node::Folder(g) => if field == Field::FolderName { Some(g.name.clone()) } else { None },
                    Node::Bookmark(b) => match field {
                        Field::Title => Some(b.title.clone()),
                        Field::Url => Some(b.url.as_str().to_owned()),
                        Field::FolderName => None,
                    },
                    Node::Separator(_) => None,
                }
            }
        },
    }
}

fn write_to_bookmark(b: &mut Bookmark, field: Field, value: &str)
    ensures
        final(b)@ == bookmark_with_field(old(b)@, field, value@),
{
    match field {
        Field::Title => b.title = value.to_owned(),
        Field::Url => b.url = BookmarkUrl::parse(value),
        Field::FolderName => {},
    }
}

/// Write `value` to `field` on the node with `node_id`.  Returns `true` when
/// a folder or bookmark with that id was found.
pub(crate) fn write_field(folder: &mut Folder, node_id: NodeId, field: Field, value: &str) -> (r: bool)
    ensures
        final(folder)@ == write_field_v(old(folder)@, node_id, field, value@),
        r == (found(old(folder)@, node_id) && (locate(old(folder)@, node_id).len() == 0
            || !(node_with_id(old(folder)@, node_id)->0 is Separator))),
{
    match find_path(folder, node_id) {
        None => false,
        Some(p) => {
            let ghost f0 = folder@;
            if p.len() == 0 {
                if field == Field::FolderName {
                    folder.name = value.to_owned();
                }
                proof {
                    assert(ipath(p@).len() == 0);
                }
                return true;
            }
            let (q, i) = split_last(&p);
            proof {
                lemma_node_at_parent(f0, ipath(p@));
            }
            let n = remove_node_at(folder, &q, i);
            let ghost nv = n@;
            proof {
                let g0 = folder_at(f0, ipath(q@))->0;
                lemma_folder_at_with(f0, ipath(q@), with_children(g0, g0.children.remove(i as int)));
            }
            let found = match n {
                Node::Folder(mut g) => {
                    if field == Field::FolderName {
                        g.name = value.to_owned();
                    }
                    insert_node_at(folder, &q, i, Node::Folder(g));
                    true
                },
                Node::Bookmark(mut b) => {
                    write_to_bookmark(&mut b, field, value);
                    insert_node_at(folder, &q, i, Node::Bookmark(b));
                    true
                },
                Node::Separator(s) => {
                    insert_node_at(folder, &q, i, Node::Separator(s));
                    false
                },
            };
            proof {
                let qq = ipath(q@);
                let newn = folder_at(folder@, qq);
                lemma_remove_insert(f0, qq, i as int, node_at(f0, ipath(p@))->0);
                lemma_replace_same(f0, qq, i as int);
                let w = write_field_v(f0, node_id, field, value@);
                match nv {
                    NodeV::Folder(gv) => {
                        lemma_remove_insert(f0, qq, i as int, NodeV::Folder(FolderV { name: value@, ..gv }));
                    },
                    NodeV::Bookmark(bv) => {
                        lemma_remove_insert(f0, qq, i as int, NodeV::Bookmark(bookmark_with_field(bv, field, value@)));
                    },
                    _ => {},
                }
            }
            found
        },
    }
}

} // verus!

verus! {

/// The node with id `node_id` below the root, found by path.
fn locate_below(folder: &Folder, node_id: NodeId) -> (r: Option<Vec<usize>>)
    ensures
        match r {
            Some(p) => node_with_id(folder@, node_id) is Some && ipath(p@) == locate(folder@, node_id)
                && p.len() > 0,
            None => node_with_id(folder@, node_id) is None,
        },
{
    match find_path(folder, node_id) {
        None => None,
        Some(p) => {
            if p.len() == 0 {
                None
            } else {
                proof {
                    assert(node_at(folder@, ipath(p@)) is Some);
                }
                Some(p)
            }
        },
    }
}

/// The node with id `node_id` below the root (the first in document order).
pub fn find_node(folder: &Folder, node_id: NodeId) -> (r: Option<&Node>)
    ensures
        match node_with_id(folder@, node_id) {
            Some(n) => r matches Some(x) && x@ == n,
            None => r is None,
        },
{
    match locate_below(folder, node_id) {
        None => None,
        Some(p) => {
            proof {
                assert(ipath(p@).subrange(0, p.len() as int) =~= ipath(p@));
            }
            Some(node_ref_at(folder, &p, 0))
        },
    }
}

/// Read a boolean flag from the bookmark with `node_id`.
pub(crate) fn read_flag(folder: &Folder, node_id: NodeId, flag: BookmarkFlag) -> (r: Option<bool>)
    ensures
        r == read_flag_v(folder@, node_id, flag),
{
    match locate_below(folder, node_id) {
        None => None,
        Some(p) => {
            proof {
                assert(ipath(p@).subrange(0, p.len() as int) =~= ipath(p@));
            }
            match node_ref_at(folder, &p, 0) {
                Node::Bookmark(b) => match flag {
                    BookmarkFlag::IsShortener => Some(b.flags.is_shortener),
                },
                _ => None,
            }
        },
    }
}

/// Write a boolean flag on the bookmark with `node_id`.  Returns `true` if
/// found.
pub(crate) fn write_flag(folder: &mut Folder, node_id: NodeId, flag: BookmarkFlag, value: bool) -> (r: bool)
    ensures
        final(folder)@ == write_flag_v(old(folder)@, node_id, flag, value),
        r == (read_flag_v(old(folder)@, node_id, flag) is Some),
{
    let ghost f0 = folder@;
    match locate_below(folder, node_id) {
        None => false,
        Some(p) => {
            let (q, i) = split_last(&p);
            proof {
                lemma_node_at_parent(f0, ipath(p@));
            }
            let n = remove_node_at(folder, &q, i);
            let ghost nv = n@;
            proof {
                let g0 = folder_at(f0, ipath(q@))->0;
                lemma_folder_at_with(f0, ipath(q@), with_children(g0, g0.children.remove(i as int)));
                lemma_replace_same(f0, ipath(q@), i as int);
                lemma_remove_insert(f0, ipath(q@), i as int, nv);
            }
            match n {
                Node::Bookmark(mut b) => {
                    match flag {
                        BookmarkFlag::IsShortener => b.flags.is_shortener = value,
                    }
                    let ghost bv = b@;
                    proof {
                        lemma_remove_insert(f0, ipath(q@), i as int, NodeV::Bookmark(bv));
                    }
                    insert_node_at(folder, &q, i, Node::Bookmark(b));
                    true
                },
                other => {
                    insert_node_at(folder, &q, i, other);
                    false
                },
            }
        },
    }
}

/// Remove the node with `node_id` from the tree, returning its parent
/// folder id, its index within that parent, and the node itself.
pub(crate) fn take_node(folder: &mut Folder, node_id: NodeId) -> (r: Option<(NodeId, usize, Node)>)
    ensures
        match r {
            Some((pid, idx, n)) => position_v(old(folder)@, node_id) == Some((pid, idx as int, n@)),
            None => position_v(old(folder)@, node_id) is None,
        },
        final(folder)@ == remove_v(old(folder)@, node_id),
{
    let ghost f0 = folder@;
    match locate_below(folder, node_id) {
        None => None,
        Some(p) => {
            let (q, i) = split_last(&p);
            proof {
                lemma_node_at_parent(f0, ipath(p@));
                assert(ipath(q@).subrange(0, q.len() as int) =~= ipath(q@));
            }
            let pid = folder_ref_at(folder, &q, 0).id;
            let n = remove_node_at(folder, &q, i);
            Some((pid, i, n))
        },
    }
}

/// A copy of the node with `node_id` along with its parent folder id and its
/// index within that parent.
pub(crate) fn find_node_with_parent(folder: &Folder, node_id: NodeId) -> (r: Option<(NodeId, usize, Node)>)
    ensures
        match r {
            Some((pid, idx, n)) => position_v(folder@, node_id) == Some((pid, idx as int, n@)),
            None => position_v(folder@, node_id) is None,
        },
{
    match locate_below(folder, node_id) {
        None => None,
        Some(p) => {
            let (q, i) = split_last(&p);
            proof {
                lemma_node_at_parent(folder@, ipath(p@));
                assert(ipath(q@).subrange(0, q.len() as int) =~= ipath(q@));
                assert(ipath(p@).subrange(0, p.len() as int) =~= ipath(p@));
            }
            let pid = folder_ref_at(folder, &q, 0).id;
            let n = clone_node(node_ref_at(folder, &p, 0));
            Some((pid, i, n))
        },
    }
}

/// The path to the folder with `id` (empty for `folder` itself).
pub fn folder_path(folder: &Folder, id: NodeId) -> (r: Option<Vec<usize>>)
    ensures
        match r {
            Some(p) => folder_with_id(folder@, id) is Some && ipath(p@) == locate(folder@, id),
            None => folder_with_id(folder@, id) is None,
        },
{
    match find_path(folder, id) {
        None => None,
        Some(p) => {
            if p.len() == 0 {
                return Some(p);
            }
            proof {
                assert(ipath(p@).subrange(0, p.len() as int) =~= ipath(p@));
                lemma_folder_at_node(folder@, ipath(p@));
            }
            match node_ref_at(folder, &p, 0) {
                Node::Folder(_) => Some(p),
                _ => None,
            }
        },
    }
}

/// Insert `node` at position `index` (clamped) within the folder whose id is
/// `parent_id`; nothing happens when there is no such folder.
fn insert_node_at_id(root: &mut Folder, parent_id: NodeId, index: usize, node: Node)
    ensures
        final(root)@ == insert_v(old(root)@, parent_id, index as int, node@),
{
    if let Some(path) = folder_path(root, parent_id) {
        insert_node_at(root, &path, index, node);
    }
}

} // verus!

verus! {

/// Where the node with `node_id` sits (parent id and index), without a copy.
pub(crate) fn position_of(folder: &Folder, node_id: NodeId) -> (r: Option<(NodeId, usize)>)
    ensures
        match r {
            Some((pid, idx)) => position_v(folder@, node_id) matches Some((p2, i2, _)) && pid == p2 && idx as int == i2,
            None => position_v(folder@, node_id) is None,
        },
{
    match locate_below(folder, node_id) {
        None => None,
        Some(p) => {
            let (q, i) = split_last(&p);
            proof {
                lemma_node_at_parent(folder@, ipath(p@));
                assert(ipath(q@).subrange(0, q.len() as int) =~= ipath(q@));
            }
            let pid = folder_ref_at(folder, &q, 0).id;
            Some((pid, i))
        },
    }
}

/// Whether the node a change targets is present.
pub(crate) fn change_target_exists(folder: &Folder, c: &Change) -> (r: bool)
    ensures
        r == change_target_present(folder@, c@),
{
    match &c.kind {
        ChangeKind::SetField { field, .. } => read_field(folder, c.node_id, *field).is_some(),
        ChangeKind::DeleteNode => position_of(folder, c.node_id).is_some(),
        ChangeKind::SetFlag { flag, .. } => read_flag(folder, c.node_id, *flag).is_some(),
    }
}

/// Apply one change, returning its inverse (none when the target is gone).
pub(crate) fn apply_change(folder: &mut Folder, c: &Change) -> (r: Option<InverseChange>)
    ensures
        final(folder)@ == apply_step(old(folder)@, c@).0,
        match r {
            Some(i) => apply_step(old(folder)@, c@).1 == Some(i@),
            None => apply_step(old(folder)@, c@).1 is None,
        },
{
    let id = c.node_id;
    match &c.kind {
        ChangeKind::SetField { field, after, .. } => match read_field(folder, id, *field) {
            Some(value) => {
                write_field(folder, id, *field, after.as_str());
                Some(InverseChange { node_id: id, kind: InverseKind::WriteField { field: *field, value } })
            },
            None => None,
        },
        ChangeKind::DeleteNode => match take_node(folder, id) {
            Some((parent_id, index, node)) => Some(InverseChange {
                node_id: id,
                kind: InverseKind::RestoreNode { parent_id, index, snapshot: Box::new(node) },
            }),
            None => None,
        },
        ChangeKind::SetFlag { flag, after, .. } => match read_flag(folder, id, *flag) {
            Some(value) => {
                write_flag(folder, id, *flag, *after);
                Some(InverseChange { node_id: id, kind: InverseKind::WriteFlag { flag: *flag, value } })
            },
            None => None,
        },
    }
}

/// The inverse that would undo applying `inv` to `root`.
pub(crate) fn capture_reinverse(root: &Folder, inv: &InverseChange) -> (r: Option<InverseKind>)
    ensures
        match r {
            Some(k) => capture_v(root@, inv@) == Some(k@),
            None => capture_v(root@, inv@) is None,
        },
{
    match &inv.kind {
        InverseKind::WriteField { field, .. } => match read_field(root, inv.node_id, *field) {
            Some(value) => Some(InverseKind::WriteField { field: *field, value }),
            None => None,
        },
        InverseKind::RestoreNode { .. } => Some(InverseKind::RemoveNode),
        InverseKind::RemoveNode => match find_node_with_parent(root, inv.node_id) {
            Some((parent_id, index, snapshot)) => Some(InverseKind::RestoreNode {
                parent_id,
                index,
                snapshot: Box::new(snapshot),
            }),
            None => None,
        },
        InverseKind::WriteFlag { flag, .. } => match read_flag(root, inv.node_id, *flag) {
            Some(value) => Some(InverseKind::WriteFlag { flag: *flag, value }),
            None => None,
        },
        InverseKind::MoveNode { .. } => match position_of(root, inv.node_id) {
            Some((parent_id, index)) => Some(InverseKind::MoveNode { to_parent_id: parent_id, to_index: index }),
            None => None,
        },
    }
}

/// Apply an inverse change to restore a previous state.
pub(crate) fn apply_inverse(root: &mut Folder, inv: &InverseChange)
    ensures
        final(root)@ == apply_inverse_v(old(root)@, inv@),
{
    match &inv.kind {
        InverseKind::WriteField { field, value } => {
            write_field(root, inv.node_id, *field, value.as_str());
        },
        InverseKind::RestoreNode { parent_id, index, snapshot } => {
            let node = clone_node(snapshot);
            insert_node_at_id(root, *parent_id, *index, node);
        },
        InverseKind::RemoveNode => {
            let _ = take_node(root, inv.node_id);
        },
        InverseKind::WriteFlag { flag, value } => {
            write_flag(root, inv.node_id, *flag, *value);
        },
        InverseKind::MoveNode { to_parent_id, to_index } => {
            if let Some((_, _, node)) = take_node(root, inv.node_id) {
                insert_node_at_id(root, *to_parent_id, *to_index, node);
            }
        },
    }
}

} // verus!

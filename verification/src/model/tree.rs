//! Paths into a folder tree, the nodes they name, and edits at a path.
//!
//! A path is the sequence of child indices leading from a folder down to a
//! node; the empty path names the folder itself.
use vstd::prelude::*;
use crate::model::node::{lemma_nodes_v, BookmarkV, NodeId, NodeV, FolderV};

verus! {

broadcast use lemma_nodes_v;

/// The folder reached from `f` along `p` (the empty path gives `f`).
pub open spec fn folder_at(f: FolderV, p: Seq<int>) -> Option<FolderV>
    decreases p.len(),
{
    if p.len() == 0 {
        Some(f)
    } else if 0 <= p[0] < f.children.len() {
        match f.children[p[0]] {
            NodeV::Folder(c) => folder_at(c, p.subrange(1, p.len() as int)),
            _ => None,
        }
    } else {
        None
    }
}

/// The node reached from `f` along the non-empty path `p`.
pub open spec fn node_at(f: FolderV, p: Seq<int>) -> Option<NodeV>
    decreases p.len(),
{
    if p.len() == 0 || !(0 <= p[0] < f.children.len()) {
        None
    } else if p.len() == 1 {
        Some(f.children[p[0]])
    } else {
        match f.children[p[0]] {
            NodeV::Folder(c) => node_at(c, p.subrange(1, p.len() as int)),
            _ => None,
        }
    }
}

/// The id of what `p` names: `f` itself for the empty path.
pub open spec fn id_at(f: FolderV, p: Seq<int>) -> Option<NodeId> {
    if p.len() == 0 {
        Some(f.id)
    } else {
        match node_at(f, p) {
            Some(n) => Some(n.id()),
            None => None,
        }
    }
}

/// Every bookmark among `ns` and below them, in document order.
pub open spec fn bookmarks_in(ns: Seq<NodeV>) -> Seq<BookmarkV>
    decreases ns,
{
    if ns.len() == 0 {
        Seq::empty()
    } else {
        let rest = bookmarks_in(ns.subrange(0, ns.len() - 1));
        match ns[ns.len() - 1] {
            NodeV::Bookmark(b) => rest.push(b),
            NodeV::Folder(f) => rest + bookmarks_in(f.children),
            NodeV::Separator(_) => rest,
        }
    }
}

/// Every node of the tree rooted at `f` (the folder included) has an id of
/// its own.
pub open spec fn unique_ids(f: FolderV) -> bool {
    forall|p: Seq<int>, q: Seq<int>|
        #![trigger id_at(f, p), id_at(f, q)]
        id_at(f, p) is Some && id_at(f, p) == id_at(f, q) ==> p == q
}

/// Some node of the tree (the folder included) has id `id`.
pub open spec fn contains_id(f: FolderV, id: NodeId) -> bool {
    exists|p: Seq<int>| #[trigger] id_at(f, p) == Some(id)
}

/// The first path, in document order (a folder before its children, children
/// in order), that names a node with id `id`.
pub open spec fn first_path(f: FolderV, id: NodeId) -> Option<Seq<int>>
    decreases f, 0int,
{
    if f.id == id {
        Some(Seq::empty())
    } else {
        first_from(f.children, id, 0)
    }
}

/// The first path to `id` through `cs[i..]`.
pub open spec fn first_from(cs: Seq<NodeV>, id: NodeId, i: int) -> Option<Seq<int>>
    decreases cs, cs.len() - i,
{
    if i < 0 || i >= cs.len() {
        None
    } else {
        match cs[i] {
            NodeV::Folder(c) => match first_path(c, id) {
                Some(p) => Some(seq![i] + p),
                None => first_from(cs, id, i + 1),
            },
            other => if other.id() == id {
                Some(seq![i])
            } else {
                first_from(cs, id, i + 1)
            },
        }
    }
}

/// Every id in the tree is below `bound`.
pub open spec fn ids_below(f: FolderV, bound: int) -> bool {
    forall|p: Seq<int>| #[trigger] id_at(f, p) is Some ==> id_at(f, p)->0 < bound
}

/// The tree `f` with the folder at `p` replaced by `g` (unchanged when `p`
/// names no folder).
pub open spec fn with_folder_at(f: FolderV, p: Seq<int>, g: FolderV) -> FolderV
    decreases p.len(),
{
    if p.len() == 0 {
        g
    } else if 0 <= p[0] < f.children.len() {
        match f.children[p[0]] {
            NodeV::Folder(c) => FolderV {
                children: f.children.update(
                    p[0],
                    NodeV::Folder(with_folder_at(c, p.subrange(1, p.len() as int), g)),
                ),
                ..f
            },
            _ => f,
        }
    } else {
        f
    }
}

/// `g` with its children replaced.
pub open spec fn with_children(g: FolderV, cs: Seq<NodeV>) -> FolderV {
    FolderV { children: cs, ..g }
}

/// The tree `f` with the node at index `i` of the folder at `q` removed.
pub open spec fn remove_child(f: FolderV, q: Seq<int>, i: int) -> FolderV {
    let g = folder_at(f, q)->0;
    with_folder_at(f, q, with_children(g, g.children.remove(i)))
}

/// The tree `f` with `n` inserted at index `i` (clamped to the length) of
/// the folder at `q`.
pub open spec fn insert_child(f: FolderV, q: Seq<int>, i: int, n: NodeV) -> FolderV {
    let g = folder_at(f, q)->0;
    let at = if i < g.children.len() { i } else { g.children.len() as int };
    with_folder_at(f, q, with_children(g, g.children.insert(at, n)))
}

/// The tree `f` with `n` added after the last child of the folder at `q`.
pub open spec fn append_child(f: FolderV, q: Seq<int>, n: NodeV) -> FolderV {
    insert_child(f, q, folder_at(f, q)->0.children.len() as int, n)
}

/// The tree `f` with the child at index `i` of the folder at `q` replaced.
pub open spec fn replace_child(f: FolderV, q: Seq<int>, i: int, n: NodeV) -> FolderV {
    let g = folder_at(f, q)->0;
    with_folder_at(f, q, with_children(g, g.children.update(i, n)))
}

// ---------------------------------------------------------------------------
// Lemmas
// ---------------------------------------------------------------------------

/// The node at a non-empty path is the child of the folder at its parent
/// path.
pub proof fn lemma_node_at_parent(f: FolderV, p: Seq<int>)
    requires
        p.len() > 0,
    ensures
        node_at(f, p) == (match folder_at(f, p.drop_last()) {
            Some(g) => if 0 <= p.last() < g.children.len() {
                Some(g.children[p.last()])
            } else {
                None
            },
            None => None,
        }),
    decreases p.len(),
{
    if p.len() > 1 && 0 <= p[0] < f.children.len() {
        if let NodeV::Folder(c) = f.children[p[0]] {
            let r = p.subrange(1, p.len() as int);
            lemma_node_at_parent(c, r);
            assert(r.drop_last() =~= p.drop_last().subrange(1, p.drop_last().len() as int));
        }
    }
}

/// Reading back the folder just written.
pub proof fn lemma_folder_at_with(f: FolderV, p: Seq<int>, g: FolderV)
    requires
        folder_at(f, p) is Some,
    ensures
        folder_at(with_folder_at(f, p, g), p) == Some(g),
    decreases p.len(),
{
    if p.len() > 0 {
        if let NodeV::Folder(c) = f.children[p[0]] {
            lemma_folder_at_with(c, p.subrange(1, p.len() as int), g);
        }
    }
}

/// Writing back the folder that is already there changes nothing.
pub proof fn lemma_with_folder_at_same(f: FolderV, p: Seq<int>)
    requires
        folder_at(f, p) is Some,
    ensures
        with_folder_at(f, p, folder_at(f, p)->0) == f,
    decreases p.len(),
{
    if p.len() > 0 {
        if let NodeV::Folder(c) = f.children[p[0]] {
            lemma_with_folder_at_same(c, p.subrange(1, p.len() as int));
            assert(f.children.update(p[0], f.children[p[0]]) =~= f.children);
        }
    }
}

/// A second write at the same path overrides the first.
pub proof fn lemma_with_folder_at_twice(f: FolderV, p: Seq<int>, g: FolderV, h: FolderV)
    requires
        folder_at(f, p) is Some,
    ensures
        with_folder_at(with_folder_at(f, p, g), p, h) == with_folder_at(f, p, h),
    decreases p.len(),
{
    if p.len() > 0 {
        if let NodeV::Folder(c) = f.children[p[0]] {
            lemma_with_folder_at_twice(c, p.subrange(1, p.len() as int), g, h);
            let f1 = with_folder_at(f, p, g);
            assert(f1.children.update(p[0], NodeV::Folder(with_folder_at(with_folder_at(c, p.subrange(1, p.len() as int), g), p.subrange(1, p.len() as int), h)))
                =~= f.children.update(p[0], NodeV::Folder(with_folder_at(c, p.subrange(1, p.len() as int), h))));
        }
    }
}

} // verus!

verus! {

/// A path of `usize` indices as a path of integers.
pub open spec fn ipath(v: Seq<usize>) -> Seq<int> {
    v.map_values(|x: usize| x as int)
}

/// The id of what a non-empty path names is the id that the rest of the
/// path names inside the child folder it starts with.
pub proof fn lemma_id_at_child(f: FolderV, j: int, r: Seq<int>)
    requires
        0 <= j < f.children.len(),
    ensures
        ({
            let p = seq![j] + r;
            match f.children[j] {
                NodeV::Folder(c) => id_at(f, p) == id_at(c, r) && folder_at(f, p) == folder_at(c, r),
                _ => (r.len() == 0 ==> id_at(f, p) == Some(f.children[j].id()))
                    && (r.len() > 0 ==> id_at(f, p) is None && folder_at(f, p) is None),
            }
        }),
{
    let p = seq![j] + r;
    assert(p.subrange(1, p.len() as int) =~= r);
}

} // verus!

verus! {

/// The folder at a non-empty path is the folder node there.
pub proof fn lemma_folder_at_node(f: FolderV, p: Seq<int>)
    requires
        p.len() > 0,
    ensures
        folder_at(f, p) == (match node_at(f, p) {
            Some(NodeV::Folder(g)) => Some(g),
            _ => None,
        }),
    decreases p.len(),
{
    if 0 <= p[0] < f.children.len() {
        if p.len() == 1 {
            assert(p.subrange(1, p.len() as int).len() == 0);
            if let NodeV::Folder(c) = f.children[p[0]] {
                assert(folder_at(c, p.subrange(1, p.len() as int)) == Some(c));
            }
        } else if let NodeV::Folder(c) = f.children[p[0]] {
            lemma_folder_at_node(c, p.subrange(1, p.len() as int));
        }
    }
}

/// Removing child `i` and inserting `n` at the same index replaces it.
pub proof fn lemma_remove_insert(f: FolderV, q: Seq<int>, i: int, n: NodeV)
    requires
        folder_at(f, q) is Some,
        0 <= i < folder_at(f, q)->0.children.len(),
    ensures
        insert_child(remove_child(f, q, i), q, i, n) == replace_child(f, q, i, n),
{
    let g = folder_at(f, q)->0;
    let g1 = with_children(g, g.children.remove(i));
    lemma_folder_at_with(f, q, g1);
    lemma_with_folder_at_twice(f, q, g1, with_children(g1, g1.children.insert(i, n)));
    assert(g1.children.insert(i, n) =~= g.children.update(i, n));
}

/// Replacing a child by itself changes nothing.
pub proof fn lemma_replace_same(f: FolderV, q: Seq<int>, i: int)
    requires
        folder_at(f, q) is Some,
        0 <= i < folder_at(f, q)->0.children.len(),
    ensures
        replace_child(f, q, i, folder_at(f, q)->0.children[i]) == f,
{
    let g = folder_at(f, q)->0;
    assert(g.children.update(i, g.children[i]) =~= g.children);
    assert(with_children(g, g.children) == g);
    lemma_with_folder_at_same(f, q);
}

} // verus!

verus! {

/// The first path names a node with the id, and one exists whenever the
/// tree contains the id.
pub proof fn lemma_first_path(f: FolderV, id: NodeId)
    ensures
        first_path(f, id) matches Some(p) ==> id_at(f, p) == Some(id),
        contains_id(f, id) ==> first_path(f, id) is Some,
    decreases f, 0int,
{
    if f.id != id {
        lemma_first_from(f, id, 0);
        if contains_id(f, id) {
            let p = choose|p: Seq<int>| #[trigger] id_at(f, p) == Some(id);
            assert(p.len() > 0);
            let r = p.subrange(1, p.len() as int);
            assert(p =~= seq![p[0]] + r);
        }
    } else {
        assert(id_at(f, Seq::empty()) == Some(id));
    }
}

pub proof fn lemma_first_from(f: FolderV, id: NodeId, i: int)
    requires
        0 <= i,
    ensures
        first_from(f.children, id, i) matches Some(p) ==> id_at(f, p) == Some(id) && p.len() > 0,
        (exists|j: int, s: Seq<int>| i <= j && #[trigger] id_at(f, seq![j] + s) == Some(id))
            ==> first_from(f.children, id, i) is Some,
    decreases f.children, f.children.len() - i,
{
    if i < f.children.len() {
        lemma_first_from(f, id, i + 1);
        match f.children[i] {
            NodeV::Folder(c) => {
                lemma_first_path(c, id);
                match first_path(c, id) {
                    Some(p) => {
                        lemma_id_at_child(f, i, p);
                    },
                    None => {
                        if exists|j: int, s: Seq<int>| i <= j && #[trigger] id_at(f, seq![j] + s) == Some(id) {
                            let (j, s) = choose|j: int, s: Seq<int>| i <= j && #[trigger] id_at(f, seq![j] + s) == Some(id);
                            lemma_id_at_child(f, j, s);
                            if j == i {
                                assert(contains_id(c, id));
                            } else {
                                assert(id_at(f, seq![j] + s) == Some(id));
                            }
                        }
                    },
                }
            },
            other => {
                lemma_id_at_child(f, i, Seq::empty());
                assert(seq![i] + Seq::<int>::empty() =~= seq![i]);
                if exists|j: int, s: Seq<int>| i <= j && #[trigger] id_at(f, seq![j] + s) == Some(id) {
                    let (j, s) = choose|j: int, s: Seq<int>| i <= j && #[trigger] id_at(f, seq![j] + s) == Some(id);
                    lemma_id_at_child(f, j, s);
                    if j == i {
                        if s.len() == 0 {
                            assert(seq![j] + s =~= seq![i]);
                        }
                    } else {
                        assert(id_at(f, seq![j] + s) == Some(id));
                    }
                }
            },
        }
    } else {
        if exists|j: int, s: Seq<int>| i <= j && #[trigger] id_at(f, seq![j] + s) == Some(id) {
            let (j, s) = choose|j: int, s: Seq<int>| i <= j && #[trigger] id_at(f, seq![j] + s) == Some(id);
            assert((seq![j] + s)[0] == j);
        }
    }
}

/// With unique ids, the first path to an id is the one path that names it.
pub proof fn lemma_locate(f: FolderV, id: NodeId, p: Seq<int>)
    requires
        unique_ids(f),
        id_at(f, p) == Some(id),
    ensures
        first_path(f, id) == Some(p),
{
    lemma_first_path(f, id);
    assert(contains_id(f, id));
    let q = first_path(f, id)->0;
    assert(id_at(f, q) == Some(id));
}

} // verus!

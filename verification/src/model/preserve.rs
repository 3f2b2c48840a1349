//! How edits at a path change the ids found along paths: the facts behind
//! "node ids stay unique" after each edit.
use vstd::prelude::*;
use crate::model::node::{FolderV, NodeId, NodeV};
use crate::model::tree::{
    folder_at, id_at, ids_below, insert_child, lemma_id_at_child, node_at, remove_child,
    replace_child, unique_ids, with_children, with_folder_at,
};

verus! {

/// `q` is a prefix of `p`.
pub open spec fn is_prefix(q: Seq<int>, p: Seq<int>) -> bool {
    q.len() <= p.len() && p.subrange(0, q.len() as int) == q
}

/// Ids along paths of `with_folder_at(f, q, g2)`: inside the replaced folder
/// they are those of `g2`, elsewhere those of `f`.
pub proof fn lemma_with_ids(f: FolderV, q: Seq<int>, g2: FolderV, p: Seq<int>)
    requires
        folder_at(f, q) is Some,
        g2.id == folder_at(f, q)->0.id,
    ensures
        is_prefix(q, p) ==> id_at(with_folder_at(f, q, g2), p) == id_at(g2, p.subrange(q.len() as int, p.len() as int))
            && id_at(f, p) == id_at(folder_at(f, q)->0, p.subrange(q.len() as int, p.len() as int)),
        !is_prefix(q, p) ==> id_at(with_folder_at(f, q, g2), p) == id_at(f, p),
    decreases q.len(),
{
    if q.len() == 0 {
        assert(p.subrange(0, 0) =~= q);
        assert(p.subrange(0, p.len() as int) =~= p);
    } else {
        let j = q[0];
        let c = match f.children[j] { NodeV::Folder(c) => c, _ => arbitrary() };
        let q1 = q.subrange(1, q.len() as int);
        assert(folder_at(f, q) == folder_at(c, q1));
        let w = with_folder_at(f, q, g2);
        let wc = with_folder_at(c, q1, g2);
        assert(w.children[j] == NodeV::Folder(wc));
        if p.len() > 0 && 0 <= p[0] < f.children.len() {
            let k = p[0];
            let r = p.subrange(1, p.len() as int);
            assert(p =~= seq![k] + r);
            lemma_id_at_child(f, k, r);
            lemma_id_at_child(w, k, r);
            if k == j {
                lemma_with_ids(c, q1, g2, r);
                if is_prefix(q, p) {
                    assert(r.subrange(0, q1.len() as int) =~= p.subrange(0, q.len() as int).subrange(1, q.len() as int));
                    assert(is_prefix(q1, r));
                    assert(r.subrange(q1.len() as int, r.len() as int) =~= p.subrange(q.len() as int, p.len() as int));
                } else {
                    if is_prefix(q1, r) {
                        assert(p.subrange(0, q.len() as int) =~= seq![k] + r.subrange(0, q1.len() as int));
                        assert(q =~= seq![j] + q1);
                    }
                }
            } else {
                assert(w.children[k] == f.children[k]);
                if is_prefix(q, p) {
                    assert(p.subrange(0, q.len() as int)[0] == q[0]);
                }
            }
        } else {
            if is_prefix(q, p) {
                assert(p.subrange(0, q.len() as int)[0] == q[0]);
            }
            if p.len() == 0 {
            } else {
                assert(w.children.len() == f.children.len());
            }
        }
    }
}

/// Two nodes with the same id whose children (when folders) are the same.
pub open spec fn same_shape(a: NodeV, b: NodeV) -> bool {
    a.id() == b.id() && match (a, b) {
        (NodeV::Folder(x), NodeV::Folder(y)) => x.children == y.children,
        (NodeV::Folder(_), _) => false,
        (_, NodeV::Folder(_)) => false,
        _ => true,
    }
}

/// Replacing a child by one of the same shape keeps every id in place.
pub proof fn lemma_replace_ids(f: FolderV, q: Seq<int>, i: int, n: NodeV, p: Seq<int>)
    requires
        folder_at(f, q) is Some,
        0 <= i < folder_at(f, q)->0.children.len(),
        same_shape(folder_at(f, q)->0.children[i], n),
    ensures
        id_at(replace_child(f, q, i, n), p) == id_at(f, p),
{
    let g = folder_at(f, q)->0;
    let g2 = with_children(g, g.children.update(i, n));
    lemma_with_ids(f, q, g2, p);
    if is_prefix(q, p) {
        let s = p.subrange(q.len() as int, p.len() as int);
        if s.len() > 0 && 0 <= s[0] < g.children.len() {
            let r = s.subrange(1, s.len() as int);
            assert(s =~= seq![s[0]] + r);
            lemma_id_at_child(g, s[0], r);
            lemma_id_at_child(g2, s[0], r);
            if s[0] == i {
                match (g.children[i], n) {
                    (NodeV::Folder(x), NodeV::Folder(y)) => {
                        if r.len() > 0 {
                            assert(node_at(x, r) == node_at(y, r));
                        }
                    },
                    _ => {},
                }
            }
        }
    }
}

/// Unique ids survive a same-shape replacement.
pub proof fn lemma_replace_unique(f: FolderV, q: Seq<int>, i: int, n: NodeV, bound: int)
    requires
        folder_at(f, q) is Some,
        0 <= i < folder_at(f, q)->0.children.len(),
        same_shape(folder_at(f, q)->0.children[i], n),
    ensures
        unique_ids(f) ==> unique_ids(replace_child(f, q, i, n)),
        ids_below(f, bound) ==> ids_below(replace_child(f, q, i, n), bound),
{
    let t = replace_child(f, q, i, n);
    assert forall|p: Seq<int>| #[trigger] id_at(t, p) == id_at(f, p) by {
        lemma_replace_ids(f, q, i, n, p);
    }
}

/// Where a path of the tree with child `i` of the folder at `q` removed
/// comes from in the original tree.
pub open spec fn removed_origin(q: Seq<int>, i: int, p: Seq<int>) -> Seq<int> {
    if is_prefix(q, p) && p.len() > q.len() && p[q.len() as int] >= i {
        p.update(q.len() as int, p[q.len() as int] + 1)
    } else {
        p
    }
}

/// Ids after a removal are the ids at the origins of the paths.
pub proof fn lemma_remove_ids(f: FolderV, q: Seq<int>, i: int, p: Seq<int>)
    requires
        folder_at(f, q) is Some,
        0 <= i < folder_at(f, q)->0.children.len(),
    ensures
        id_at(remove_child(f, q, i), p) is Some ==> id_at(remove_child(f, q, i), p) == id_at(f, removed_origin(q, i, p)),
{
    let g = folder_at(f, q)->0;
    let g2 = with_children(g, g.children.remove(i));
    lemma_with_ids(f, q, g2, p);
    let o = removed_origin(q, i, p);
    if is_prefix(q, p) {
        let s = p.subrange(q.len() as int, p.len() as int);
        if s.len() > 0 && 0 <= s[0] < g2.children.len() {
            let k = s[0];
            let r = s.subrange(1, s.len() as int);
            assert(s =~= seq![k] + r);
            lemma_id_at_child(g2, k, r);
            let k2 = if k >= i { k + 1 } else { k };
            lemma_id_at_child(g, k2, r);
            assert(g2.children[k] == g.children[k2]);
            assert(o.subrange(0, q.len() as int) =~= q);
            assert(o.subrange(q.len() as int, o.len() as int) =~= seq![k2] + r);
            lemma_with_ids(f, q, g, o);
        } else if s.len() == 0 {
            assert(o == p);
        } else {
            assert(id_at(g2, s) is None);
        }
    }
}

/// Distinct paths have distinct origins.
pub proof fn lemma_removed_origin_injective(q: Seq<int>, i: int, p1: Seq<int>, p2: Seq<int>)
    requires
        removed_origin(q, i, p1) == removed_origin(q, i, p2),
    ensures
        p1 == p2,
{
    let o1 = removed_origin(q, i, p1);
    let o2 = removed_origin(q, i, p2);
    let b1 = is_prefix(q, p1) && p1.len() > q.len() && p1[q.len() as int] >= i;
    let b2 = is_prefix(q, p2) && p2.len() > q.len() && p2[q.len() as int] >= i;
    if b1 && b2 {
        assert(p1 =~= o1.update(q.len() as int, o1[q.len() as int] - 1));
        assert(p2 =~= o2.update(q.len() as int, o2[q.len() as int] - 1));
    } else if b1 && !b2 {
        assert(o1.subrange(0, q.len() as int) =~= p1.subrange(0, q.len() as int));
        assert(o1[q.len() as int] == p1[q.len() as int] + 1);
        assert(p2.len() == o1.len());
        assert(p2.subrange(0, q.len() as int) =~= o1.subrange(0, q.len() as int));
    } else if !b1 && b2 {
        assert(o2.subrange(0, q.len() as int) =~= p2.subrange(0, q.len() as int));
        assert(p1.len() == o2.len());
        assert(p1.subrange(0, q.len() as int) =~= o2.subrange(0, q.len() as int));
    }
}

/// Removing a child keeps ids unique and below any bound they were below.
pub proof fn lemma_remove_unique(f: FolderV, q: Seq<int>, i: int, bound: int)
    requires
        folder_at(f, q) is Some,
        0 <= i < folder_at(f, q)->0.children.len(),
    ensures
        unique_ids(f) ==> unique_ids(remove_child(f, q, i)),
        ids_below(f, bound) ==> ids_below(remove_child(f, q, i), bound),
{
    let t = remove_child(f, q, i);
    assert forall|p: Seq<int>| id_at(t, p) is Some implies #[trigger] id_at(t, p) == id_at(f, removed_origin(q, i, p)) by {
        lemma_remove_ids(f, q, i, p);
    }
    if unique_ids(f) {
        assert forall|p1: Seq<int>, p2: Seq<int>|
            #![trigger id_at(t, p1), id_at(t, p2)]
            id_at(t, p1) is Some && id_at(t, p1) == id_at(t, p2) implies p1 == p2 by {
            assert(id_at(f, removed_origin(q, i, p1)) == id_at(f, removed_origin(q, i, p2)));
            lemma_removed_origin_injective(q, i, p1, p2);
        }
    }
    if ids_below(f, bound) {
        assert forall|p: Seq<int>| #[trigger] id_at(t, p) is Some implies id_at(t, p)->0 < bound by {
            assert(id_at(f, removed_origin(q, i, p)) is Some);
        }
    }
}

} // verus!

verus! {

/// A node without children: a bookmark, a separator or an empty folder.
pub open spec fn is_leaf(n: NodeV) -> bool {
    match n {
        NodeV::Folder(g) => g.children.len() == 0,
        _ => true,
    }
}

/// Where a path of the tree after inserting at index `at` of the folder at
/// `q` comes from in the tree before.
pub open spec fn inserted_origin(q: Seq<int>, at: int, p: Seq<int>) -> Seq<int> {
    if is_prefix(q, p) && p.len() > q.len() && p[q.len() as int] > at {
        p.update(q.len() as int, p[q.len() as int] - 1)
    } else {
        p
    }
}

/// The clamped insertion index.
pub open spec fn clamp_at(f: FolderV, q: Seq<int>, i: int) -> int {
    let g = folder_at(f, q)->0;
    if i < g.children.len() { i } else { g.children.len() as int }
}

/// Ids after inserting a leaf: the new path has the leaf's id, every other
/// path the id at its origin.
pub proof fn lemma_insert_ids(f: FolderV, q: Seq<int>, i: int, n: NodeV, p: Seq<int>)
    requires
        folder_at(f, q) is Some,
        0 <= i,
        is_leaf(n),
    ensures
        ({
            let at = clamp_at(f, q, i);
            let t = insert_child(f, q, i, n);
            &&& p == q.push(at) ==> id_at(t, p) == Some(n.id())
            &&& (p != q.push(at) && id_at(t, p) is Some) ==> id_at(t, p) == id_at(f, inserted_origin(q, at, p))
                && !(is_prefix(q, p) && p.len() > q.len() && p[q.len() as int] == at)
        }),
{
    let g = folder_at(f, q)->0;
    let at = clamp_at(f, q, i);
    let g2 = with_children(g, g.children.insert(at, n));
    lemma_with_ids(f, q, g2, p);
    let o = inserted_origin(q, at, p);
    if is_prefix(q, p) {
        let s = p.subrange(q.len() as int, p.len() as int);
        if s.len() > 0 && 0 <= s[0] < g2.children.len() {
            let k = s[0];
            let r = s.subrange(1, s.len() as int);
            assert(s =~= seq![k] + r);
            lemma_id_at_child(g2, k, r);
            if k == at {
                if r.len() == 0 {
                    assert(p =~= q.push(at));
                } else {
                    match n {
                        NodeV::Folder(c) => {
                            assert(node_at(c, r) is None);
                        },
                        _ => {},
                    }
                }
            } else {
                let k2 = if k > at { k - 1 } else { k };
                lemma_id_at_child(g, k2, r);
                assert(g2.children[k] == g.children[k2]);
                assert(o.subrange(0, q.len() as int) =~= q);
                assert(o.subrange(q.len() as int, o.len() as int) =~= seq![k2] + r);
                lemma_with_ids(f, q, g, o);
                if p == q.push(at) {
                    assert(p[q.len() as int] == at);
                }
            }
        } else if s.len() == 0 {
            assert(o == p);
            if p == q.push(at) {
                assert(p.len() == q.len() + 1);
            }
        } else {
            assert(id_at(g2, s) is None);
            if p == q.push(at) {
                assert(s =~= seq![at]);
            }
        }
    } else {
        if p == q.push(at) {
            assert(p.subrange(0, q.len() as int) =~= q);
        }
    }
}

/// Inserting a leaf whose id is above every id keeps ids unique.
pub proof fn lemma_insert_unique(f: FolderV, q: Seq<int>, i: int, n: NodeV)
    requires
        folder_at(f, q) is Some,
        0 <= i,
        is_leaf(n),
        ids_below(f, n.id() as int),
    ensures
        unique_ids(f) ==> unique_ids(insert_child(f, q, i, n)),
        ids_below(insert_child(f, q, i, n), n.id() + 1),
{
    let t = insert_child(f, q, i, n);
    let at = clamp_at(f, q, i);
    assert forall|p: Seq<int>| #[trigger] id_at(t, p) is Some implies id_at(t, p)->0 < n.id() + 1 by {
        lemma_insert_ids(f, q, i, n, p);
    }
    if unique_ids(f) {
        assert forall|p1: Seq<int>, p2: Seq<int>|
            #![trigger id_at(t, p1), id_at(t, p2)]
            id_at(t, p1) is Some && id_at(t, p1) == id_at(t, p2) implies p1 == p2 by {
            lemma_insert_ids(f, q, i, n, p1);
            lemma_insert_ids(f, q, i, n, p2);
            if p1 != q.push(at) && p2 != q.push(at) {
                let o1 = inserted_origin(q, at, p1);
                let o2 = inserted_origin(q, at, p2);
                assert(o1 == o2);
                let b1 = is_prefix(q, p1) && p1.len() > q.len() && p1[q.len() as int] > at;
                let b2 = is_prefix(q, p2) && p2.len() > q.len() && p2[q.len() as int] > at;
                if b1 && b2 {
                    assert(p1 =~= o1.update(q.len() as int, o1[q.len() as int] + 1));
                    assert(p2 =~= o2.update(q.len() as int, o2[q.len() as int] + 1));
                } else if b1 && !b2 {
                    assert(p2.subrange(0, q.len() as int) =~= o1.subrange(0, q.len() as int));
                    assert(o1.subrange(0, q.len() as int) =~= p1.subrange(0, q.len() as int));
                } else if !b1 && b2 {
                    assert(p1.subrange(0, q.len() as int) =~= o2.subrange(0, q.len() as int));
                    assert(o2.subrange(0, q.len() as int) =~= p2.subrange(0, q.len() as int));
                }
            }
        }
    }
}

} // verus!

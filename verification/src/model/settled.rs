//! Settled URLs: a URL that parsing its own text gives back unchanged.
//!
//! The `url` crate keeps a parsed URL's serialization in a form that parses
//! back to itself; a text it refuses stays refused.  A tree all of whose
//! bookmark URLs are settled is one in which writing a URL's text back
//! restores the URL exactly, which is what undo and redo rely on.
use vstd::prelude::*;
use crate::model::node::{url_from_text, FolderV, NodeV, UrlV};
use crate::model::tree::{
    append_child, folder_at, insert_child, lemma_node_at_parent, node_at, remove_child,
    replace_child, with_children, with_folder_at,
};
use crate::urls::url_parse_result;

verus! {

/// Parsing the text of `u` gives `u` back.
pub open spec fn canon_url(u: UrlV) -> bool {
    match u {
        UrlV::Valid(h) => url_parse_result(h) == Some(h),
        UrlV::Malformed(t) => url_parse_result(t) is None,
    }
}

/// Every bookmark among `ns` and below them has a settled URL.
pub open spec fn nodes_settled(ns: Seq<NodeV>) -> bool
    decreases ns,
{
    if ns.len() == 0 {
        true
    } else {
        &&& match ns[0] {
            NodeV::Bookmark(b) => canon_url(b.url),
            NodeV::Folder(g) => nodes_settled(g.children),
            NodeV::Separator(_) => true,
        }
        &&& nodes_settled(ns.subrange(1, ns.len() as int))
    }
}

/// Every bookmark at or below `n` has a settled URL.
pub open spec fn node_settled(n: NodeV) -> bool {
    match n {
        NodeV::Bookmark(b) => canon_url(b.url),
        NodeV::Folder(g) => nodes_settled(g.children),
        NodeV::Separator(_) => true,
    }
}

/// A sequence is settled exactly when each of its nodes is.
pub proof fn lemma_settled_each(s: Seq<NodeV>)
    ensures
        nodes_settled(s) == (forall|k: int| 0 <= k < s.len() ==> #[trigger] node_settled(s[k])),
    decreases s.len(),
{
    if s.len() > 0 {
        let t = s.subrange(1, s.len() as int);
        lemma_settled_each(t);
        assert forall|k: int| 0 <= k < t.len() implies t[k] == s[k + 1] by {}
        if forall|k: int| 0 <= k < s.len() ==> #[trigger] node_settled(s[k]) {
            assert(node_settled(s[0]));
            assert forall|k: int| 0 <= k < t.len() implies #[trigger] node_settled(t[k]) by {
                assert(node_settled(s[k + 1]));
            }
        }
        if nodes_settled(s) {
            assert forall|k: int| 0 <= k < s.len() implies #[trigger] node_settled(s[k]) by {
                if k > 0 {
                    assert(node_settled(t[k - 1]));
                }
            }
        }
    }
}

/// Every bookmark of the tree has a settled URL.
pub open spec fn urls_settled(f: FolderV) -> bool {
    nodes_settled(f.children)
}

/// Writing the text of a settled URL back gives the same URL.
pub proof fn lemma_canon_text(u: UrlV)
    requires
        canon_url(u),
    ensures
        url_from_text(u.text()) == u,
{
}

/// The folder at a path of a settled tree is settled.
pub proof fn lemma_folder_settled(f: FolderV, q: Seq<int>)
    requires
        urls_settled(f),
        folder_at(f, q) is Some,
    ensures
        urls_settled(folder_at(f, q)->0),
    decreases q.len(),
{
    if q.len() > 0 {
        let c = f.children[q[0]]->Folder_0;
        lemma_settled_each(f.children);
        assert(node_settled(f.children[q[0]]));
        lemma_folder_settled(c, q.subrange(1, q.len() as int));
    }
}

/// Putting a settled folder in place of the folder at a path of a settled
/// tree keeps it settled.
pub proof fn lemma_with_folder_settled(f: FolderV, q: Seq<int>, g: FolderV)
    requires
        urls_settled(f),
        folder_at(f, q) is Some,
        urls_settled(g),
    ensures
        urls_settled(with_folder_at(f, q, g)),
    decreases q.len(),
{
    if q.len() > 0 {
        let j = q[0];
        let c = f.children[j]->Folder_0;
        lemma_settled_each(f.children);
        assert(node_settled(f.children[j]));
        lemma_with_folder_settled(c, q.subrange(1, q.len() as int), g);
        let w = with_folder_at(f, q, g);
        lemma_settled_each(w.children);
        assert forall|k: int| 0 <= k < w.children.len() implies #[trigger] node_settled(w.children[k]) by {
            if k != j {
                assert(w.children[k] == f.children[k]);
            }
        }
    }
}

/// Children updated, removed or inserted with settled nodes stay settled.
pub proof fn lemma_children_settled(s: Seq<NodeV>, i: int, n: NodeV)
    requires
        nodes_settled(s),
        node_settled(n),
    ensures
        0 <= i < s.len() ==> nodes_settled(s.update(i, n)),
        0 <= i < s.len() ==> nodes_settled(s.remove(i)),
        0 <= i <= s.len() ==> nodes_settled(s.insert(i, n)),
{
    lemma_settled_each(s);
    lemma_settled_each(s.update(i, n));
    lemma_settled_each(s.remove(i));
    lemma_settled_each(s.insert(i, n));
    if 0 <= i < s.len() {
        assert forall|k: int| 0 <= k < s.len() implies #[trigger] node_settled(s.update(i, n)[k]) by {
            if k != i {
                assert(s.update(i, n)[k] == s[k]);
            }
        }
        assert forall|k: int| 0 <= k < s.len() - 1 implies #[trigger] node_settled(s.remove(i)[k]) by {
            if k < i {
                assert(s.remove(i)[k] == s[k]);
            } else {
                assert(s.remove(i)[k] == s[k + 1]);
            }
        }
    }
    if 0 <= i <= s.len() {
        assert forall|k: int| 0 <= k < s.len() + 1 implies #[trigger] node_settled(s.insert(i, n)[k]) by {
            if k < i {
                assert(s.insert(i, n)[k] == s[k]);
            } else if k > i {
                assert(s.insert(i, n)[k] == s[k - 1]);
            }
        }
    }
}

/// The node at a path of a settled tree is settled.
pub proof fn lemma_node_settled_at(f: FolderV, p: Seq<int>)
    requires
        urls_settled(f),
        p.len() > 0,
        node_at(f, p) is Some,
    ensures
        node_settled(node_at(f, p)->0),
{
    lemma_node_at_parent(f, p);
    let g = folder_at(f, p.drop_last())->0;
    lemma_folder_settled(f, p.drop_last());
    lemma_settled_each(g.children);
}

/// Replacing a child of a settled tree by a settled node keeps it settled.
pub proof fn lemma_replace_settled(f: FolderV, q: Seq<int>, i: int, n: NodeV)
    requires
        urls_settled(f),
        folder_at(f, q) is Some,
        0 <= i < folder_at(f, q)->0.children.len(),
        node_settled(n),
    ensures
        urls_settled(replace_child(f, q, i, n)),
{
    let g = folder_at(f, q)->0;
    lemma_folder_settled(f, q);
    lemma_children_settled(g.children, i, n);
    lemma_with_folder_settled(f, q, with_children(g, g.children.update(i, n)));
}

/// Removing a child of a settled tree keeps it settled.
pub proof fn lemma_remove_settled(f: FolderV, q: Seq<int>, i: int)
    requires
        urls_settled(f),
        folder_at(f, q) is Some,
        0 <= i < folder_at(f, q)->0.children.len(),
    ensures
        urls_settled(remove_child(f, q, i)),
{
    let g = folder_at(f, q)->0;
    lemma_folder_settled(f, q);
    lemma_children_settled(g.children, i, NodeV::Separator(0));
    lemma_with_folder_settled(f, q, with_children(g, g.children.remove(i)));
}

/// Adding a settled node after the last child of a folder of a settled tree
/// keeps it settled.
pub proof fn lemma_append_settled(f: FolderV, q: Seq<int>, n: NodeV)
    requires
        urls_settled(f),
        folder_at(f, q) is Some,
        node_settled(n),
    ensures
        urls_settled(append_child(f, q, n)),
{
    let g = folder_at(f, q)->0;
    let at = g.children.len() as int;
    lemma_folder_settled(f, q);
    lemma_children_settled(g.children, at, n);
    lemma_with_folder_settled(f, q, with_children(g, g.children.insert(at, n)));
}

/// A settled node added after settled nodes keeps them settled.
pub proof fn lemma_push_settled(s: Seq<NodeV>, n: NodeV)
    requires
        nodes_settled(s),
        node_settled(n),
    ensures
        nodes_settled(s.push(n)),
{
    lemma_children_settled(s, s.len() as int, n);
    assert(s.insert(s.len() as int, n) =~= s.push(n));
}

/// Two settled runs of nodes are settled together.
pub proof fn lemma_concat_settled(a: Seq<NodeV>, b: Seq<NodeV>)
    requires
        nodes_settled(a),
        nodes_settled(b),
    ensures
        nodes_settled(a + b),
{
    lemma_settled_each(a);
    lemma_settled_each(b);
    lemma_settled_each(a + b);
    assert forall|k: int| 0 <= k < (a + b).len() implies #[trigger] node_settled((a + b)[k]) by {
        if k < a.len() {
            assert((a + b)[k] == a[k]);
        } else {
            assert((a + b)[k] == b[k - a.len()]);
        }
    }
}

} // verus!

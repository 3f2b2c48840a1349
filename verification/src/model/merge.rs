//! Merging picked subtrees of several documents into a new document.
//!
//! Every picked subtree is copied with fresh ids (handed out in document
//! order, the merged root first) and merged into the new root: a folder
//! whose name matches a folder already there is merged into it, a bookmark
//! whose URL text matches a bookmark already there is resolved by the
//! conflict strategy, everything else is appended.
use vstd::prelude::*;
use crate::model::attrs::{attr_map_new, attr_map_clone};
use crate::model::document::{sat, Document, DocumentStats, HeaderMetadata};
use crate::model::edit::node_with_id;
use crate::model::numbering::{
    apart, fresh_in, forest_ids, lemma_concat_contains, lemma_distinct_concat, lemma_distinct_split, lemma_forest_at,
    lemma_forest_concat, lemma_forest_cons, lemma_fresh_join, lemma_fresh_one, lemma_update_ids, node_ids,
};
use crate::model::numbering::{lemma_distinct_ids_unique, tree_ids};
use crate::model::settled::{
    lemma_node_settled_at, lemma_children_settled, lemma_push_settled, lemma_settled_each, node_settled, nodes_settled,
};
use crate::model::ids::{DocumentId, NodeIdAllocator};
use crate::model::node::{
    lemma_folder_v, lemma_nodes_v, node_v, nodes_v, Bookmark, BookmarkV, Folder, FolderV, Node, NodeId, NodeV,
    Separator,
};
use crate::sanitize::apply::find_node;
use crate::sanitize::treatments::text::is_ws;
use crate::text::{decimal, decimal_v, same_text};

verus! {

broadcast use {lemma_nodes_v, lemma_folder_v};

/// How bookmarks with the same URL are resolved while merging.
#[derive(Debug, Clone, Copy, PartialEq, Eq, Structural)]
pub enum ConflictStrategy {
    /// Keep the bookmark already in the merged folder.
    KeepFirst,
    /// Keep the one with the later add date (an undated one loses).
    KeepNewest,
    /// Keep both; the incoming title gets a ` (n)` suffix.
    KeepBoth,
}

/// One subtree to merge: a node of one of the source documents.
#[derive(Debug, Clone, Copy, PartialEq, Eq, Structural)]
pub struct MergePick {
    /// Index into the list of source documents.
    pub source_doc_id: usize,
    pub root_node_id: NodeId,
}

/// What to merge and how.
#[derive(Debug, Clone)]
pub struct MergePlan {
    pub picks: Vec<MergePick>,
    pub strategy: ConflictStrategy,
    pub merged_root_name: String,
}

/// Why a merge plan was refused.
#[derive(Debug, Clone, PartialEq, Eq, Structural)]
pub enum MergeError {
    EmptyPlan,
    SourceIndexOutOfRange { idx: usize },
    NodeIdNotFound { source_idx: usize, node_id: NodeId },
    EmptyMergedRootName,
}

/// The text of a merge error.
pub open spec fn merge_message_v(e: MergeError) -> Seq<char> {
    match e {
        MergeError::EmptyPlan => "merge plan has no picks"@,
        MergeError::SourceIndexOutOfRange { idx } => "source index "@ + decimal_v(idx as nat) + " out of range"@,
        MergeError::NodeIdNotFound { source_idx, node_id } => "node id "@ + decimal_v(node_id as nat)
            + " not found in source document "@ + decimal_v(source_idx as nat),
        MergeError::EmptyMergedRootName => "merged root name must not be empty"@,
    }
}

impl MergeError {
    /// The error's message.
    pub fn message(&self) -> (r: String)
        ensures
            r@ == merge_message_v(*self),
    {
        match self {
            MergeError::EmptyPlan => "merge plan has no picks".to_owned(),
            MergeError::SourceIndexOutOfRange { idx } => {
                let mut s = "source index ".to_owned();
                s.append(decimal(*idx as u64).as_str());
                s.append(" out of range");
                s
            },
            MergeError::NodeIdNotFound { source_idx, node_id } => {
                let mut s = "node id ".to_owned();
                s.append(decimal(*node_id).as_str());
                s.append(" not found in source document ");
                s.append(decimal(*source_idx as u64).as_str());
                s
            },
            MergeError::EmptyMergedRootName => "merged root name must not be empty".to_owned(),
        }
    }
}

// ---------------------------------------------------------------------------
// Copies with fresh ids
// ---------------------------------------------------------------------------

/// `n` with fresh ids from `next` on, in document order (a folder before its
/// children), and the next unused id.
pub open spec fn relabel(n: NodeV, next: nat) -> (NodeV, nat)
    decreases n,
{
    match n {
        NodeV::Bookmark(b) => (NodeV::Bookmark(BookmarkV { id: next as u64, ..b }), next + 1),
        NodeV::Separator(_) => (NodeV::Separator(next as u64), next + 1),
        NodeV::Folder(f) => {
            let (cs, k) = relabel_all(f.children, next + 1);
            (NodeV::Folder(FolderV { id: next as u64, children: cs, ..f }), k)
        },
    }
}

/// The nodes with fresh ids from `next` on, in document order, and the next
/// unused id.
pub open spec fn relabel_all(ns: Seq<NodeV>, next: nat) -> (Seq<NodeV>, nat)
    decreases ns,
{
    if ns.len() == 0 {
        (Seq::empty(), next)
    } else {
        let (a, k) = relabel_all(ns.subrange(0, ns.len() - 1), next);
        let (x, k2) = relabel(ns[ns.len() - 1], k);
        (a.push(x), k2)
    }
}

proof fn lemma_relabel_grows(n: NodeV, next: nat)
    ensures
        relabel(n, next).1 > next,
    decreases n,
{
    if let NodeV::Folder(f) = n {
        lemma_relabel_all_grows(f.children, next + 1);
    }
}

proof fn lemma_relabel_all_grows(ns: Seq<NodeV>, next: nat)
    ensures
        relabel_all(ns, next).1 >= next,
    decreases ns,
{
    if ns.len() > 0 {
        lemma_relabel_all_grows(ns.subrange(0, ns.len() - 1), next);
        lemma_relabel_grows(ns[ns.len() - 1], relabel_all(ns.subrange(0, ns.len() - 1), next).1);
    }
}

/// A copy of `node` with fresh ids from the allocator, in document order.
fn clone_node_with_fresh_ids(node: &Node, id_gen: &mut NodeIdAllocator) -> (r: Node)
    requires
        relabel(node@, old(id_gen).next_id() as nat).1 <= u64::MAX,
    ensures
        (r@, final(id_gen).next_id() as nat) == relabel(node@, old(id_gen).next_id() as nat),
    decreases node,
{
    match node {
        Node::Folder(f) => Node::Folder(clone_folder_with_fresh_ids(f, id_gen)),
        Node::Bookmark(b) => {
            let id = id_gen.alloc_id();
            Node::Bookmark(Bookmark {
                id,
                title: b.title.clone(),
                url: b.url.duplicate(),
                add_date: b.add_date,
                last_modified: b.last_modified,
                icon_blob: match &b.icon_blob { Some(s) => Some(s.clone()), None => None },
                description: match &b.description { Some(s) => Some(s.clone()), None => None },
                attrs: attr_map_clone(&b.attrs),
                flags: b.flags,
            })
        },
        Node::Separator(_) => Node::Separator(Separator { id: id_gen.alloc_id() }),
    }
}

fn clone_folder_with_fresh_ids(folder: &Folder, id_gen: &mut NodeIdAllocator) -> (r: Folder)
    requires
        relabel(NodeV::Folder(folder@), old(id_gen).next_id() as nat).1 <= u64::MAX,
    ensures
        (NodeV::Folder(r@), final(id_gen).next_id() as nat) == relabel(NodeV::Folder(folder@), old(id_gen).next_id() as nat),
    decreases folder,
{
    let ghost start = id_gen.next_id() as nat;
    let ghost cs = folder@.children;
    proof {
        lemma_relabel_all_grows(cs, start + 1);
        lemma_relabel_prefix_bound(cs, start + 1, 0);
    }
    let id = id_gen.alloc_id();
    let mut children: Vec<Node> = Vec::new();
    let mut i: usize = 0;
    while i < folder.children.len()
        invariant
            cs == folder@.children,
            i <= cs.len(),
            relabel_all(cs, start + 1).1 <= u64::MAX,
            (nodes_v(children@), id_gen.next_id() as nat) == relabel_all(cs.subrange(0, i as int), start + 1),
        decreases cs.len() - i,
    {
        proof {
            assert(cs.subrange(0, i + 1).subrange(0, i as int) =~= cs.subrange(0, i as int));
            assert(cs[i as int] == node_v(folder.children@[i as int]));
            assert(decreases_to!(folder => folder.children));
            assert(decreases_to!(folder.children => folder.children@));
            assert(decreases_to!(folder.children@ => folder.children@[i as int]));
            lemma_relabel_prefix_bound(cs, start + 1, i as int + 1);
        }
        let c = clone_node_with_fresh_ids(&folder.children[i], id_gen);
        let ghost before = nodes_v(children@);
        children.push(c);
        proof {
            assert(nodes_v(children@) =~= before.push(c@));
        }
        i += 1;
    }
    proof {
        assert(cs.subrange(0, cs.len() as int) =~= cs);
    }
    Folder {
        id,
        name: folder.name.clone(),
        add_date: folder.add_date,
        last_modified: folder.last_modified,
        is_toolbar: folder.is_toolbar,
        attrs: attr_map_clone(&folder.attrs),
        children,
    }
}

/// Relabelling a prefix ends no later than relabelling the whole.
proof fn lemma_relabel_prefix_bound(ns: Seq<NodeV>, next: nat, k: int)
    requires
        0 <= k <= ns.len(),
    ensures
        relabel_all(ns.subrange(0, k), next).1 <= relabel_all(ns, next).1,
    decreases ns.len() - k,
{
    if k < ns.len() {
        lemma_relabel_prefix_bound(ns, next, k + 1);
        let p = ns.subrange(0, k + 1);
        assert(p.subrange(0, k) =~= ns.subrange(0, k));
        lemma_relabel_grows(p[k], relabel_all(ns.subrange(0, k), next).1);
    } else {
        assert(ns.subrange(0, k) =~= ns);
    }
}

// ---------------------------------------------------------------------------
// Merging
// ---------------------------------------------------------------------------

/// The first folder among `cs` named `name`.
pub open spec fn folder_named(cs: Seq<NodeV>, name: Seq<char>) -> Option<int>
    decreases cs.len(),
{
    if cs.len() == 0 {
        None
    } else {
        match folder_named(cs.drop_last(), name) {
            Some(i) => Some(i),
            None => if cs.last() matches NodeV::Folder(f) && f.name == name { Some(cs.len() - 1) } else { None },
        }
    }
}

/// The first bookmark among `cs` whose URL text is `u`.
pub open spec fn bookmark_with_url(cs: Seq<NodeV>, u: Seq<char>) -> Option<int>
    decreases cs.len(),
{
    if cs.len() == 0 {
        None
    } else {
        match bookmark_with_url(cs.drop_last(), u) {
            Some(i) => Some(i),
            None => if cs.last() matches NodeV::Bookmark(b) && b.url.text() == u { Some(cs.len() - 1) } else { None },
        }
    }
}

/// How many bookmarks among `cs` have URL text `u`.
pub open spec fn url_count(cs: Seq<NodeV>, u: Seq<char>) -> nat
    decreases cs.len(),
{
    if cs.len() == 0 {
        0
    } else {
        url_count(cs.drop_last(), u) + if cs.last() matches NodeV::Bookmark(b) && b.url.text() == u { 1nat } else { 0nat }
    }
}

/// Whether an incoming bookmark dated `incoming` replaces one dated
/// `existing` under `KeepNewest`.
pub open spec fn newer(existing: Option<i64>, incoming: Option<i64>) -> bool {
    match (existing, incoming) {
        (Some(e), Some(i)) => i > e,
        (None, Some(_)) => true,
        _ => false,
    }
}

/// The children `cs` with `n` merged in.
pub open spec fn merge_node(cs: Seq<NodeV>, n: NodeV, st: ConflictStrategy) -> Seq<NodeV>
    decreases n,
{
    match n {
        NodeV::Folder(inc) => match folder_named(cs, inc.name) {
            Some(i) => {
                let ex = cs[i]->Folder_0;
                cs.update(i, NodeV::Folder(FolderV { children: merge_all(ex.children, inc.children, st), ..ex }))
            },
            None => cs.push(n),
        },
        NodeV::Bookmark(b) => match bookmark_with_url(cs, b.url.text()) {
            None => cs.push(n),
            Some(i) => match st {
                ConflictStrategy::KeepFirst => cs,
                ConflictStrategy::KeepNewest => if newer(cs[i]->Bookmark_0.add_date, b.add_date) {
                    cs.update(i, n)
                } else {
                    cs
                },
                ConflictStrategy::KeepBoth => cs.push(NodeV::Bookmark(BookmarkV {
                    title: b.title + " ("@ + decimal_v(sat((url_count(cs, b.url.text()) + 1) as int) as nat) + ")"@,
                    ..b
                })),
            },
        },
        NodeV::Separator(_) => cs.push(n),
    }
}

/// The children `cs` with each of `ns` merged in, in order.
pub open spec fn merge_all(cs: Seq<NodeV>, ns: Seq<NodeV>, st: ConflictStrategy) -> Seq<NodeV>
    decreases ns,
{
    if ns.len() == 0 {
        cs
    } else {
        merge_node(merge_all(cs, ns.subrange(0, ns.len() - 1), st), ns[ns.len() - 1], st)
    }
}

/// The ids of `cs` with `y` added last are theirs, then `y`'s.
proof fn lemma_forest_push(cs: Seq<NodeV>, y: NodeV)
    ensures
        forest_ids(cs.push(y)) == forest_ids(cs) + node_ids(y),
{
    lemma_forest_concat(cs, seq![y]);
    lemma_forest_cons(y, Seq::empty());
    assert(seq![y] + Seq::<NodeV>::empty() =~= seq![y]);
    assert(cs + seq![y] =~= cs.push(y));
    assert(forest_ids(Seq::<NodeV>::empty()) =~= Seq::<NodeId>::empty());
    assert(node_ids(y) + Seq::<NodeId>::empty() =~= node_ids(y));
}

/// Merging a node into children, when neither repeats an id and they share
/// none, gives children without repeated ids, holding only ids of the two.
proof fn lemma_merge_node_ids(cs: Seq<NodeV>, n: NodeV, st: ConflictStrategy)
    requires
        forest_ids(cs).no_duplicates(),
        node_ids(n).no_duplicates(),
        apart(forest_ids(cs), node_ids(n)),
    ensures
        forest_ids(merge_node(cs, n, st)).no_duplicates(),
        forall|x: NodeId| #[trigger] forest_ids(merge_node(cs, n, st)).contains(x) ==> forest_ids(cs).contains(x)
            || node_ids(n).contains(x),
    decreases n,
{
    let r = merge_node(cs, n, st);
    if r == cs.push(n) {
        lemma_forest_push(cs, n);
        lemma_distinct_concat(forest_ids(cs), node_ids(n));
    } else if r == cs {
    } else {
        match n {
            NodeV::Folder(inc) => {
                let i = folder_named(cs, inc.name)->0;
                lemma_folder_named_is_folder(cs, inc.name);
                let ex = cs[i]->Folder_0;
                lemma_forest_at(cs, i);
                let a = forest_ids(cs.take(i));
                let c = node_ids(cs[i]);
                lemma_distinct_split(a + c, forest_ids(cs.skip(i + 1)));
                lemma_distinct_split(a, c);
                lemma_concat_contains(a + c, forest_ids(cs.skip(i + 1)));
                lemma_concat_contains(a, c);
                assert(c == seq![ex.id] + forest_ids(ex.children));
                lemma_distinct_split(seq![ex.id], forest_ids(ex.children));
                lemma_concat_contains(seq![ex.id], forest_ids(ex.children));
                assert(node_ids(n) == seq![inc.id] + forest_ids(inc.children));
                lemma_distinct_split(seq![inc.id], forest_ids(inc.children));
                lemma_concat_contains(seq![inc.id], forest_ids(inc.children));
                assert(apart(forest_ids(ex.children), forest_ids(inc.children))) by {
                    assert forall|x: NodeId| forest_ids(ex.children).contains(x) implies !forest_ids(inc.children).contains(x) by {
                        assert(c.contains(x));
                        assert((a + c).contains(x));
                        assert(forest_ids(cs).contains(x));
                        if forest_ids(inc.children).contains(x) {
                            assert(node_ids(n).contains(x));
                        }
                    }
                }
                lemma_merge_all_ids(ex.children, inc.children, st);
                let m = merge_all(ex.children, inc.children, st);
                let y = NodeV::Folder(FolderV { children: m, ..ex });
                assert(node_ids(y) == seq![ex.id] + forest_ids(m));
                assert(seq![ex.id][0] == ex.id);
                assert(apart(seq![ex.id], forest_ids(m))) by {
                    assert forall|x: NodeId| seq![ex.id].contains(x) implies !forest_ids(m).contains(x) by {
                        assert(x == ex.id);
                        assert(c.contains(x));
                        assert((a + c).contains(x));
                        assert(forest_ids(cs).contains(x));
                        assert(!node_ids(n).contains(x));
                    }
                }
                lemma_distinct_concat(seq![ex.id], forest_ids(m));
                assert forall|x: NodeId| #[trigger] node_ids(y).contains(x) implies c.contains(x) || node_ids(n).contains(x) by {
                    if forest_ids(m).contains(x) {
                        if forest_ids(ex.children).contains(x) {
                            assert(c.contains(x));
                        } else {
                            assert(node_ids(n).contains(x));
                        }
                    } else {
                        assert(seq![ex.id].contains(x));
                    }
                }
                lemma_update_ids(cs, i, y, node_ids(n));
            },
            NodeV::Bookmark(b) => {
                let i = bookmark_with_url(cs, b.url.text())->0;
                lemma_bookmark_with_url_is_bookmark(cs, b.url.text());
                if st == ConflictStrategy::KeepNewest {
                    lemma_update_ids(cs, i, n, node_ids(n));
                } else {
                    let y = NodeV::Bookmark(BookmarkV {
                        title: b.title + " ("@ + decimal_v(sat((url_count(cs, b.url.text()) + 1) as int) as nat) + ")"@,
                        ..b
                    });
                    assert(node_ids(y) == node_ids(n));
                    lemma_forest_push(cs, y);
                    lemma_distinct_concat(forest_ids(cs), node_ids(n));
                }
            },
            NodeV::Separator(_) => {},
        }
    }
}

/// Merging nodes in, one by one, when neither side repeats an id and they
/// share none, gives children without repeated ids, holding only ids of the
/// two.
proof fn lemma_merge_all_ids(cs: Seq<NodeV>, ns: Seq<NodeV>, st: ConflictStrategy)
    requires
        forest_ids(cs).no_duplicates(),
        forest_ids(ns).no_duplicates(),
        apart(forest_ids(cs), forest_ids(ns)),
    ensures
        forest_ids(merge_all(cs, ns, st)).no_duplicates(),
        forall|x: NodeId| #[trigger] forest_ids(merge_all(cs, ns, st)).contains(x) ==> forest_ids(cs).contains(x)
            || forest_ids(ns).contains(x),
    decreases ns,
{
    if ns.len() > 0 {
        let init = ns.subrange(0, ns.len() - 1);
        let last = ns[ns.len() - 1];
        assert(init.push(last) =~= ns);
        lemma_forest_push(init, last);
        lemma_distinct_split(forest_ids(init), node_ids(last));
        lemma_concat_contains(forest_ids(init), node_ids(last));
        lemma_merge_all_ids(cs, init, st);
        let m = merge_all(cs, init, st);
        assert(apart(forest_ids(m), node_ids(last))) by {
            assert forall|x: NodeId| forest_ids(m).contains(x) implies !node_ids(last).contains(x) by {
                if forest_ids(init).contains(x) {
                } else {
                    assert(forest_ids(cs).contains(x));
                    if node_ids(last).contains(x) {
                        assert(forest_ids(ns).contains(x));
                    }
                }
            }
        }
        lemma_merge_node_ids(m, last, st);
    }
}

/// Where `take_child` leaves a placeholder.
fn placeholder() -> (r: Node)
    ensures
        r@ == NodeV::Separator(0),
{
    Node::Separator(Separator { id: 0 })
}

/// Merge `incoming` into `parent`'s children (see [`merge_node`]).
fn merge_node_into_folder(parent: &mut Folder, incoming: Node, strategy: ConflictStrategy)
    ensures
        final(parent)@ == (FolderV { children: merge_node(old(parent)@.children, incoming@, strategy), ..old(parent)@ }),
    decreases incoming,
{
    let ghost cs0 = parent@.children;
    match incoming {
        Node::Folder(incoming_folder) => {
            proof {
                assert(decreases_to!(incoming => incoming_folder));
                assert(decreases_to!(incoming_folder => incoming_folder.children));
                assert(decreases_to!(incoming_folder.children => incoming_folder.children@));
            }
            let ghost orig_children = incoming_folder.children@;
            let found_idx = position_of_folder_named(&parent.children, incoming_folder.name.as_str());
            let found = found_idx.is_some();
            let idx = match found_idx { Some(i) => i, None => 0 };
            if found {
                let taken = parent.children.remove(idx);
                proof {
                    lemma_folder_named_is_folder(cs0, incoming_folder@.name);
                }
                let mut existing = match taken {
                    Node::Folder(f) => f,
                    _ => {
                        proof {
                            assert(false);
                        }
                        return;
                    },
                };
                let ghost ex0 = existing@;
                let ghost inc_cs = incoming_folder@.children;
                let mut rest = incoming_folder.children;
                let mut k: usize = 0;
                proof {
                    assert(inc_cs.take(0) =~= Seq::<NodeV>::empty());
                    assert forall|x: int| 0 <= x < orig_children.len() implies decreases_to!(incoming => #[trigger] orig_children[x]) by {
                        assert(decreases_to!(orig_children => orig_children[x]));
                    }
                }
                while k < rest.len()
                    invariant
                        k <= rest.len(),
                        rest.len() == inc_cs.len(),
                        orig_children.len() == inc_cs.len(),
                        forall|x: int| k <= x < rest.len() ==> #[trigger] rest@[x] == orig_children[x],
                        forall|x: int| 0 <= x < orig_children.len() ==> #[trigger] node_v(orig_children[x]) == inc_cs[x],
                        forall|x: int| 0 <= x < orig_children.len() ==> decreases_to!(incoming => #[trigger] orig_children[x]),
                        existing@ == (FolderV { children: merge_all(ex0.children, inc_cs.take(k as int), strategy), ..ex0 }),
                    decreases rest.len() - k,
                {
                    let mut child = placeholder();
                    rest.set_and_swap(k, &mut child);
                    proof {
                        assert(child@ == inc_cs[k as int]);
                        assert(child == orig_children[k as int]);
                        assert(decreases_to!(orig_children => orig_children[k as int]));
                        assert(decreases_to!(incoming => child));
                        assert(inc_cs.take(k + 1).subrange(0, k as int) =~= inc_cs.take(k as int));
                        assert(inc_cs.take(k + 1)[k as int] == inc_cs[k as int]);
                    }
                    merge_node_into_folder(&mut existing, child, strategy);
                    k += 1;
                }
                proof {
                    assert(inc_cs.take(inc_cs.len() as int) =~= inc_cs);
                }
                parent.children.insert(idx, Node::Folder(existing));
                proof {
                    assert(nodes_v(parent.children@) =~= merge_node(cs0, incoming@, strategy));
                }
            } else {
                parent.children.push(Node::Folder(incoming_folder));
                proof {
                    assert(nodes_v(parent.children@) =~= cs0.push(incoming@));
                }
            }
        },
        Node::Bookmark(incoming_bm) => {
            merge_bookmark_into_folder(parent, incoming_bm, strategy);
        },
        Node::Separator(s) => {
            parent.children.push(Node::Separator(s));
            proof {
                assert(nodes_v(parent.children@) =~= cs0.push(incoming@));
            }
        },
    }
}

/// Merge the bookmark `incoming_bm` into `parent`'s children (the bookmark
/// case of [`merge_node`]).
fn merge_bookmark_into_folder(parent: &mut Folder, incoming_bm: Bookmark, strategy: ConflictStrategy)
    ensures
        final(parent)@ == (FolderV {
            children: merge_node(old(parent)@.children, NodeV::Bookmark(incoming_bm@), strategy),
            ..old(parent)@
        }),
{
    let ghost cs0 = parent@.children;
    let ghost incoming = NodeV::Bookmark(incoming_bm@);
    let found_idx = position_of_url(&parent.children, incoming_bm.url.as_str());
    let found = found_idx.is_some();
    let idx = match found_idx { Some(i) => i, None => 0 };
    proof {
        lemma_bookmark_with_url_is_bookmark(cs0, incoming_bm@.url.text());
    }
    if !found {
        parent.children.push(Node::Bookmark(incoming_bm));
        proof {
            assert(nodes_v(parent.children@) =~= cs0.push(incoming));
        }
        return;
    }
    match strategy {
        ConflictStrategy::KeepFirst => {},
        ConflictStrategy::KeepNewest => {
            let existing_dt = match &parent.children[idx] {
                Node::Bookmark(b) => b.add_date,
                _ => None,
            };
            proof {
                assert(cs0[idx as int] == node_v(parent.children@[idx as int]));
                assert(existing_dt == cs0[idx as int]->Bookmark_0.add_date);
            }
            let replace = match (existing_dt, incoming_bm.add_date) {
                (Some(e), Some(i)) => i > e,
                (None, Some(_)) => true,
                _ => false,
            };
            if replace {
                parent.children.set(idx, Node::Bookmark(incoming_bm));
                proof {
                    assert(nodes_v(parent.children@) =~= cs0.update(idx as int, incoming));
                }
            }
        },
        ConflictStrategy::KeepBoth => {
            let mut occurrences: usize = 0;
            let mut j: usize = 0;
            while j < parent.children.len()
                invariant
                    parent@.children == cs0,
                    j <= cs0.len(),
                    occurrences == url_count(cs0.take(j as int), incoming_bm@.url.text()),
                    occurrences <= j,
                decreases cs0.len() - j,
            {
                proof {
                    assert(cs0.take(j + 1).drop_last() =~= cs0.take(j as int));
                    assert(cs0[j as int] == node_v(parent.children@[j as int]));
                }
                let same = match &parent.children[j] {
                    Node::Bookmark(b) => same_text(b.url.as_str(), incoming_bm.url.as_str()),
                    _ => false,
                };
                if same {
                    occurrences += 1;
                }
                j += 1;
            }
            proof {
                assert(cs0.take(cs0.len() as int) =~= cs0);
            }
            let suffix_n = (occurrences as u64).saturating_add(1);
            let mut renamed = incoming_bm;
            let mut title = renamed.title.clone();
            title.append(" (");
            title.append(decimal(suffix_n).as_str());
            title.append(")");
            renamed.title = title;
            parent.children.push(Node::Bookmark(renamed));
            proof {
                assert(suffix_n == sat((url_count(cs0, incoming_bm@.url.text()) + 1) as int));
                assert(nodes_v(parent.children@) =~= merge_node(cs0, incoming, strategy));
            }
        },
    }

}

/// Where the first folder named `name` sits among `cs`.
fn position_of_folder_named(cs: &Vec<Node>, name: &str) -> (r: Option<usize>)
    ensures
        match folder_named(nodes_v(cs@), name@) {
            Some(i) => 0 <= i < cs.len() && r == Some(i as usize),
            None => r is None,
        },
{
    let ghost v = nodes_v(cs@);
    let mut idx: usize = 0;
    while idx < cs.len()
        invariant
            v == nodes_v(cs@),
            idx <= cs.len(),
            folder_named(v.take(idx as int), name@) is None,
        decreases cs.len() - idx,
    {
        proof {
            assert(v.take(idx + 1).drop_last() =~= v.take(idx as int));
            assert(v[idx as int] == node_v(cs@[idx as int]));
        }
        let hit = match &cs[idx] {
            Node::Folder(f) => same_text(f.name.as_str(), name),
            _ => false,
        };
        if hit {
            proof {
                lemma_first_in_prefix_folder(v, name@, idx as int + 1);
            }
            return Some(idx);
        }
        idx += 1;
    }
    proof {
        assert(v.take(v.len() as int) =~= v);
    }
    None
}

/// Where the first bookmark with URL text `u` sits among `cs`.
fn position_of_url(cs: &Vec<Node>, u: &str) -> (r: Option<usize>)
    ensures
        match bookmark_with_url(nodes_v(cs@), u@) {
            Some(i) => 0 <= i < cs.len() && r == Some(i as usize),
            None => r is None,
        },
{
    let ghost v = nodes_v(cs@);
    let mut idx: usize = 0;
    while idx < cs.len()
        invariant
            v == nodes_v(cs@),
            idx <= cs.len(),
            bookmark_with_url(v.take(idx as int), u@) is None,
        decreases cs.len() - idx,
    {
        proof {
            assert(v.take(idx + 1).drop_last() =~= v.take(idx as int));
            assert(v[idx as int] == node_v(cs@[idx as int]));
        }
        let hit = match &cs[idx] {
            Node::Bookmark(b) => same_text(b.url.as_str(), u),
            _ => false,
        };
        if hit {
            proof {
                lemma_first_in_prefix_bookmark(v, u@, idx as int + 1);
            }
            return Some(idx);
        }
        idx += 1;
    }
    proof {
        assert(v.take(v.len() as int) =~= v);
    }
    None
}

/// The first bookmark with URL text `u` is a bookmark with that URL text.
proof fn lemma_bookmark_with_url_is_bookmark(cs: Seq<NodeV>, u: Seq<char>)
    ensures
        bookmark_with_url(cs, u) matches Some(i) ==> 0 <= i < cs.len() && (cs[i] matches NodeV::Bookmark(b) && b.url.text() == u),
    decreases cs.len(),
{
    if cs.len() > 0 {
        lemma_bookmark_with_url_is_bookmark(cs.drop_last(), u);
    }
}

/// The first folder named `name` is a folder with that name.
proof fn lemma_folder_named_is_folder(cs: Seq<NodeV>, name: Seq<char>)
    ensures
        folder_named(cs, name) matches Some(i) ==> 0 <= i < cs.len() && (cs[i] matches NodeV::Folder(f) && f.name == name),
    decreases cs.len(),
{
    if cs.len() > 0 {
        lemma_folder_named_is_folder(cs.drop_last(), name);
    }
}

/// A first folder match in a prefix is the first overall.
proof fn lemma_first_in_prefix_folder(cs: Seq<NodeV>, name: Seq<char>, k: int)
    requires
        0 <= k <= cs.len(),
        folder_named(cs.take(k), name) is Some,
    ensures
        folder_named(cs, name) == folder_named(cs.take(k), name),
    decreases cs.len() - k,
{
    if k < cs.len() {
        assert(cs.take(k + 1).drop_last() =~= cs.take(k));
        lemma_first_in_prefix_folder(cs, name, k + 1);
    } else {
        assert(cs.take(k) =~= cs);
    }
}

/// A first bookmark match in a prefix is the first overall.
proof fn lemma_first_in_prefix_bookmark(cs: Seq<NodeV>, u: Seq<char>, k: int)
    requires
        0 <= k <= cs.len(),
        bookmark_with_url(cs.take(k), u) is Some,
    ensures
        bookmark_with_url(cs, u) == bookmark_with_url(cs.take(k), u),
    decreases cs.len() - k,
{
    if k < cs.len() {
        assert(cs.take(k + 1).drop_last() =~= cs.take(k));
        lemma_first_in_prefix_bookmark(cs, u, k + 1);
    } else {
        assert(cs.take(k) =~= cs);
    }
}

// ---------------------------------------------------------------------------
// Building the merged document
// ---------------------------------------------------------------------------

/// The text is empty once whitespace is trimmed.
pub open spec fn blank(s: Seq<char>) -> bool {
    forall|i: int| 0 <= i < s.len() ==> #[trigger] is_ws(s[i])
}

/// Why a pick cannot be merged, if it cannot.
pub open spec fn pick_error(sources: Seq<&Document>, p: MergePick) -> Option<MergeError> {
    if p.source_doc_id >= sources.len() {
        Some(MergeError::SourceIndexOutOfRange { idx: p.source_doc_id })
    } else if node_with_id(sources[p.source_doc_id as int].root@, p.root_node_id) is None {
        Some(MergeError::NodeIdNotFound { source_idx: p.source_doc_id, node_id: p.root_node_id })
    } else {
        None
    }
}

/// The error of the first pick that cannot be merged.
pub open spec fn first_pick_error(sources: Seq<&Document>, picks: Seq<MergePick>) -> Option<MergeError>
    decreases picks.len(),
{
    if picks.len() == 0 {
        None
    } else {
        match first_pick_error(sources, picks.drop_last()) {
            Some(e) => Some(e),
            None => pick_error(sources, picks.last()),
        }
    }
}

/// The nodes the picks name.
pub open spec fn picked_nodes(sources: Seq<&Document>, picks: Seq<MergePick>) -> Seq<NodeV> {
    picks.map_values(|p: MergePick| node_with_id(sources[p.source_doc_id as int].root@, p.root_node_id)->0)
}

/// The merged root's children after copying each node of `ns` with fresh
/// ids from `next` on and merging it in, in order; and the next unused id.
pub open spec fn merged_children(ns: Seq<NodeV>, st: ConflictStrategy, next: nat) -> (Seq<NodeV>, nat)
    decreases ns.len(),
{
    if ns.len() == 0 {
        (Seq::empty(), next)
    } else {
        let (cs, k) = merged_children(ns.drop_last(), st, next);
        let (x, k2) = relabel(ns.last(), k);
        (merge_node(cs, x, st), k2)
    }
}

proof fn lemma_merged_prefix_bound(ns: Seq<NodeV>, st: ConflictStrategy, next: nat, k: int)
    requires
        0 <= k <= ns.len(),
    ensures
        merged_children(ns.take(k), st, next).1 <= merged_children(ns, st, next).1,
        k < ns.len() ==> relabel(ns[k], merged_children(ns.take(k), st, next).1).1 <= merged_children(ns, st, next).1,
    decreases ns.len() - k,
{
    if k < ns.len() {
        lemma_merged_prefix_bound(ns, st, next, k + 1);
        assert(ns.take(k + 1).drop_last() =~= ns.take(k));
        assert(ns.take(k + 1).last() == ns[k]);
        lemma_relabel_grows(ns[k], merged_children(ns.take(k), st, next).1);
    } else {
        assert(ns.take(k) =~= ns);
    }
}

/// A copy with fresh ids takes them, each once, from `next` up to the next
/// unused id.
proof fn lemma_relabel_numbered(n: NodeV, next: nat)
    requires
        relabel(n, next).1 <= u64::MAX,
    ensures
        fresh_in(node_ids(relabel(n, next).0), next as int, relabel(n, next).1 as int),
    decreases n,
{
    if let NodeV::Folder(f) = n {
        let (cs, k) = relabel_all(f.children, next + 1);
        lemma_relabel_all_grows(f.children, next + 1);
        lemma_relabel_all_numbered(f.children, next + 1);
        lemma_fresh_one(next as u64);
        lemma_fresh_join(seq![next as u64], forest_ids(cs), next as int, next + 1int, next + 1int, k as int, next as int, k as int);
    } else {
        lemma_fresh_one(next as u64);
    }
}

/// Copies with fresh ids take them, each once, from `next` up to the next
/// unused id.
proof fn lemma_relabel_all_numbered(ns: Seq<NodeV>, next: nat)
    requires
        relabel_all(ns, next).1 <= u64::MAX,
    ensures
        fresh_in(forest_ids(relabel_all(ns, next).0), next as int, relabel_all(ns, next).1 as int),
    decreases ns,
{
    if ns.len() == 0 {
        assert(forest_ids(Seq::<NodeV>::empty()) =~= Seq::<NodeId>::empty());
    } else {
        let init = ns.subrange(0, ns.len() - 1);
        let (a, k) = relabel_all(init, next);
        let (x, k2) = relabel(ns[ns.len() - 1], k);
        lemma_relabel_all_grows(init, next);
        lemma_relabel_grows(ns[ns.len() - 1], k);
        lemma_relabel_all_numbered(init, next);
        lemma_relabel_numbered(ns[ns.len() - 1], k);
        lemma_forest_push(a, x);
        lemma_fresh_join(forest_ids(a), node_ids(x), next as int, k as int, k as int, k2 as int, next as int, k2 as int);
    }
}

/// The merged children hold ids, each once, from `next` up to the next
/// unused id.
proof fn lemma_merged_numbered(ns: Seq<NodeV>, st: ConflictStrategy, next: nat)
    requires
        merged_children(ns, st, next).1 <= u64::MAX,
    ensures
        fresh_in(forest_ids(merged_children(ns, st, next).0), next as int, merged_children(ns, st, next).1 as int),
    decreases ns.len(),
{
    if ns.len() == 0 {
        assert(forest_ids(Seq::<NodeV>::empty()) =~= Seq::<NodeId>::empty());
    } else {
        let (cs, k) = merged_children(ns.drop_last(), st, next);
        let (x, k2) = relabel(ns.last(), k);
        lemma_merged_prefix_bound(ns, st, next, ns.len() - 1);
        assert(ns.take(ns.len() - 1) =~= ns.drop_last());
        assert(ns[ns.len() - 1] == ns.last());
        lemma_merged_grows(ns.drop_last(), st, next);
        lemma_relabel_grows(ns.last(), k);
        lemma_merged_numbered(ns.drop_last(), st, next);
        lemma_relabel_numbered(ns.last(), k);
        assert(apart(forest_ids(cs), node_ids(x))) by {
            assert forall|y: NodeId| forest_ids(cs).contains(y) implies !node_ids(x).contains(y) by {
                let i = choose|i: int| 0 <= i < forest_ids(cs).len() && forest_ids(cs)[i] == y;
                if node_ids(x).contains(y) {
                    let j = choose|j: int| 0 <= j < node_ids(x).len() && node_ids(x)[j] == y;
                }
            }
        }
        lemma_merge_node_ids(cs, x, st);
        let m = merge_node(cs, x, st);
        assert forall|i: int| 0 <= i < forest_ids(m).len() implies next <= #[trigger] forest_ids(m)[i] < k2 by {
            let y = forest_ids(m)[i];
            assert(forest_ids(m).contains(y));
            if forest_ids(cs).contains(y) {
                let j = choose|j: int| 0 <= j < forest_ids(cs).len() && forest_ids(cs)[j] == y;
            } else {
                let j = choose|j: int| 0 <= j < node_ids(x).len() && node_ids(x)[j] == y;
            }
        }
    }
}

/// The merged children's next unused id is at least where they started.
proof fn lemma_merged_grows(ns: Seq<NodeV>, st: ConflictStrategy, next: nat)
    ensures
        merged_children(ns, st, next).1 >= next,
    decreases ns.len(),
{
    if ns.len() > 0 {
        lemma_merged_grows(ns.drop_last(), st, next);
        lemma_relabel_grows(ns.last(), merged_children(ns.drop_last(), st, next).1);
    }
}

/// A copy with fresh ids keeps every URL, so keeps them settled.
proof fn lemma_relabel_settled(n: NodeV, next: nat)
    requires
        node_settled(n),
    ensures
        node_settled(relabel(n, next).0),
    decreases n,
{
    if let NodeV::Folder(f) = n {
        lemma_relabel_all_settled(f.children, next + 1);
    }
}

/// Copies with fresh ids keep every URL, so keep them settled.
proof fn lemma_relabel_all_settled(ns: Seq<NodeV>, next: nat)
    requires
        nodes_settled(ns),
    ensures
        nodes_settled(relabel_all(ns, next).0),
    decreases ns,
{
    if ns.len() == 0 {
        assert(relabel_all(ns, next).0 =~= Seq::<NodeV>::empty());
    } else {
        let init = ns.subrange(0, ns.len() - 1);
        lemma_settled_each(ns);
        lemma_settled_each(init);
        assert forall|k: int| 0 <= k < init.len() implies #[trigger] node_settled(init[k]) by {
            assert(init[k] == ns[k]);
        }
        lemma_relabel_all_settled(init, next);
        let (a, k) = relabel_all(init, next);
        lemma_relabel_settled(ns[ns.len() - 1], k);
        lemma_push_settled(a, relabel(ns[ns.len() - 1], k).0);
    }
}

/// Merging a settled node into settled children keeps them settled.
proof fn lemma_merge_node_settled(cs: Seq<NodeV>, n: NodeV, st: ConflictStrategy)
    requires
        nodes_settled(cs),
        node_settled(n),
    ensures
        nodes_settled(merge_node(cs, n, st)),
    decreases n,
{
    let r = merge_node(cs, n, st);
    if r == cs.push(n) {
        lemma_push_settled(cs, n);
    } else if r == cs {
    } else {
        lemma_settled_each(cs);
        match n {
            NodeV::Folder(inc) => {
                let i = folder_named(cs, inc.name)->0;
                lemma_folder_named_is_folder(cs, inc.name);
                let ex = cs[i]->Folder_0;
                assert(node_settled(cs[i]));
                lemma_merge_all_settled(ex.children, inc.children, st);
                let y = NodeV::Folder(FolderV { children: merge_all(ex.children, inc.children, st), ..ex });
                lemma_children_settled(cs, i, y);
            },
            NodeV::Bookmark(b) => {
                let i = bookmark_with_url(cs, b.url.text())->0;
                lemma_bookmark_with_url_is_bookmark(cs, b.url.text());
                if st == ConflictStrategy::KeepNewest {
                    lemma_children_settled(cs, i, n);
                } else {
                    let y = NodeV::Bookmark(BookmarkV {
                        title: b.title + " ("@ + decimal_v(sat((url_count(cs, b.url.text()) + 1) as int) as nat) + ")"@,
                        ..b
                    });
                    lemma_push_settled(cs, y);
                }
            },
            NodeV::Separator(_) => {},
        }
    }
}

/// Merging settled nodes into settled children keeps them settled.
proof fn lemma_merge_all_settled(cs: Seq<NodeV>, ns: Seq<NodeV>, st: ConflictStrategy)
    requires
        nodes_settled(cs),
        nodes_settled(ns),
    ensures
        nodes_settled(merge_all(cs, ns, st)),
    decreases ns,
{
    if ns.len() > 0 {
        let init = ns.subrange(0, ns.len() - 1);
        lemma_settled_each(ns);
        lemma_settled_each(init);
        assert forall|k: int| 0 <= k < init.len() implies #[trigger] node_settled(init[k]) by {
            assert(init[k] == ns[k]);
        }
        lemma_merge_all_settled(cs, init, st);
        lemma_merge_node_settled(merge_all(cs, init, st), ns[ns.len() - 1], st);
    }
}

/// The merged children of settled nodes are settled.
proof fn lemma_merged_settled(ns: Seq<NodeV>, st: ConflictStrategy, next: nat)
    requires
        nodes_settled(ns),
    ensures
        nodes_settled(merged_children(ns, st, next).0),
    decreases ns.len(),
{
    if ns.len() == 0 {
        assert(merged_children(ns, st, next).0 =~= Seq::<NodeV>::empty());
    } else {
        let init = ns.drop_last();
        lemma_settled_each(ns);
        lemma_settled_each(init);
        assert forall|k: int| 0 <= k < init.len() implies #[trigger] node_settled(init[k]) by {
            assert(init[k] == ns[k]);
        }
        lemma_merged_settled(init, st, next);
        let (cs, k) = merged_children(init, st, next);
        lemma_relabel_settled(ns.last(), k);
        lemma_merge_node_settled(cs, relabel(ns.last(), k).0, st);
    }
}

/// How many bookmarks with URL text `u` a bookmark adds to a count.
proof fn lemma_url_count_push(cs: Seq<NodeV>, n: NodeV, u: Seq<char>)
    ensures
        url_count(cs.push(n), u) == url_count(cs, u) + if n matches NodeV::Bookmark(b) && b.url.text() == u {
            1nat
        } else {
            0nat
        },
{
    assert(cs.push(n).drop_last() =~= cs);
}

/// Under `KeepBoth`, a bookmark whose URL text already occurs `k` times
/// among the children is added after them, unchanged but for its title,
/// which gains the suffix ` (k+1)`; the URL then occurs `k + 1` times.
/// Merging the same bookmark again so numbers it ` (k+2)`, and so on: the
/// copies of one URL are told apart by their numbers.
pub proof fn keep_both_numbers_duplicates(cs: Seq<NodeV>, b: BookmarkV)
    requires
        url_count(cs, b.url.text()) > 0,
        url_count(cs, b.url.text()) + 1 <= u64::MAX,
    ensures
        ({
            let k = url_count(cs, b.url.text());
            let r = merge_node(cs, NodeV::Bookmark(b), ConflictStrategy::KeepBoth);
            &&& r.len() == cs.len() + 1
            &&& r.drop_last() == cs
            &&& r.last() == NodeV::Bookmark(BookmarkV { title: b.title + " ("@ + decimal_v(k + 1) + ")"@, ..b })
            &&& url_count(r, b.url.text()) == k + 1
        }),
{
    let u = b.url.text();
    lemma_url_count_found(cs, u);
    let k = url_count(cs, u);
    let y = NodeV::Bookmark(BookmarkV { title: b.title + " ("@ + decimal_v(k + 1) + ")"@, ..b });
    assert(sat((k + 1) as int) as nat == k + 1);
    let r = merge_node(cs, NodeV::Bookmark(b), ConflictStrategy::KeepBoth);
    assert(r == cs.push(y));
    assert(cs.push(y).drop_last() =~= cs);
    lemma_url_count_push(cs, y, u);
}

/// A URL text that some bookmark among `cs` has is found among them.
proof fn lemma_url_count_found(cs: Seq<NodeV>, u: Seq<char>)
    ensures
        url_count(cs, u) > 0 ==> bookmark_with_url(cs, u) is Some,
    decreases cs.len(),
{
    if cs.len() > 0 {
        lemma_url_count_found(cs.drop_last(), u);
    }
}

/// The document `build_merged_document` builds when the plan is valid.
pub open spec fn merged_root(sources: Seq<&Document>, plan: MergePlan) -> FolderV {
    FolderV {
        id: 1,
        name: plan.merged_root_name@,
        add_date: None,
        last_modified: None,
        is_toolbar: false,
        attrs: Seq::empty(),
        children: merged_children(picked_nodes(sources, plan.picks@), plan.strategy, 2).0,
    }
}

/// The merged tree's ids fit the allocator.
pub open spec fn merge_fits(sources: Seq<&Document>, plan: MergePlan) -> bool {
    first_pick_error(sources, plan.picks@) is None
        ==> merged_children(picked_nodes(sources, plan.picks@), plan.strategy, 2).1 <= u64::MAX
}

fn is_blank(s: &str) -> (r: bool)
    ensures
        r == blank(s@),
{
    let cs = crate::text::chars_of(s);
    let mut i: usize = 0;
    while i < cs.len()
        invariant
            cs@ == s@,
            i <= cs.len(),
            forall|k: int| 0 <= k < i ==> #[trigger] is_ws(s@[k]),
        decreases cs.len() - i,
    {
        if !crate::sanitize::treatments::text::is_whitespace(cs[i]) {
            return false;
        }
        i += 1;
    }
    true
}

/// Build a new document from the picked subtrees of `sources`.
///
/// The merged document gets the id `id`, fresh node ids (the root is 1),
/// the default header and no history.  Refuses an empty plan, a blank root
/// name, and a pick whose source or node does not exist (the first such
/// pick is reported).
pub fn build_merged_document(id: DocumentId, sources: &[&Document], plan: &MergePlan) -> (r: Result<Document, MergeError>)
    requires
        merge_fits(sources@, *plan),
    ensures
        plan.picks.len() == 0 ==> r == Err::<Document, MergeError>(MergeError::EmptyPlan),
        plan.picks.len() > 0 && blank(plan.merged_root_name@) ==> r == Err::<Document, MergeError>(
            MergeError::EmptyMergedRootName,
        ),
        plan.picks.len() > 0 && !blank(plan.merged_root_name@) && first_pick_error(sources@, plan.picks@) is Some
            ==> r == Err::<Document, MergeError>(first_pick_error(sources@, plan.picks@)->0),
        plan.picks.len() > 0 && !blank(plan.merged_root_name@) && first_pick_error(sources@, plan.picks@) is None
            ==> (r matches Ok(d) && {
            &&& d.id == id
            &&& d.path is None
            &&& d.root@ == merged_root(sources@, *plan)
            &&& d.id_gen.next_id() == merged_children(picked_nodes(sources@, plan.picks@), plan.strategy, 2).1
            &&& d.stats.counts(d.root@)
            &&& d.header.title is Some && d.header.title->0@ == "Bookmarks"@
            &&& d.undo_stack.len() == 0
            &&& d.redo_stack.len() == 0
            &&& !d.dirty
            &&& crate::model::tree::unique_ids(d.root@)
            &&& crate::model::tree::ids_below(d.root@, d.id_gen.next_id() as int)
            &&& (forall|k: int| 0 <= k < sources@.len() ==> (#[trigger] sources@[k]).wf()) ==> d.wf()
        }),
{
    if plan.picks.len() == 0 {
        return Err(MergeError::EmptyPlan);
    }
    if is_blank(plan.merged_root_name.as_str()) {
        return Err(MergeError::EmptyMergedRootName);
    }
    let ghost ps = plan.picks@;
    let mut k: usize = 0;
    while k < plan.picks.len()
        invariant
            ps == plan.picks@,
            k <= ps.len(),
            ps.len() > 0,
            !blank(plan.merged_root_name@),
            first_pick_error(sources@, ps.take(k as int)) is None,
        decreases ps.len() - k,
    {
        let pick = plan.picks[k];
        proof {
            assert(ps.take(k + 1).drop_last() =~= ps.take(k as int));
            assert(ps.take(k + 1).last() == pick);
        }
        if pick.source_doc_id >= sources.len() {
            proof {
                lemma_first_error_prefix(sources@, ps, k as int + 1);
            }
            return Err(MergeError::SourceIndexOutOfRange { idx: pick.source_doc_id });
        }
        let src = sources[pick.source_doc_id];
        if find_node(&src.root, pick.root_node_id).is_none() {
            proof {
                lemma_first_error_prefix(sources@, ps, k as int + 1);
            }
            return Err(MergeError::NodeIdNotFound { source_idx: pick.source_doc_id, node_id: pick.root_node_id });
        }
        k += 1;
    }
    proof {
        assert(ps.take(ps.len() as int) =~= ps);
    }
    let ghost nodes = picked_nodes(sources@, ps);
    let mut id_gen = NodeIdAllocator::new();
    let root_id = id_gen.alloc_id();
    let mut root = Folder {
        id: root_id,
        name: plan.merged_root_name.clone(),
        add_date: None,
        last_modified: None,
        is_toolbar: false,
        attrs: attr_map_new(),
        children: Vec::new(),
    };
    let mut k: usize = 0;
    proof {
        assert(nodes.take(0) =~= Seq::<NodeV>::empty());
        assert(nodes_v(root.children@) =~= Seq::<NodeV>::empty());
    }
    while k < plan.picks.len()
        invariant
            ps == plan.picks@,
            k <= ps.len(),
            ps.len() > 0,
            !blank(plan.merged_root_name@),
            nodes == picked_nodes(sources@, ps),
            first_pick_error(sources@, ps) is None,
            merged_children(nodes, plan.strategy, 2).1 <= u64::MAX,
            root@ == (FolderV {
                id: 1,
                name: plan.merged_root_name@,
                add_date: None,
                last_modified: None,
                is_toolbar: false,
                attrs: Seq::empty(),
                children: merged_children(nodes.take(k as int), plan.strategy, 2).0,
            }),
            id_gen.next_id() as nat == merged_children(nodes.take(k as int), plan.strategy, 2).1,
        decreases ps.len() - k,
    {
        let pick = plan.picks[k];
        proof {
            lemma_no_error_each(sources@, ps, k as int);
            lemma_merged_prefix_bound(nodes, plan.strategy, 2, k as int);
            assert(nodes.take(k + 1).drop_last() =~= nodes.take(k as int));
            assert(nodes.take(k + 1).last() == nodes[k as int]);
        }
        let src = sources[pick.source_doc_id];
        let original = find_node(&src.root, pick.root_node_id).unwrap();
        let cloned = clone_node_with_fresh_ids(original, &mut id_gen);
        merge_node_into_folder(&mut root, cloned, plan.strategy);
        k += 1;
    }
    proof {
        assert(nodes.take(ps.len() as int) =~= nodes);
        let t = merged_children(nodes, plan.strategy, 2);
        lemma_merged_grows(nodes, plan.strategy, 2);
        lemma_merged_numbered(nodes, plan.strategy, 2);
        lemma_fresh_one(1u64);
        lemma_fresh_join(seq![1u64], forest_ids(t.0), 1, 2, 2, t.1 as int, 1, t.1 as int);
        assert(tree_ids(root@) == seq![1u64] + forest_ids(t.0));
        lemma_distinct_ids_unique(root@, t.1 as int);
        if forall|k: int| 0 <= k < sources@.len() ==> (#[trigger] sources@[k]).wf() {
            lemma_settled_each(nodes);
            assert forall|k: int| 0 <= k < nodes.len() implies #[trigger] node_settled(nodes[k]) by {
                lemma_no_error_each(sources@, ps, k);
                let src = sources@[ps[k].source_doc_id as int];
                assert(src.wf());
                let f = src.root@;
                let id = ps[k].root_node_id;
                crate::model::tree::lemma_first_path(f, id);
                lemma_node_settled_at(f, crate::model::edit::locate(f, id));
            }
            lemma_merged_settled(nodes, plan.strategy, 2);
        }
    }
    let stats = DocumentStats::from_root(&root);
    Ok(Document {
        id,
        path: None,
        root,
        header: HeaderMetadata::default(),
        id_gen,
        stats,
        undo_stack: Vec::new(),
        redo_stack: Vec::new(),
        dirty: false,
        history_dropped: false,
    })
}

/// An error in a prefix is the first error of the whole.
proof fn lemma_first_error_prefix(sources: Seq<&Document>, ps: Seq<MergePick>, k: int)
    requires
        0 <= k <= ps.len(),
        first_pick_error(sources, ps.take(k)) is Some,
    ensures
        first_pick_error(sources, ps) == first_pick_error(sources, ps.take(k)),
    decreases ps.len() - k,
{
    if k < ps.len() {
        assert(ps.take(k + 1).drop_last() =~= ps.take(k));
        lemma_first_error_prefix(sources, ps, k + 1);
    } else {
        assert(ps.take(k) =~= ps);
    }
}

/// With no error overall, no pick has one.
proof fn lemma_no_error_each(sources: Seq<&Document>, ps: Seq<MergePick>, k: int)
    requires
        0 <= k < ps.len(),
        first_pick_error(sources, ps) is None,
    ensures
        pick_error(sources, ps[k]) is None,
    decreases ps.len() - k,
{
    if k < ps.len() - 1 {
        assert(ps.drop_last()[k] == ps[k]);
        lemma_no_error_each(sources, ps.drop_last(), k);
    }
}

} // verus!

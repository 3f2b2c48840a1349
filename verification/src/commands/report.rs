//! What the command-line tool reports about a document and a pass: tree
//! depth, proposed changes by kind, the bookmark a deletion names, and the
//! built-in rule sets' one-line descriptions.
use vstd::prelude::*;
use crate::model::node::{lemma_folder_v, lemma_nodes_v, BookmarkV, Folder, FolderV, Node, NodeId, NodeV};
use crate::sanitize::treatment::{changes_v, Change, ChangeKind, ChangeKindV, ChangeV};

verus! {

broadcast use {lemma_nodes_v, lemma_folder_v};

/// How many folder edges lead from `f` to its deepest folder (0 when it
/// holds no folder).
pub open spec fn depth_v(f: FolderV) -> nat
    decreases f,
{
    depths_v(f.children)
}

/// The deepest folder among `ns`, counted from their parent.
pub open spec fn depths_v(ns: Seq<NodeV>) -> nat
    decreases ns,
{
    if ns.len() == 0 {
        0
    } else {
        let head = depths_v(ns.subrange(0, ns.len() - 1));
        let last = match ns[ns.len() - 1] {
            NodeV::Folder(c) => 1 + depth_v(c),
            _ => 0,
        };
        if head >= last {
            head
        } else {
            last
        }
    }
}

/// `current` plus the depth below `folder`.
fn walk(folder: &Folder, current: u32) -> (r: u32)
    requires
        current + depth_v(folder@) <= u32::MAX,
    ensures
        r == current + depth_v(folder@),
    decreases folder,
{
    let ghost ch = folder@.children;
    let mut max = current;
    let mut i: usize = 0;
    proof {
        assert(ch.subrange(0, 0) =~= Seq::<NodeV>::empty());
    }
    while i < folder.children.len()
        invariant
            i <= folder.children.len(),
            ch == folder@.children,
            ch.len() == folder.children.len(),
            current + depth_v(folder@) <= u32::MAX,
            max == current + depths_v(ch.subrange(0, i as int)),
        decreases folder.children.len() - i,
    {
        proof {
            assert(ch.subrange(0, i + 1).subrange(0, i as int) =~= ch.subrange(0, i as int));
            assert(ch[i as int] == folder.children@[i as int]@);
            lemma_prefix_depth(ch, i + 1);
        }
        if let Node::Folder(f) = &folder.children[i] {
            proof {
                assert(decreases_to!(folder => folder.children));
                assert(decreases_to!(folder.children => folder.children@));
                assert(decreases_to!(folder.children@ => folder.children@[i as int]));
            }
            let sub = walk(f, current + 1);
            if sub > max {
                max = sub;
            }
        }
        i += 1;
    }
    proof {
        assert(ch.subrange(0, ch.len() as int) =~= ch);
    }
    max
}

proof fn lemma_prefix_depth(ns: Seq<NodeV>, k: int)
    requires
        0 <= k <= ns.len(),
    ensures
        depths_v(ns.subrange(0, k)) <= depths_v(ns),
    decreases ns.len(),
{
    if k < ns.len() {
        assert(ns.subrange(0, ns.len() - 1).subrange(0, k) =~= ns.subrange(0, k));
        lemma_prefix_depth(ns.subrange(0, ns.len() - 1), k);
    } else {
        assert(ns.subrange(0, k) =~= ns);
    }
}

/// Tree depth in folder edges from the root: 0 when every bookmark sits at
/// the top level, 1 with one level of folders, and so on.
pub fn max_depth(root: &Folder) -> (r: u32)
    requires
        depth_v(root@) <= u32::MAX,
    ensures
        r == depth_v(root@),
{
    walk(root, 0)
}

/// How many of `cs` edit a field, delete a node, and update a flag.
pub open spec fn kind_counts(cs: Seq<ChangeV>) -> (nat, nat, nat)
    decreases cs.len(),
{
    if cs.len() == 0 {
        (0, 0, 0)
    } else {
        let c = kind_counts(cs.drop_last());
        match cs.last().kind {
            ChangeKindV::SetField { .. } => ((c.0 + 1) as nat, c.1, c.2),
            ChangeKindV::DeleteNode => (c.0, (c.1 + 1) as nat, c.2),
            ChangeKindV::SetFlag { .. } => (c.0, c.1, (c.2 + 1) as nat),
        }
    }
}

proof fn lemma_counts_bounded(cs: Seq<ChangeV>)
    ensures
        kind_counts(cs).0 + kind_counts(cs).1 + kind_counts(cs).2 == cs.len(),
    decreases cs.len(),
{
    if cs.len() > 0 {
        lemma_counts_bounded(cs.drop_last());
    }
}

/// The number of field edits, deletions and flag updates among `changes`.
pub fn count_kinds(changes: &[Change]) -> (r: (usize, usize, usize))
    ensures
        r.0 == kind_counts(changes_v(changes@)).0,
        r.1 == kind_counts(changes_v(changes@)).1,
        r.2 == kind_counts(changes_v(changes@)).2,
{
    let ghost all = changes_v(changes@);
    let mut set_field: usize = 0;
    let mut delete_node: usize = 0;
    let mut set_flag: usize = 0;
    let mut i: usize = 0;
    while i < changes.len()
        invariant
            i <= changes.len(),
            all == changes_v(changes@),
            all.len() == changes.len(),
            (set_field as nat, delete_node as nat, set_flag as nat) == kind_counts(all.take(i as int)),
        decreases changes.len() - i,
    {
        proof {
            assert(all.take(i + 1).drop_last() =~= all.take(i as int));
            assert(all.take(i + 1).last() == changes@[i as int]@);
            lemma_counts_bounded(all.take(i + 1));
        }
        match changes[i].kind {
            ChangeKind::SetField { .. } => {
                set_field += 1;
            },
            ChangeKind::DeleteNode => {
                delete_node += 1;
            },
            ChangeKind::SetFlag { .. } => {
                set_flag += 1;
            },
        }
        i += 1;
    }
    proof {
        assert(all.take(changes.len() as int) =~= all);
    }
    (set_field, delete_node, set_flag)
}

/// The first bookmark with id `id` among `ns` and below them, in document
/// order.
pub open spec fn bookmark_with_id(ns: Seq<NodeV>, id: NodeId) -> Option<BookmarkV>
    decreases ns,
{
    if ns.len() == 0 {
        None
    } else {
        let first = match ns[0] {
            NodeV::Bookmark(b) => if b.id == id {
                Some(b)
            } else {
                None
            },
            NodeV::Folder(f) => bookmark_with_id(f.children, id),
            NodeV::Separator(_) => None,
        };
        match first {
            Some(b) => Some(b),
            None => bookmark_with_id(ns.subrange(1, ns.len() as int), id),
        }
    }
}

/// Title and URL of the bookmark with id `node_id` below `folder`, for a
/// deletion line of a dry run; `None` for folders and unknown ids.
pub fn find_bookmark_preview(folder: &Folder, node_id: NodeId) -> (r: Option<(String, String)>)
    ensures
        match bookmark_with_id(folder@.children, node_id) {
            Some(b) => r matches Some(p) && p.0@ == b.title && p.1@ == b.url.text(),
            None => r is None,
        },
    decreases folder,
{
    let ghost ch = folder@.children;
    let mut i: usize = 0;
    proof {
        assert(ch.subrange(0, ch.len() as int) =~= ch);
    }
    while i < folder.children.len()
        invariant
            i <= folder.children.len(),
            ch == folder@.children,
            ch.len() == folder.children.len(),
            bookmark_with_id(ch, node_id) == bookmark_with_id(ch.subrange(i as int, ch.len() as int), node_id),
        decreases folder.children.len() - i,
    {
        let ghost rest = ch.subrange(i as int, ch.len() as int);
        proof {
            assert(rest[0] == folder.children@[i as int]@);
            assert(rest.subrange(1, rest.len() as int) =~= ch.subrange(i + 1, ch.len() as int));
        }
        match &folder.children[i] {
            Node::Bookmark(b) => {
                if b.id == node_id {
                    return Some((b.title.clone(), b.url.as_str().to_owned()));
                }
            },
            Node::Folder(f) => {
                proof {
                    assert(decreases_to!(folder => folder.children));
                    assert(decreases_to!(folder.children => folder.children@));
                    assert(decreases_to!(folder.children@ => folder.children@[i as int]));
                }
                match find_bookmark_preview(f, node_id) {
                    Some(found) => {
                        return Some(found);
                    },
                    None => {},
                }
            },
            Node::Separator(_) => {},
        }
        i += 1;
    }
    None
}

/// The one-line description of a built-in rule set (`(custom)` for any
/// other name).
pub open spec fn builtin_description(name: Seq<char>) -> Seq<char> {
    if name == "Minimal clean"@ {
        "strip common UTM / click-id / tracking-fragment params, normalise whitespace"@
    } else if name == "Aggressive scrub"@ {
        "Minimal clean + session/affiliate/search params, fragment removal, email/handle scrubbing"@
    } else if name == "Full scrub"@ {
        "Aggressive scrub + path user segments, host demobilisation, shortener detection, author suffix"@
    } else if name == "Find duplicates"@ {
        "propose deleting exact-URL duplicates, keeping the oldest (or first-seen); dry-run to review — a real run auto-approves deletions"@
    } else {
        "(custom)"@
    }
}

/// One-line description for each shipped built-in rule set.
pub fn describe_builtin(name: &str) -> (r: &'static str)
    ensures
        r@ == builtin_description(name@),
{
    if crate::text::same_text(name, "Minimal clean") {
        "strip common UTM / click-id / tracking-fragment params, normalise whitespace"
    } else if crate::text::same_text(name, "Aggressive scrub") {
        "Minimal clean + session/affiliate/search params, fragment removal, email/handle scrubbing"
    } else if crate::text::same_text(name, "Full scrub") {
        "Aggressive scrub + path user segments, host demobilisation, shortener detection, author suffix"
    } else if crate::text::same_text(name, "Find duplicates") {
        "propose deleting exact-URL duplicates, keeping the oldest (or first-seen); dry-run to review — a real run auto-approves deletions"
    } else {
        "(custom)"
    }
}

} // verus!

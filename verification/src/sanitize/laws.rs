//! What undo and redo promise: replaying the inverses of an applied change
//! set or of a structural edit gives back the tree as it was, and redoing
//! then gives back the edited tree and the same undo entry.
use vstd::prelude::*;
use crate::model::document::{Field, InverseKindV, InverseV};
use crate::model::edit::{
    bookmark_with_field, found, locate, node_with_id, position_v, read_field_v, read_flag_v,
    remove_v, write_field_v, write_flag_v, insert_v, folder_with_id,
};
use crate::model::history::{
    apply_inverse_v, apply_step, apply_steps, approved_only, capture_v, replay_v,
};
use crate::model::node::{url_from_text, BookmarkV, FolderV, NodeId, NodeV};
use crate::model::settled::{
    canon_url, lemma_canon_text, lemma_node_settled_at, lemma_remove_settled,
    lemma_replace_settled, urls_settled,
};
use crate::model::preserve::{
    is_leaf, lemma_insert_ids, lemma_insert_unique, lemma_remove_ids, lemma_remove_unique,
    lemma_replace_ids, lemma_replace_unique, same_shape, clamp_at, is_prefix, removed_origin,
};
use crate::model::tree::{
    append_child, contains_id, folder_at, id_at, ids_below, insert_child, lemma_first_path,
    lemma_folder_at_node, lemma_folder_at_with, lemma_locate, lemma_node_at_parent,
    lemma_remove_insert, lemma_replace_same, lemma_with_folder_at_same,
    lemma_with_folder_at_twice, node_at, remove_child, replace_child, unique_ids, with_children,
    with_folder_at,
};
use crate::sanitize::treatment::{changes_v, ChangeKind, ChangeKindV, ChangeSet, ChangeV};
use crate::urls::parse_url;
use crate::sanitize::document_ops::{create_target, rename_field, single_entry};

verus! {

/// Replacing the node that `id` locates by one of the same shape keeps the
/// ids and the located path, and putting the old node back gives `f`.
proof fn lemma_replace_located(f: FolderV, id: NodeId, n2: NodeV)
    requires
        unique_ids(f),
        found(f, id),
        locate(f, id).len() > 0,
        node_at(f, locate(f, id)) is Some,
        same_shape(node_at(f, locate(f, id))->0, n2),
    ensures
        ({
            let p = locate(f, id);
            let q = p.drop_last();
            let i = p.last();
            let f1 = replace_child(f, q, i, n2);
            &&& folder_at(f, q) is Some
            &&& 0 <= i < folder_at(f, q)->0.children.len()
            &&& node_at(f, p) == Some(folder_at(f, q)->0.children[i])
            &&& unique_ids(f1)
            &&& found(f1, id)
            &&& locate(f1, id) == p
            &&& node_at(f1, p) == Some(n2)
            &&& replace_child(f1, q, i, node_at(f, p)->0) == f
        }),
{
    let p = locate(f, id);
    let q = p.drop_last();
    let i = p.last();
    lemma_first_path(f, id);
    lemma_node_at_parent(f, p);
    let g = folder_at(f, q)->0;
    let n0 = g.children[i];
    let f1 = replace_child(f, q, i, n2);
    assert forall|x: Seq<int>| #[trigger] id_at(f1, x) == id_at(f, x) by {
        lemma_replace_ids(f, q, i, n2, x);
    }
    lemma_replace_unique(f, q, i, n2, 0);
    lemma_locate(f1, id, p);
    let g1 = with_children(g, g.children.update(i, n2));
    lemma_folder_at_with(f, q, g1);
    lemma_node_at_parent(f1, p);
    assert(g1.children.update(i, n0) =~= g.children);
    assert(with_children(g1, g1.children.update(i, n0)) == g);
    lemma_with_folder_at_twice(f, q, g1, g);
    lemma_with_folder_at_same(f, q);
}

/// The text that reads back after writing `a` to `field`: a URL reads back
/// as the serialization that parsing `a` gives.
pub open spec fn written_text(field: Field, a: Seq<char>) -> Seq<char> {
    if field == Field::Url {
        url_from_text(a).text()
    } else {
        a
    }
}

/// Writing a field and writing the old value back gives the tree as it
/// was; ids stay unique, the written value reads back, and writing what
/// reads back gives the same tree.  A URL write needs settled URLs.
proof fn lemma_write_field_step(f: FolderV, id: NodeId, field: Field, a: Seq<char>)
    requires
        unique_ids(f),
        read_field_v(f, id, field) is Some,
        field == Field::Url ==> urls_settled(f) && canon_url(url_from_text(a)),
    ensures
        ({
            let v = read_field_v(f, id, field)->0;
            let f1 = write_field_v(f, id, field, a);
            &&& unique_ids(f1)
            &&& urls_settled(f) ==> urls_settled(f1)
            &&& read_field_v(f1, id, field) == Some(written_text(field, a))
            &&& write_field_v(f1, id, field, v) == f
            &&& write_field_v(f, id, field, written_text(field, a)) == f1
        }),
{
    let p = locate(f, id);
    lemma_first_path(f, id);
    if p.len() == 0 {
        let f1 = write_field_v(f, id, field, a);
        assert(f.id == id);
        assert forall|x: Seq<int>| #[trigger] id_at(f1, x) == id_at(f, x) by {
            assert(f1.children == f.children);
        }
    } else {
        lemma_node_at_parent(f, p);
        let n0 = node_at(f, p)->0;
        let n2 = match n0 {
            NodeV::Folder(g) => NodeV::Folder(FolderV { name: a, ..g }),
            NodeV::Bookmark(b) => NodeV::Bookmark(bookmark_with_field(b, field, a)),
            NodeV::Separator(s) => NodeV::Separator(s),
        };
        lemma_replace_located(f, id, n2);
        if urls_settled(f) {
            lemma_node_settled_at(f, p);
            lemma_replace_settled(f, p.drop_last(), p.last(), n2);
        }
        if field == Field::Url {
            let b = n0->Bookmark_0;
            lemma_canon_text(b.url);
            lemma_canon_text(url_from_text(a));
        }
    }
}

/// Setting a bookmark flag and setting the old value back gives the tree as
/// it was; ids stay unique and the new value reads back.
proof fn lemma_write_flag_step(f: FolderV, id: NodeId, flag: crate::model::node::BookmarkFlag, a: bool)
    requires
        unique_ids(f),
        read_flag_v(f, id, flag) is Some,
    ensures
        ({
            let v = read_flag_v(f, id, flag)->0;
            let f1 = write_flag_v(f, id, flag, a);
            &&& unique_ids(f1)
            &&& urls_settled(f) ==> urls_settled(f1)
            &&& read_flag_v(f1, id, flag) == Some(a)
            &&& write_flag_v(f1, id, flag, v) == f
        }),
{
    let p = locate(f, id);
    lemma_first_path(f, id);
    let b = node_with_id(f, id)->0->Bookmark_0;
    let n2 = NodeV::Bookmark(BookmarkV { is_shortener: a, ..b });
    lemma_replace_located(f, id, n2);
    if urls_settled(f) {
        lemma_node_settled_at(f, p);
        lemma_replace_settled(f, p.drop_last(), p.last(), n2);
    }
}

/// Removing the node `id` locates and inserting it back where it was gives
/// the tree as it was.
proof fn lemma_delete_step(f: FolderV, id: NodeId)
    requires
        unique_ids(f),
        position_v(f, id) is Some,
    ensures
        ({
            let (pid, idx, n) = position_v(f, id)->0;
            let f1 = remove_v(f, id);
            &&& unique_ids(f1)
            &&& urls_settled(f) ==> urls_settled(f1)
            &&& insert_v(f1, pid, idx, n) == f
        }),
{
    let p = locate(f, id);
    let q = p.drop_last();
    let i = p.last();
    lemma_first_path(f, id);
    lemma_node_at_parent(f, p);
    let g = folder_at(f, q)->0;
    let pid = g.id;
    let f1 = remove_child(f, q, i);
    lemma_remove_unique(f, q, i, 0);
    let g1 = with_children(g, g.children.remove(i));
    lemma_folder_at_with(f, q, g1);
    assert(id_at(f1, q) == Some(pid)) by {
        if q.len() > 0 {
            lemma_folder_at_node(f1, q);
            lemma_folder_at_node(f, q);
            lemma_remove_ids(f, q, i, q);
        }
    }
    lemma_locate(f1, pid, q);
    lemma_remove_insert(f, q, i, g.children[i]);
    lemma_replace_same(f, q, i);
    if urls_settled(f) {
        lemma_remove_settled(f, q, i);
    }
}

/// One change of a change set: ids stay unique, the inverse it records
/// undoes it, and the inverse captured while undoing redoes it and captures
/// the recorded inverse again.
proof fn lemma_step(f: FolderV, c: ChangeV)
    requires
        unique_ids(f),
        urls_settled(f),
        writes_settled_url(c),
    ensures
        ({
            let (f1, o) = apply_step(f, c);
            &&& unique_ids(f1)
            &&& urls_settled(f1)
            &&& o is None ==> f1 == f
            &&& o matches Some(inv) ==> {
                &&& apply_inverse_v(f1, inv) == f
                &&& capture_v(f1, inv) matches Some(k) && apply_inverse_v(f, InverseV { node_id: inv.node_id, kind: k }) == f1
                    && capture_v(f, InverseV { node_id: inv.node_id, kind: k }) == Some(inv.kind)
            }
        }),
{
    let id = c.node_id;
    match c.kind {
        ChangeKindV::SetField { field, after, .. } => {
            if read_field_v(f, id, field) is Some {
                lemma_write_field_step(f, id, field, after);
            }
        },
        ChangeKindV::DeleteNode => {
            if position_v(f, id) is Some {
                lemma_delete_step(f, id);
            }
        },
        ChangeKindV::SetFlag { flag, after, .. } => {
            if read_flag_v(f, id, flag) is Some {
                lemma_write_flag_step(f, id, flag, after);
            }
        },
    }
}

/// Replaying `a + b` replays `b` first, then `a`.
proof fn lemma_replay_concat(f: FolderV, a: Seq<InverseV>, b: Seq<InverseV>)
    ensures
        ({
            let (fb, rb) = replay_v(f, b);
            let (fa, ra) = replay_v(fb, a);
            replay_v(f, a + b) == (fa, rb + ra)
        }),
    decreases b.len(),
{
    if b.len() == 0 {
        assert(a + b =~= a);
        assert(Seq::<InverseV>::empty() + replay_v(f, a).1 =~= replay_v(f, a).1);
    } else {
        let inv = b.last();
        assert((a + b).last() == inv);
        assert((a + b).drop_last() =~= a + b.drop_last());
        lemma_replay_concat(apply_inverse_v(f, inv), a, b.drop_last());
        let cap: Seq<InverseV> = match capture_v(f, inv) {
            Some(k) => seq![InverseV { node_id: inv.node_id, kind: k }],
            None => Seq::empty(),
        };
        let (fb, rb) = replay_v(apply_inverse_v(f, inv), b.drop_last());
        let (fa, ra) = replay_v(fb, a);
        assert(cap + (rb + ra) =~= (cap + rb) + ra);
    }
}

/// The URL that `c` writes, if it writes one, parses back to itself.
pub open spec fn writes_settled_url(c: ChangeV) -> bool {
    c.kind matches ChangeKindV::SetField { field: Field::Url, after, .. } ==> canon_url(url_from_text(after))
}

/// Every URL that `cs` writes parses back to itself.
pub open spec fn url_writes_settle(cs: Seq<ChangeV>) -> bool {
    forall|k: int| 0 <= k < cs.len() ==> #[trigger] writes_settled_url(cs[k])
}

/// Applying `cs` to `f` keeps ids unique and URLs settled; replaying the
/// recorded inverses gives `f` back, and replaying what that replay
/// captured gives the changed tree and the recorded inverses back.
pub open spec fn undo_redo_round_trip(f: FolderV, cs: Seq<ChangeV>) -> bool {
    let (f1, invs) = apply_steps(f, cs);
    let (f2, re) = replay_v(f1, invs);
    &&& unique_ids(f1)
    &&& urls_settled(f1)
    &&& f2 == f
    &&& replay_v(f, re) == (f1, invs)
}

/// Undoing an applied change set gives back the tree it was applied to, and
/// redoing it then gives back the changed tree together with the same undo
/// entry, whatever the order of the changes.  URLs are held as the `url`
/// crate's serializations, each of which parses back to itself; the
/// changed tree keeps that.
pub proof fn apply_then_undo_then_redo(f: FolderV, cs: Seq<ChangeV>)
    requires
        unique_ids(f),
        urls_settled(f),
        url_writes_settle(cs),
    ensures
        undo_redo_round_trip(f, cs),
    decreases cs.len(),
{
    if cs.len() > 0 {
        let init = cs.drop_last();
        assert(url_writes_settle(init)) by {
            assert forall|k: int| 0 <= k < init.len() implies #[trigger] writes_settled_url(init[k]) by {
                assert(init[k] == cs[k]);
            }
        }
        apply_then_undo_then_redo(f, init);
        let (fm, invm) = apply_steps(f, init);
        let (_, rem) = replay_v(fm, invm);
        assert(writes_settled_url(cs[cs.len() - 1]));
        lemma_step(fm, cs.last());
        let (f1, o) = apply_step(fm, cs.last());
        if let Some(i) = o {
            let invs = invm.push(i);
            assert(invs.last() == i);
            assert(invs.drop_last() =~= invm);
            let k = capture_v(f1, i)->0;
            let i2 = InverseV { node_id: i.node_id, kind: k };
            let re = seq![i2] + rem;
            assert(replay_v(f1, invs) == (f, re));
            lemma_replay_concat(f, seq![i2], rem);
            assert(seq![i2].last() == i2);
            assert(seq![i2].drop_last() =~= Seq::<InverseV>::empty());
            assert(InverseV { node_id: i.node_id, kind: i.kind } == i);
            assert(replay_v(f1, Seq::<InverseV>::empty()) == (f1, Seq::<InverseV>::empty()));
            assert(replay_v(fm, seq![i2]) == (f1, seq![i] + Seq::<InverseV>::empty()));
            assert(seq![i] + Seq::<InverseV>::empty() =~= seq![i]);
            assert(invm + seq![i] =~= invs);
            assert(replay_v(f, re) == (f1, invs));
        }
    }
}

/// Keeping the approved changes of a set keeps its URL writes settled.
proof fn lemma_approved_settle(cs: Seq<ChangeV>)
    requires
        url_writes_settle(cs),
    ensures
        url_writes_settle(approved_only(cs)),
    decreases cs.len(),
{
    if cs.len() > 0 {
        let init = cs.drop_last();
        assert forall|k: int| 0 <= k < init.len() implies #[trigger] writes_settled_url(init[k]) by {
            assert(init[k] == cs[k]);
        }
        lemma_approved_settle(init);
        assert(writes_settled_url(cs[cs.len() - 1]));
    }
}

/// Parses, with the `url` crate, the text of every URL that `cs` writes.
/// Each serialization that comes back parses back to itself, so every URL
/// the set writes is settled: undoing the approved changes of `cs`, applied
/// to any tree with unique ids and settled URLs, gives that tree back, and
/// redoing them gives the changed tree and its undo entry back.
pub fn settle_url_writes(cs: &ChangeSet)
    ensures
        url_writes_settle(changes_v(cs.changes@)),
        forall|f: FolderV|
            unique_ids(f) && urls_settled(f) ==> #[trigger] undo_redo_round_trip(
                f,
                approved_only(changes_v(cs.changes@)),
            ),
{
    let ghost cv = changes_v(cs.changes@);
    let n = cs.changes.len();
    let mut i: usize = 0;
    while i < n
        invariant
            n == cs.changes.len(),
            cv == changes_v(cs.changes@),
            i <= n,
            forall|k: int| 0 <= k < i ==> #[trigger] writes_settled_url(cv[k]),
        decreases n - i,
    {
        if let ChangeKind::SetField { field: Field::Url, after, .. } = &cs.changes[i].kind {
            let _ = parse_url(after.as_str());
        }
        assert(writes_settled_url(cv[i as int]));
        i = i + 1;
    }
    proof {
        lemma_approved_settle(cv);
        assert forall|f: FolderV| unique_ids(f) && urls_settled(f) implies #[trigger] undo_redo_round_trip(f, approved_only(cv)) by {
            apply_then_undo_then_redo(f, approved_only(cv));
        }
    }
}

/// Replaying a one-inverse entry recorded by a step: the step's two facts
/// about undo and redo, stated over `replay_v`.
proof fn lemma_single_replay(f: FolderV, f1: FolderV, inv: InverseV)
    requires
        apply_inverse_v(f1, inv) == f,
        capture_v(f1, inv) is Some,
        apply_inverse_v(f, InverseV { node_id: inv.node_id, kind: capture_v(f1, inv)->0 }) == f1,
        capture_v(f, InverseV { node_id: inv.node_id, kind: capture_v(f1, inv)->0 }) == Some(inv.kind),
    ensures
        replay_v(f1, seq![inv]).0 == f,
        replay_v(f, replay_v(f1, seq![inv]).1) == (f1, seq![inv]),
{
    let i2 = InverseV { node_id: inv.node_id, kind: capture_v(f1, inv)->0 };
    assert(seq![inv].drop_last() =~= Seq::<InverseV>::empty());
    assert(seq![inv].last() == inv);
    assert(replay_v(f, Seq::<InverseV>::empty()) == (f, Seq::<InverseV>::empty()));
    assert(replay_v(f1, Seq::<InverseV>::empty()) == (f1, Seq::<InverseV>::empty()));
    assert(seq![i2] + Seq::<InverseV>::empty() =~= seq![i2]);
    assert(replay_v(f1, seq![inv]) == (f, seq![i2]));
    assert(seq![i2].drop_last() =~= Seq::<InverseV>::empty());
    assert(InverseV { node_id: inv.node_id, kind: inv.kind } == inv);
    assert(seq![inv] + Seq::<InverseV>::empty() =~= seq![inv]);
}

/// Renaming a node and then undoing gives back the tree as it was; redoing
/// then gives back the renamed tree and the same undo entry.
pub proof fn rename_then_undo_then_redo(f: FolderV, id: NodeId, name: Seq<char>)
    requires
        unique_ids(f),
        rename_field(f, id) is Some,
    ensures
        ({
            let field = rename_field(f, id)->0;
            let e = single_entry("rename"@, id, InverseKindV::WriteField { field, value: read_field_v(f, id, field)->0 });
            let f1 = write_field_v(f, id, field, name);
            let (f2, re) = replay_v(f1, e.inverses);
            &&& unique_ids(f1)
            &&& f2 == f
            &&& replay_v(f, re) == (f1, e.inverses)
        }),
{
    let field = rename_field(f, id)->0;
    lemma_write_field_step(f, id, field, name);
    let inv = InverseV { node_id: id, kind: InverseKindV::WriteField { field, value: read_field_v(f, id, field)->0 } };
    let f1 = write_field_v(f, id, field, name);
    lemma_single_replay(f, f1, inv);
}

/// Deleting a node and then undoing gives back the tree as it was (the
/// node at its old place, with its subtree); redoing then deletes it again
/// and gives back the same undo entry.
pub proof fn delete_then_undo_then_redo(f: FolderV, id: NodeId)
    requires
        unique_ids(f),
        position_v(f, id) is Some,
    ensures
        ({
            let (pid, idx, n) = position_v(f, id)->0;
            let e = single_entry("delete"@, id, InverseKindV::RestoreNode { parent_id: pid, index: idx, snapshot: n });
            let f1 = remove_v(f, id);
            let (f2, re) = replay_v(f1, e.inverses);
            &&& unique_ids(f1)
            &&& f2 == f
            &&& replay_v(f, re) == (f1, e.inverses)
        }),
{
    lemma_delete_step(f, id);
    let (pid, idx, n) = position_v(f, id)->0;
    let inv = InverseV { node_id: id, kind: InverseKindV::RestoreNode { parent_id: pid, index: idx, snapshot: n } };
    lemma_single_replay(f, remove_v(f, id), inv);
}

/// A node created with an id that no node of the tree has is removed again
/// by undo, which gives back the tree as it was; redoing then puts it back
/// and gives back the same undo entry.  The created tree keeps ids unique.
pub proof fn create_then_undo_then_redo(f: FolderV, parent_id: NodeId, n: NodeV)
    requires
        unique_ids(f),
        create_target(f, parent_id) is Some,
        is_leaf(n),
        ids_below(f, n.id() as int),
    ensures
        ({
            let f1 = append_child(f, create_target(f, parent_id)->0, n);
            let e = single_entry("create"@, n.id(), InverseKindV::RemoveNode);
            let (f2, re) = replay_v(f1, e.inverses);
            &&& unique_ids(f1)
            &&& ids_below(f1, n.id() + 1)
            &&& f2 == f
            &&& replay_v(f, re) == (f1, e.inverses)
        }),
{
    let q = create_target(f, parent_id)->0;
    let id = n.id();
    if parent_id != 0 {
        lemma_first_path(f, parent_id);
    }
    let g = folder_at(f, q)->0;
    let at = g.children.len() as int;
    let f1 = append_child(f, q, n);
    lemma_insert_unique(f, q, at, n);
    let p = q.push(at);
    lemma_insert_ids(f, q, at, n, p);
    lemma_locate(f1, id, p);
    let g1 = with_children(g, g.children.insert(at, n));
    lemma_folder_at_with(f, q, g1);
    lemma_node_at_parent(f1, p);
    assert(p.drop_last() =~= q);
    assert(g1.children.remove(at) =~= g.children);
    assert(with_children(g1, g1.children.remove(at)) == g);
    lemma_with_folder_at_twice(f, q, g1, g);
    lemma_with_folder_at_same(f, q);
    assert(remove_v(f1, id) == f);
    let inv = InverseV { node_id: id, kind: InverseKindV::RemoveNode };
    assert(id_at(f, p) is None) by {
        if id_at(f, p) is Some {
            lemma_node_at_parent(f, p);
        }
    }
    assert(position_v(f1, id) == Some((g.id, at, n)));
    if parent_id != 0 && q.len() > 0 {
        lemma_folder_at_node(f, q);
    }
    assert(folder_with_id(f, g.id) is Some && locate(f, g.id) == q);
    lemma_single_replay(f, f1, inv);
}

/// An id handed out by the allocator names no node of a tree whose ids are
/// all below it.
pub proof fn allocated_id_is_fresh(f: FolderV, next: NodeId)
    requires
        ids_below(f, next as int),
    ensures
        !contains_id(f, next),
{
}

/// One change keeps ids unique and below a bound.
pub proof fn lemma_step_keeps_ids(f: FolderV, c: ChangeV, bound: int)
    requires
        unique_ids(f),
        ids_below(f, bound),
    ensures
        unique_ids(apply_step(f, c).0),
        ids_below(apply_step(f, c).0, bound),
        urls_settled(f) && writes_settled_url(c) ==> urls_settled(apply_step(f, c).0),
{
    if urls_settled(f) && writes_settled_url(c) {
        lemma_step(f, c);
    }
    let id = c.node_id;
    let p = locate(f, id);
    lemma_first_path(f, id);
    match c.kind {
        ChangeKindV::SetField { field, after, .. } => {
            if read_field_v(f, id, field) is Some {
                let f1 = write_field_v(f, id, field, after);
                if p.len() == 0 {
                    assert forall|x: Seq<int>| #[trigger] id_at(f1, x) == id_at(f, x) by {
                        assert(f1.children == f.children);
                    }
                } else {
                    lemma_node_at_parent(f, p);
                    let n0 = node_at(f, p)->0;
                    let n2 = match n0 {
                        NodeV::Folder(g) => NodeV::Folder(FolderV { name: after, ..g }),
                        NodeV::Bookmark(b) => NodeV::Bookmark(bookmark_with_field(b, field, after)),
                        NodeV::Separator(s) => NodeV::Separator(s),
                    };
                    lemma_replace_unique(f, p.drop_last(), p.last(), n2, bound);
                }
            }
        },
        ChangeKindV::DeleteNode => {
            if position_v(f, id) is Some {
                lemma_node_at_parent(f, p);
                lemma_remove_unique(f, p.drop_last(), p.last(), bound);
            }
        },
        ChangeKindV::SetFlag { flag, after, .. } => {
            if read_flag_v(f, id, flag) is Some {
                lemma_node_at_parent(f, p);
                let b = node_with_id(f, id)->0->Bookmark_0;
                lemma_replace_unique(f, p.drop_last(), p.last(), NodeV::Bookmark(BookmarkV { is_shortener: after, ..b }), bound);
            }
        },
    }
}

/// Applying a change set keeps ids unique and below a bound.
pub proof fn lemma_steps_keep_ids(f: FolderV, cs: Seq<ChangeV>, bound: int)
    requires
        unique_ids(f),
        ids_below(f, bound),
    ensures
        unique_ids(apply_steps(f, cs).0),
        ids_below(apply_steps(f, cs).0, bound),
    decreases cs.len(),
{
    if cs.len() > 0 {
        lemma_steps_keep_ids(f, cs.drop_last(), bound);
        lemma_step_keeps_ids(apply_steps(f, cs.drop_last()).0, cs.last(), bound);
    }
}

/// Removing the node that `id` names, in a tree with an id of its own at
/// every node, leaves no node with that id.
proof fn lemma_removed_is_gone(f: FolderV, id: NodeId)
    requires
        unique_ids(f),
        position_v(f, id) is Some,
    ensures
        !contains_id(remove_v(f, id), id),
{
    let p = locate(f, id);
    let q = p.drop_last();
    let i = p.last();
    lemma_first_path(f, id);
    lemma_node_at_parent(f, p);
    let f1 = remove_v(f, id);
    if contains_id(f1, id) {
        let x = choose|x: Seq<int>| #[trigger] id_at(f1, x) == Some(id);
        lemma_remove_ids(f, q, i, x);
        let o = removed_origin(q, i, x);
        assert(id_at(f, o) == Some(id) && id_at(f, p) == Some(id));
        assert(o == p);
        assert(p =~= q.push(i));
        if is_prefix(q, x) && x.len() > q.len() && x[q.len() as int] >= i {
            assert(o[q.len() as int] == x[q.len() as int] + 1);
        } else {
            assert(x == p);
            assert(x.subrange(0, q.len() as int) =~= q);
            assert(x[q.len() as int] == i);
        }
    }
}

/// A change leaves the root's id in place and brings back no id that the
/// tree lacks.
proof fn lemma_step_no_new_ids(f: FolderV, c: ChangeV, id: NodeId)
    requires
        !contains_id(f, id),
    ensures
        !contains_id(apply_step(f, c).0, id),
        apply_step(f, c).0.id == f.id,
{
    let f1 = apply_step(f, c).0;
    let nid = c.node_id;
    let p = locate(f, nid);
    lemma_first_path(f, nid);
    assert(id_at(f1, Seq::empty()) == Some(f1.id));
    match c.kind {
        ChangeKindV::SetField { field, after, .. } => {
            if read_field_v(f, nid, field) is Some && p.len() > 0 {
                lemma_node_at_parent(f, p);
                let n0 = node_at(f, p)->0;
                let n2 = match n0 {
                    NodeV::Folder(g) => NodeV::Folder(FolderV { name: after, ..g }),
                    NodeV::Bookmark(b) => NodeV::Bookmark(bookmark_with_field(b, field, after)),
                    NodeV::Separator(s) => NodeV::Separator(s),
                };
                assert forall|x: Seq<int>| #[trigger] id_at(f1, x) == id_at(f, x) by {
                    lemma_replace_ids(f, p.drop_last(), p.last(), n2, x);
                }
            } else {
                assert forall|x: Seq<int>| #[trigger] id_at(f1, x) == id_at(f, x) by {
                    assert(f1.children == f.children);
                }
            }
        },
        ChangeKindV::DeleteNode => {
            if position_v(f, nid) is Some {
                lemma_node_at_parent(f, p);
                assert forall|x: Seq<int>| #[trigger] id_at(f1, x) is Some implies id_at(f1, x) != Some(id) by {
                    lemma_remove_ids(f, p.drop_last(), p.last(), x);
                }
                assert(id_at(f1, Seq::empty()) == id_at(f, removed_origin(p.drop_last(), p.last(), Seq::empty()))) by {
                    lemma_remove_ids(f, p.drop_last(), p.last(), Seq::empty());
                }
            }
        },
        ChangeKindV::SetFlag { flag, after, .. } => {
            if read_flag_v(f, nid, flag) is Some {
                lemma_node_at_parent(f, p);
                let b = node_with_id(f, nid)->0->Bookmark_0;
                assert forall|x: Seq<int>| #[trigger] id_at(f1, x) == id_at(f, x) by {
                    lemma_replace_ids(f, p.drop_last(), p.last(), NodeV::Bookmark(BookmarkV { is_shortener: after, ..b }), x);
                }
            }
        },
    }
}

/// After a change set is applied, no node that one of its changes deletes
/// is left in the tree (the root aside, which no change deletes).
pub proof fn deleted_nodes_are_gone(f: FolderV, cs: Seq<ChangeV>, k: int, bound: int)
    requires
        unique_ids(f),
        ids_below(f, bound),
        0 <= k < cs.len(),
        cs[k].kind == ChangeKindV::DeleteNode,
        cs[k].node_id != f.id,
    ensures
        !contains_id(apply_steps(f, cs).0, cs[k].node_id),
        apply_steps(f, cs).0.id == f.id,
    decreases cs.len(),
{
    let init = cs.drop_last();
    let id = cs[k].node_id;
    let fm = apply_steps(f, init).0;
    lemma_steps_keep_ids(f, init, bound);
    lemma_steps_root_id(f, init);
    if k < cs.len() - 1 {
        assert(init[k] == cs[k]);
        deleted_nodes_are_gone(f, init, k, bound);
        lemma_step_no_new_ids(fm, cs.last(), id);
    } else {
        assert(cs.last() == cs[k]);
        if position_v(fm, id) is Some {
            lemma_removed_is_gone(fm, id);
            lemma_remove_root_id(fm, id);
        } else {
            lemma_first_path(fm, id);
            if contains_id(fm, id) {
                assert(found(fm, id));
                if locate(fm, id).len() == 0 {
                    assert(id_at(fm, Seq::empty()) == Some(fm.id));
                } else {
                    lemma_node_at_parent(fm, locate(fm, id));
                    lemma_folder_at_node(fm, locate(fm, id));
                }
            }
        }
    }
}

/// Removing a node keeps the root's id.
proof fn lemma_remove_root_id(f: FolderV, id: NodeId)
    ensures
        remove_v(f, id).id == f.id,
{
    if node_with_id(f, id) is Some {
        let p = locate(f, id);
        let q = p.drop_last();
        if folder_at(f, q) is Some && 0 <= p.last() < folder_at(f, q)->0.children.len() {
            lemma_remove_ids(f, q, p.last(), Seq::empty());
        }
    }
}

/// Applying changes keeps the root's id.
proof fn lemma_steps_root_id(f: FolderV, cs: Seq<ChangeV>)
    ensures
        apply_steps(f, cs).0.id == f.id,
    decreases cs.len(),
{
    if cs.len() > 0 {
        lemma_steps_root_id(f, cs.drop_last());
        let fm = apply_steps(f, cs.drop_last()).0;
        lemma_step_root_id(fm, cs.last());
    }
}

/// One change keeps the root's id.
proof fn lemma_step_root_id(f: FolderV, c: ChangeV)
    ensures
        apply_step(f, c).0.id == f.id,
{
    let nid = c.node_id;
    let p = locate(f, nid);
    match c.kind {
        ChangeKindV::SetField { field, after, .. } => {
            if read_field_v(f, nid, field) is Some && p.len() > 0 {
                lemma_first_path(f, nid);
                lemma_node_at_parent(f, p);
                lemma_replace_ids(f, p.drop_last(), p.last(), match node_at(f, p)->0 {
                    NodeV::Folder(g) => NodeV::Folder(FolderV { name: after, ..g }),
                    NodeV::Bookmark(b) => NodeV::Bookmark(bookmark_with_field(b, field, after)),
                    NodeV::Separator(s) => NodeV::Separator(s),
                }, Seq::empty());
            }
        },
        ChangeKindV::DeleteNode => {
            lemma_remove_root_id(f, nid);
        },
        ChangeKindV::SetFlag { flag, after, .. } => {
            if read_flag_v(f, nid, flag) is Some {
                lemma_first_path(f, nid);
                lemma_node_at_parent(f, p);
                let b = node_with_id(f, nid)->0->Bookmark_0;
                lemma_replace_ids(f, p.drop_last(), p.last(), NodeV::Bookmark(BookmarkV { is_shortener: after, ..b }), Seq::empty());
            }
        },
    }
}

} // verus!

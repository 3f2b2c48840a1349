//! `Document` construction, `apply`, `undo`, `redo` and the structural
//! edits, each recording an undoable entry.
use vstd::prelude::*;
use crate::error::{ApplyError, CoreError};
use crate::model::attrs::attr_map_new;
use crate::model::document::{
    entries_v, is_max_id, push_bounded, Document, DocumentStats, Field, HeaderMetadata,
    InverseChange, InverseKind, InverseKindV, InverseV, UndoEntry, UndoEntryV, MAX_UNDO_ENTRIES,
};
use crate::model::edit::{
    folder_with_id, found, insert_v, locate, position_v, read_field_v, remove_v, write_field_v,
};
use crate::model::history::{apply_steps, approved_only, first_missing, replay_v};
use crate::model::ids::{DocumentId, NodeIdAllocator};
use crate::model::node::{
    lemma_folder_v, lemma_nodes_v, url_from_text, Bookmark, BookmarkFlags, BookmarkUrl, BookmarkV,
    Folder, FolderV, Node, NodeId, NodeV, Separator,
};
use crate::model::tree::{
    contains_id, folder_at, id_at, ids_below, insert_child, lemma_id_at_child, unique_ids,
};
use crate::sanitize::apply::{
    apply_change, apply_inverse, capture_reinverse, change_target_exists, clone_node,
    folder_path, insert_node_at, read_field, take_node, write_field, position_of, find_node_with_parent,
};
use crate::sanitize::treatment::{changes_v, Change, ChangeSet};

verus! {

broadcast use {lemma_nodes_v, lemma_folder_v};

/// Highest node id in the tree rooted at `folder` (the folder included).
pub fn max_node_id(folder: &Folder) -> (r: NodeId)
    ensures
        is_max_id(folder@, r),
    decreases folder,
{
    let mut m = folder.id;
    let n = folder.children.len();
    let mut i: usize = 0;
    proof {
        assert(id_at(folder@, Seq::empty()) == Some(folder.id));
    }
    while i < n
        invariant
            n == folder.children.len(),
            i <= n,
            folder.id <= m,
            contains_id(folder@, m),
            forall|j: int, s: Seq<int>|
                #![trigger id_at(folder@, seq![j] + s)]
                0 <= j < i && id_at(folder@, seq![j] + s) is Some ==> id_at(folder@, seq![j] + s)->0 <= m,
        decreases n - i,
    {
        match &folder.children[i] {
            Node::Folder(f) => {
                proof {
                    assert(decreases_to!(folder => folder.children));
                    assert(decreases_to!(folder.children => folder.children@));
                    assert(decreases_to!(folder.children@ => folder.children@[i as int]));
                }
                let sub = max_node_id(f);
                proof {
                    let w = choose|p: Seq<int>| #[trigger] id_at(f@, p) == Some(sub);
                    lemma_id_at_child(folder@, i as int, w);
                    assert forall|s: Seq<int>| id_at(folder@, #[trigger] (seq![i as int] + s)) is Some
                        implies id_at(folder@, seq![i as int] + s)->0 <= (if sub > m { sub } else { m }) by {
                        lemma_id_at_child(folder@, i as int, s);
                    }
                }
                if sub > m {
                    m = sub;
                }
            },
            other => {
                let cid = other.id();
                proof {
                    lemma_id_at_child(folder@, i as int, Seq::empty());
                    assert(seq![i as int] + Seq::<int>::empty() =~= seq![i as int]);
                    assert forall|s: Seq<int>| id_at(folder@, #[trigger] (seq![i as int] + s)) is Some
                        implies id_at(folder@, seq![i as int] + s)->0 <= (if cid > m { cid } else { m }) by {
                        lemma_id_at_child(folder@, i as int, s);
                        if s.len() == 0 {
                            assert(seq![i as int] + s =~= seq![i as int]);
                        }
                    }
                }
                if cid > m {
                    m = cid;
                }
            },
        }
        i += 1;
    }
    proof {
        assert forall|p: Seq<int>| #[trigger] id_at(folder@, p) is Some implies id_at(folder@, p)->0 < m + 1 by {
            if p.len() > 0 {
                let s = p.subrange(1, p.len() as int);
                assert(p =~= seq![p[0]] + s);
            }
        }
    }
    m
}

impl Document {
    /// The fields other than the tree, the history, the allocator and the
    /// cached counts are those of `other`.
    pub open spec fn same_identity(self, other: Document) -> bool {
        &&& self.id == other.id
        &&& self.path == other.path
        &&& self.header == other.header
    }

    /// Wrap an already-built tree.  The id allocator starts after the highest
    /// id in `root`, so nodes created later never collide with it.
    pub fn new(
        id: DocumentId,
        path: Option<String>,
        root: Folder,
        header: HeaderMetadata,
        stats: DocumentStats,
    ) -> (r: Self)
        requires
            ids_below(root@, u64::MAX as int),
        ensures
            r.id == id,
            r.path == path,
            r.root == root,
            r.header == header,
            r.stats == stats,
            is_max_id(root@, (r.id_gen.next_id() - 1) as u64),
            r.undo_stack.len() == 0,
            r.redo_stack.len() == 0,
            !r.dirty,
            !r.history_dropped,
            unique_ids(root@) && crate::model::settled::urls_settled(root@) ==> r.wf(),
    {
        let m = max_node_id(&root);
        proof {
            let w = choose|p: Seq<int>| #[trigger] id_at(root@, p) == Some(m);
            assert(id_at(root@, w) is Some);
        }
        Document {
            id,
            path,
            id_gen: NodeIdAllocator::starting_after(m),
            root,
            header,
            stats,
            undo_stack: Vec::new(),
            redo_stack: Vec::new(),
            dirty: false,
            history_dropped: false,
        }
    }

    /// Push onto the undo stack, dropping the oldest entry past the limit.
    pub(crate) fn push_undo(&mut self, entry: UndoEntry)
        ensures
            entries_v(final(self).undo_stack@) == push_bounded(entries_v(old(self).undo_stack@), entry@),
            old(self).undo_stack.len() <= MAX_UNDO_ENTRIES ==> final(self).undo_stack.len() <= MAX_UNDO_ENTRIES,
            final(self).root == old(self).root,
            final(self).redo_stack == old(self).redo_stack,
            final(self).id_gen == old(self).id_gen,
            final(self).stats == old(self).stats,
            final(self).dirty == old(self).dirty,
            final(self).history_dropped == (old(self).history_dropped || old(self).undo_stack.len() + 1
                > MAX_UNDO_ENTRIES),
            final(self).same_identity(*old(self)),
    {
        let ghost s0 = entries_v(self.undo_stack@);
        let ghost e = entry@;
        self.undo_stack.push(entry);
        proof {
            assert(entries_v(self.undo_stack@) =~= s0.push(e));
        }
        if self.undo_stack.len() > MAX_UNDO_ENTRIES {
            let ghost s1 = self.undo_stack@;
            self.undo_stack.remove(0);
            self.history_dropped = true;
            proof {
                assert(entries_v(self.undo_stack@) =~= s0.push(e).subrange(1, s0.len() as int + 1));
            }
        }
    }
}

} // verus!

verus! {

/// A fresh bookmark as `create_bookmark` builds it.
pub open spec fn new_bookmark_v(id: NodeId, title: Seq<char>, url: Seq<char>) -> NodeV {
    NodeV::Bookmark(BookmarkV {
        id,
        title,
        url: url_from_text(url),
        add_date: None,
        last_modified: None,
        icon_blob: None,
        description: None,
        attrs: Seq::empty(),
        is_shortener: false,
    })
}

/// A fresh folder as `create_folder` builds it.
pub open spec fn new_folder_v(id: NodeId, name: Seq<char>) -> NodeV {
    NodeV::Folder(FolderV {
        id,
        name,
        add_date: None,
        last_modified: None,
        is_toolbar: false,
        attrs: Seq::empty(),
        children: Seq::empty(),
    })
}

/// Where a new node goes: the root for parent id 0, otherwise the folder
/// with that id.
pub open spec fn create_target(f: FolderV, parent_id: NodeId) -> Option<Seq<int>> {
    if parent_id == 0 {
        Some(Seq::empty())
    } else if folder_with_id(f, parent_id) is Some {
        Some(locate(f, parent_id))
    } else {
        None
    }
}

/// The field `rename_node` edits: a bookmark's title or a folder's name.
pub open spec fn rename_field(f: FolderV, id: NodeId) -> Option<Field> {
    if read_field_v(f, id, Field::Title) is Some {
        Some(Field::Title)
    } else if read_field_v(f, id, Field::FolderName) is Some {
        Some(Field::FolderName)
    } else {
        None
    }
}

/// An undo entry with a single inverse.
pub open spec fn single_entry(name: Seq<char>, id: NodeId, kind: InverseKindV) -> UndoEntryV {
    UndoEntryV { name, inverses: seq![InverseV { node_id: id, kind }] }
}

/// The text of "`prefix` `n` `suffix`".
pub open spec fn message_v(prefix: Seq<char>, n: nat, suffix: Seq<char>) -> Seq<char> {
    prefix + crate::text::decimal_v(n) + suffix
}

/// "`prefix` `n` `suffix`".
pub(crate) fn message(prefix: &str, n: u64, suffix: &str) -> (r: String)
    ensures
        r@ == message_v(prefix@, n as nat, suffix@),
{
    let mut s = prefix.to_owned();
    let d = crate::text::decimal(n);
    s.append(d.as_str());
    s.append(suffix);
    s
}

pub(crate) fn single(name: &str, node_id: NodeId, kind: InverseKind) -> (r: UndoEntry)
    ensures
        r@ == single_entry(name@, node_id, kind@),
{
    let mut inverses: Vec<InverseChange> = Vec::new();
    inverses.push(InverseChange { node_id, kind });
    let r = UndoEntry { rule_set_name: name.to_owned(), inverses };
    proof {
        assert(r@.inverses =~= seq![InverseV { node_id, kind: kind@ }]);
    }
    r
}

impl Document {
    /// Apply all approved changes in `cs`, record an undo entry, and clear
    /// the redo stack.
    ///
    /// Returns `Err(ApplyError::NodeNotFound)` if any approved change
    /// targets a node that is not in the tree; the document is then not
    /// modified.
    pub fn apply(&mut self, cs: &ChangeSet) -> (r: Result<(), ApplyError>)
        ensures
            old(self).wf() ==> final(self).wf(),
            ({
                let approved = approved_only(changes_v(cs.changes@));
                let f0 = old(self).root@;
                &&& approved.len() == 0 ==> r is Ok && *final(self) == *old(self)
                &&& approved.len() > 0 && first_missing(f0, approved) is Some ==> r == Err::<(), ApplyError>(
                    ApplyError::NodeNotFound(first_missing(f0, approved)->0),
                ) && *final(self) == *old(self)
                &&& approved.len() > 0 && first_missing(f0, approved) is None ==> {
                    let (f1, invs) = apply_steps(f0, approved);
                    &&& r is Ok
                    &&& final(self).root@ == f1
                    &&& entries_v(final(self).undo_stack@) == push_bounded(
                        entries_v(old(self).undo_stack@),
                        UndoEntryV { name: cs.rule_set_name@, inverses: invs },
                    )
                    &&& final(self).redo_stack.len() == 0
                    &&& final(self).dirty
                    &&& final(self).history_dropped == old(self).drops_history()
                    &&& final(self).stats.counts(f1)
                    &&& final(self).id_gen == old(self).id_gen
                    &&& final(self).same_identity(*old(self))
                    &&& old(self).wf() ==> crate::sanitize::laws::undo_redo_round_trip(f0, approved)
                }
            }),
    {
        let ghost cv = changes_v(cs.changes@);
        let ghost f0 = self.root@;
        let n = cs.changes.len();
        let mut any = false;
        let mut i: usize = 0;
        while i < n
            invariant
                n == cs.changes.len(),
                cv == changes_v(cs.changes@),
                i <= n,
                any == (approved_only(cv.subrange(0, i as int)).len() > 0),
                first_missing(f0, approved_only(cv.subrange(0, i as int))) is None,
                f0 == self.root@,
                *self == *old(self),
            decreases n - i,
        {
            let c = &cs.changes[i];
            proof {
                assert(cv.subrange(0, i + 1).drop_last() =~= cv.subrange(0, i as int));
                assert(cv.subrange(0, i + 1).last() == c@);
            }
            if c.approved {
                if !change_target_exists(&self.root, c) {
                    proof {
                        let a = approved_only(cv.subrange(0, i as int));
                        assert(approved_only(cv.subrange(0, i + 1)) == a.push(c@));
                        assert(a.push(c@).drop_last() =~= a);
                        assert(first_missing(f0, a.push(c@)) == Some(c.node_id));
                        lemma_first_missing_prefix(f0, cv, (i + 1) as int);
                        assert(approved_only(cv).len() > 0) by {
                            lemma_approved_prefix_len(cv, (i + 1) as int);
                        }
                    }
                    return Err(ApplyError::NodeNotFound(c.node_id));
                }
                proof {
                    let a = approved_only(cv.subrange(0, i as int));
                    assert(approved_only(cv.subrange(0, i + 1)) == a.push(c@));
                    assert(a.push(c@).drop_last() =~= a);
                }
                any = true;
            }
            i += 1;
        }
        proof {
            assert(cv.subrange(0, n as int) =~= cv);
        }
        if !any {
            return Ok(());
        }
        // Parsing every URL the set writes shows each to be settled, which
        // keeps the tree's URLs settled and its undo exact.
        crate::sanitize::laws::settle_url_writes(cs);
        let mut inverses: Vec<InverseChange> = Vec::new();
        let mut i: usize = 0;
        while i < n
            invariant
                n == cs.changes.len(),
                cv == changes_v(cs.changes@),
                i <= n,
                apply_steps(f0, approved_only(cv.subrange(0, i as int)))
                    == (self.root@, crate::model::document::inverses_v(inverses@)),
                self.undo_stack == old(self).undo_stack,
                self.history_dropped == old(self).history_dropped,
                self.redo_stack == old(self).redo_stack,
                self.id_gen == old(self).id_gen,
                self.same_identity(*old(self)),
            decreases n - i,
        {
            let c = &cs.changes[i];
            proof {
                assert(cv.subrange(0, i + 1).drop_last() =~= cv.subrange(0, i as int));
                assert(cv.subrange(0, i + 1).last() == c@);
            }
            if c.approved {
                let ghost before = inverses@;
                let ghost a = approved_only(cv.subrange(0, i as int));
                proof {
                    assert(a.push(c@).drop_last() =~= a);
                }
                match apply_change(&mut self.root, c) {
                    Some(inv) => {
                        inverses.push(inv);
                        proof {
                            assert(crate::model::document::inverses_v(inverses@)
                                =~= crate::model::document::inverses_v(before).push(inverses@.last()@));
                        }
                    },
                    None => {},
                }
            }
            i += 1;
        }
        proof {
            assert(cv.subrange(0, n as int) =~= cv);
        }
        proof {
            if old(self).wf() {
                crate::sanitize::laws::lemma_steps_keep_ids(f0, approved_only(cv), self.id_gen.next_id() as int);
                assert(crate::sanitize::laws::undo_redo_round_trip(f0, approved_only(cv)));
            }
        }
        let entry = UndoEntry { rule_set_name: cs.rule_set_name.clone(), inverses };
        self.push_undo(entry);
        self.redo_stack.clear();
        self.dirty = true;
        self.stats = DocumentStats::from_root(&self.root);
        Ok(())
    }
}

/// A missing target in a prefix is the first missing target of the whole.
proof fn lemma_first_missing_prefix(f: FolderV, cv: Seq<crate::sanitize::treatment::ChangeV>, k: int)
    requires
        0 <= k <= cv.len(),
    ensures
        first_missing(f, approved_only(cv.subrange(0, k))) is Some ==>
            first_missing(f, approved_only(cv)) == first_missing(f, approved_only(cv.subrange(0, k))),
    decreases cv.len() - k,
{
    if k < cv.len() {
        lemma_first_missing_prefix(f, cv, k + 1);
        let a = approved_only(cv.subrange(0, k));
        assert(cv.subrange(0, k + 1).drop_last() =~= cv.subrange(0, k));
        if cv[k].approved {
            assert(a.push(cv[k]).drop_last() =~= a);
        }
    } else {
        assert(cv.subrange(0, k) =~= cv);
    }
}

/// The approved changes of a prefix are no more than those of the whole.
proof fn lemma_approved_prefix_len(cv: Seq<crate::sanitize::treatment::ChangeV>, k: int)
    requires
        0 <= k <= cv.len(),
    ensures
        approved_only(cv.subrange(0, k)).len() <= approved_only(cv).len(),
    decreases cv.len() - k,
{
    if k < cv.len() {
        lemma_approved_prefix_len(cv, k + 1);
        assert(cv.subrange(0, k + 1).drop_last() =~= cv.subrange(0, k));
    } else {
        assert(cv.subrange(0, k) =~= cv);
    }
}

} // verus!

verus! {

impl Document {
    /// Apply `entry`'s inverses newest-first and return the entry that
    /// reverses this replay (used for both undo and redo).
    fn replay(&mut self, entry: UndoEntry) -> (r: UndoEntry)
        ensures
            final(self).root@ == replay_v(old(self).root@, entry@.inverses).0,
            r@ == (UndoEntryV { name: entry@.name, inverses: replay_v(old(self).root@, entry@.inverses).1 }),
            final(self).undo_stack == old(self).undo_stack,
            final(self).redo_stack == old(self).redo_stack,
            final(self).id_gen == old(self).id_gen,
            final(self).stats == old(self).stats,
            final(self).dirty == old(self).dirty,
            final(self).history_dropped == old(self).history_dropped,
            final(self).same_identity(*old(self)),
    {
        let ghost invs = entry@.inverses;
        let ghost f0 = self.root@;
        let mut out: Vec<InverseChange> = Vec::new();
        let mut i = entry.inverses.len();
        proof {
            assert(invs.subrange(0, i as int) =~= invs);
            assert(crate::model::document::inverses_v(out@) + replay_v(f0, invs).1 =~= replay_v(f0, invs).1);
        }
        while i > 0
            invariant
                i <= entry.inverses.len(),
                invs == entry@.inverses,
                replay_v(f0, invs) == ({
                    let rest = replay_v(self.root@, invs.subrange(0, i as int));
                    (rest.0, crate::model::document::inverses_v(out@) + rest.1)
                }),
                self.undo_stack == old(self).undo_stack,
                self.redo_stack == old(self).redo_stack,
                self.id_gen == old(self).id_gen,
                self.stats == old(self).stats,
                self.dirty == old(self).dirty,
                self.history_dropped == old(self).history_dropped,
                self.same_identity(*old(self)),
            decreases i,
        {
            let inv = &entry.inverses[i - 1];
            let ghost fcur = self.root@;
            let ghost before = out@;
            proof {
                let pre = invs.subrange(0, i as int);
                assert(pre.last() == inv@);
                assert(pre.drop_last() =~= invs.subrange(0, i - 1));
            }
            match capture_reinverse(&self.root, inv) {
                Some(kind) => {
                    out.push(InverseChange { node_id: inv.node_id, kind });
                },
                None => {},
            }
            apply_inverse(&mut self.root, inv);
            proof {
                let rest = replay_v(self.root@, invs.subrange(0, i - 1));
                let cap: Seq<InverseV> = match crate::model::history::capture_v(fcur, inv@) {
                    Some(k) => seq![InverseV { node_id: inv.node_id, kind: k }],
                    None => Seq::empty(),
                };
                assert(crate::model::document::inverses_v(out@)
                    =~= crate::model::document::inverses_v(before) + cap);
                assert(crate::model::document::inverses_v(before) + (cap + rest.1)
                    =~= crate::model::document::inverses_v(out@) + rest.1);
            }
            i -= 1;
        }
        proof {
            assert(invs.subrange(0, 0) =~= Seq::<InverseV>::empty());
            assert(crate::model::document::inverses_v(out@) + Seq::<InverseV>::empty()
                =~= crate::model::document::inverses_v(out@));
        }
        UndoEntry { rule_set_name: entry.rule_set_name, inverses: out }
    }

    /// Undo the most recent applied change set.
    ///
    /// Returns `Err(CoreError::InvalidOperation)` if the undo stack is empty.
    pub fn undo(&mut self) -> (r: Result<(), CoreError>)
        ensures
            old(self).undo_stack.len() == 0 ==> (r matches Err(CoreError::InvalidOperation(m)) && m@ == "nothing to undo"@)
                && *final(self) == *old(self),
            old(self).undo_stack.len() > 0 ==> {
                let e = entries_v(old(self).undo_stack@).last();
                let (f1, re) = replay_v(old(self).root@, e.inverses);
                &&& r is Ok
                &&& final(self).root@ == f1
                &&& entries_v(final(self).undo_stack@) == entries_v(old(self).undo_stack@).drop_last()
                &&& entries_v(final(self).redo_stack@) == entries_v(old(self).redo_stack@).push(
                    UndoEntryV { name: e.name, inverses: re },
                )
                &&& final(self).dirty == (final(self).undo_stack.len() > 0 || old(self).history_dropped)
                &&& final(self).history_dropped == old(self).history_dropped
                &&& final(self).stats.counts(f1)
                &&& final(self).id_gen == old(self).id_gen
                &&& final(self).same_identity(*old(self))
            },
    {
        let ghost u0 = entries_v(self.undo_stack@);
        let ghost r0 = entries_v(self.redo_stack@);
        if self.undo_stack.len() == 0 {
            return Err(CoreError::InvalidOperation("nothing to undo".to_string()));
        }
        let entry = self.undo_stack.pop().unwrap();
        proof {
            assert(entries_v(self.undo_stack@) =~= u0.drop_last());
        }
        let redo_entry = self.replay(entry);
        self.redo_stack.push(redo_entry);
        proof {
            assert(entries_v(self.redo_stack@) =~= r0.push(self.redo_stack@.last()@));
        }
        self.dirty = self.undo_stack.len() > 0 || self.history_dropped;
        self.stats = DocumentStats::from_root(&self.root);
        Ok(())
    }

    /// Re-apply the most recently undone change set.
    ///
    /// Returns `Err(CoreError::InvalidOperation)` if the redo stack is empty.
    pub fn redo(&mut self) -> (r: Result<(), CoreError>)
        ensures
            old(self).redo_stack.len() == 0 ==> (r matches Err(CoreError::InvalidOperation(m)) && m@ == "nothing to redo"@)
                && *final(self) == *old(self),
            old(self).redo_stack.len() > 0 ==> {
                let e = entries_v(old(self).redo_stack@).last();
                let (f1, ue) = replay_v(old(self).root@, e.inverses);
                &&& r is Ok
                &&& final(self).root@ == f1
                &&& entries_v(final(self).redo_stack@) == entries_v(old(self).redo_stack@).drop_last()
                &&& entries_v(final(self).undo_stack@) == push_bounded(
                    entries_v(old(self).undo_stack@),
                    UndoEntryV { name: e.name, inverses: ue },
                )
                &&& final(self).dirty
                &&& final(self).history_dropped == old(self).drops_history()
                &&& final(self).stats.counts(f1)
                &&& final(self).id_gen == old(self).id_gen
                &&& final(self).same_identity(*old(self))
            },
    {
        let ghost r0 = entries_v(self.redo_stack@);
        if self.redo_stack.len() == 0 {
            return Err(CoreError::InvalidOperation("nothing to redo".to_string()));
        }
        let entry = self.redo_stack.pop().unwrap();
        proof {
            assert(entries_v(self.redo_stack@) =~= r0.drop_last());
        }
        let undo_entry = self.replay(entry);
        self.push_undo(undo_entry);
        self.dirty = true;
        self.stats = DocumentStats::from_root(&self.root);
        Ok(())
    }
}

} // verus!

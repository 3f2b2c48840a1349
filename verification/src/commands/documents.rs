//! Helpers of the document commands: grouping the tabs a merge request
//! names, comparing two documents, and exporting a folder as a document.
use vstd::prelude::*;
use crate::commands::types::{BookmarkSnapshotView, DocDiffReport, ModifiedBookmarkView, TabId};
use crate::diff::{afters_v, befores_v, bookmarks_by_url, changed, diff_documents, is_diff, snaps_v, BookmarkSnapshot, DocDiff, ModifiedBookmark};
use crate::listing::lists;
use crate::model::document::{Document, DocumentStats, HeaderMetadata};
use crate::model::node::Folder;
use crate::sanitize::apply::clone_folder;
use crate::urls::opt_view;

verus! {

// ---------------------------------------------------------------------------
// Merge requests
// ---------------------------------------------------------------------------

/// The tabs of `s`, each once, in the order they first occur.
pub open spec fn first_occurrences(s: Seq<TabId>) -> Seq<TabId>
    decreases s.len(),
{
    if s.len() == 0 {
        Seq::empty()
    } else {
        let f = first_occurrences(s.drop_last());
        if f.contains(s.last()) { f } else { f.push(s.last()) }
    }
}

fn position_of(v: &Vec<TabId>, t: TabId) -> (r: Option<usize>)
    ensures
        match r {
            Some(i) => i < v.len() && v@[i as int] == t,
            None => !v@.contains(t),
        },
{
    let mut i: usize = 0;
    while i < v.len()
        invariant
            i <= v.len(),
            forall|k: int| 0 <= k < i ==> v@[k] != t,
        decreases v.len() - i,
    {
        if v[i] == t {
            return Some(i);
        }
        i += 1;
    }
    None
}

/// The distinct tabs of a merge request in first-seen order, and for each
/// pick the index of its tab among them.
pub fn group_tabs(tabs: &Vec<TabId>) -> (r: (Vec<TabId>, Vec<usize>))
    ensures
        r.0@ == first_occurrences(tabs@),
        r.1@.len() == tabs@.len(),
        forall|i: int| 0 <= i < tabs@.len() ==> (#[trigger] r.1@[i]) < r.0@.len() && r.0@[r.1@[i] as int] == tabs@[i],
{
    let mut seen: Vec<TabId> = Vec::new();
    let mut index: Vec<usize> = Vec::new();
    let mut i: usize = 0;
    proof {
        assert(tabs@.take(0) =~= Seq::<TabId>::empty());
    }
    while i < tabs.len()
        invariant
            i <= tabs.len(),
            seen@ == first_occurrences(tabs@.take(i as int)),
            index@.len() == i,
            forall|k: int| 0 <= k < i ==> (#[trigger] index@[k]) < seen@.len() && seen@[index@[k] as int] == tabs@[k],
        decreases tabs.len() - i,
    {
        proof {
            assert(tabs@.take(i + 1).drop_last() =~= tabs@.take(i as int));
            assert(tabs@.take(i + 1).last() == tabs@[i as int]);
        }
        let t = tabs[i];
        match position_of(&seen, t) {
            Some(p) => {
                index.push(p);
            },
            None => {
                seen.push(t);
                index.push(seen.len() - 1);
            },
        }
        i += 1;
    }
    proof {
        assert(tabs@.take(tabs.len() as int) =~= tabs@);
    }
    (seen, index)
}

// ---------------------------------------------------------------------------
// Comparing
// ---------------------------------------------------------------------------

/// The title a document shows.
pub open spec fn title_v(doc: Document) -> Seq<char> {
    match doc.header.title {
        Some(t) => t@,
        None => "Bookmarks"@,
    }
}

pub fn document_title(doc: &Document) -> (r: String)
    ensures
        r@ == title_v(*doc),
{
    match &doc.header.title {
        Some(t) => t.clone(),
        None => "Bookmarks".to_owned(),
    }
}

pub open spec fn views_v(s: Seq<BookmarkSnapshotView>) -> Seq<(Seq<char>, Seq<char>)> {
    s.map_values(|x: BookmarkSnapshotView| (x.url@, x.title@))
}

pub open spec fn before_views_v(s: Seq<ModifiedBookmarkView>) -> Seq<(Seq<char>, Seq<char>)> {
    s.map_values(|x: ModifiedBookmarkView| (x.before.url@, x.before.title@))
}

pub open spec fn after_views_v(s: Seq<ModifiedBookmarkView>) -> Seq<(Seq<char>, Seq<char>)> {
    s.map_values(|x: ModifiedBookmarkView| (x.after.url@, x.after.title@))
}

fn snapshot_view(s: &BookmarkSnapshot) -> (r: BookmarkSnapshotView)
    ensures
        (r.url@, r.title@) == s@,
{
    BookmarkSnapshotView { url: s.url.clone(), title: s.title.clone() }
}

fn snapshot_views(v: &Vec<BookmarkSnapshot>) -> (r: Vec<BookmarkSnapshotView>)
    ensures
        views_v(r@) == snaps_v(v@),
{
    let mut out: Vec<BookmarkSnapshotView> = Vec::new();
    let mut i: usize = 0;
    while i < v.len()
        invariant
            i <= v.len(),
            out@.len() == i,
            views_v(out@) == snaps_v(v@).take(i as int),
        decreases v.len() - i,
    {
        let x = snapshot_view(&v[i]);
        let ghost before = out@;
        out.push(x);
        proof {
            assert(out@ == before.push(x));
            assert(views_v(out@)[i as int] == (x.url@, x.title@));
            assert(snaps_v(v@)[i as int] == v@[i as int]@);
            assert(views_v(out@) =~= snaps_v(v@).take(i + 1));
        }
        i += 1;
    }
    proof {
        assert(snaps_v(v@).take(v.len() as int) =~= snaps_v(v@));
    }
    out
}

fn modified_views(v: &Vec<ModifiedBookmark>) -> (r: Vec<ModifiedBookmarkView>)
    ensures
        before_views_v(r@) == befores_v(v@),
        after_views_v(r@) == afters_v(v@),
{
    let mut out: Vec<ModifiedBookmarkView> = Vec::new();
    let mut i: usize = 0;
    while i < v.len()
        invariant
            i <= v.len(),
            out@.len() == i,
            before_views_v(out@) == befores_v(v@).take(i as int),
            after_views_v(out@) == afters_v(v@).take(i as int),
        decreases v.len() - i,
    {
        let x = ModifiedBookmarkView { before: snapshot_view(&v[i].before), after: snapshot_view(&v[i].after) };
        let ghost before = out@;
        out.push(x);
        proof {
            assert(out@ == before.push(x));
            assert(before_views_v(out@)[i as int] == (x.before.url@, x.before.title@));
            assert(after_views_v(out@)[i as int] == (x.after.url@, x.after.title@));
            assert(befores_v(v@)[i as int] == v@[i as int].before@);
            assert(afters_v(v@)[i as int] == v@[i as int].after@);
            assert(before_views_v(out@) =~= befores_v(v@).take(i + 1));
            assert(after_views_v(out@) =~= afters_v(v@).take(i + 1));
        }
        i += 1;
    }
    proof {
        assert(befores_v(v@).take(v.len() as int) =~= befores_v(v@));
        assert(afters_v(v@).take(v.len() as int) =~= afters_v(v@));
    }
    out
}

/// The comparison report of two documents: their titles and the bookmarks
/// added, removed and retitled from left to right (see `diff_documents`).
pub fn diff_report(left: &Document, right: &Document) -> (r: DocDiffReport)
    ensures
        r.left_title@ == title_v(*left),
        r.right_title@ == title_v(*right),
        ({
            let l = bookmarks_by_url(left.root@);
            let rr = bookmarks_by_url(right.root@);
            &&& lists(views_v(r.removed@), l.dom().difference(rr.dom()), l)
            &&& lists(views_v(r.added@), rr.dom().difference(l.dom()), rr)
            &&& lists(before_views_v(r.modified@), changed(l, rr), l)
            &&& lists(after_views_v(r.modified@), changed(l, rr), rr)
        }),
{
    let d = diff_documents(left, right);
    DocDiffReport {
        left_title: document_title(left),
        right_title: document_title(right),
        added: snapshot_views(&d.added),
        removed: snapshot_views(&d.removed),
        modified: modified_views(&d.modified),
    }
}

// ---------------------------------------------------------------------------
// Exporting a folder
// ---------------------------------------------------------------------------

fn copy_opt(o: &Option<String>) -> (r: Option<String>)
    ensures
        opt_view(r) == opt_view(*o),
{
    match o {
        Some(s) => Some(s.clone()),
        None => None,
    }
}

/// A document holding a copy of `folder` as its root, with the source's id,
/// path, header and allocator, fresh counts, no history and no changes.
pub fn subtree_document(source: &Document, folder: &Folder) -> (r: Document)
    ensures
        r.id == source.id,
        opt_view(r.path) == opt_view(source.path),
        r.root@ == folder@,
        opt_view(r.header.charset) == opt_view(source.header.charset),
        opt_view(r.header.title) == opt_view(source.header.title),
        r.header.has_bom == source.header.has_bom,
        r.header.line_ending == source.header.line_ending,
        r.id_gen == source.id_gen,
        r.stats.counts(r.root@),
        r.undo_stack@.len() == 0,
        r.redo_stack@.len() == 0,
        !r.dirty,
{
    let root = clone_folder(folder);
    let stats = DocumentStats::from_root(&root);
    Document {
        id: source.id,
        path: copy_opt(&source.path),
        root,
        header: HeaderMetadata {
            charset: copy_opt(&source.header.charset),
            title: copy_opt(&source.header.title),
            has_bom: source.header.has_bom,
            line_ending: source.header.line_ending,
        },
        id_gen: source.id_gen,
        stats,
        undo_stack: Vec::new(),
        redo_stack: Vec::new(),
        dirty: false,
        history_dropped: false,
    }
}

} // verus!

//! Comparing two documents bookmark by bookmark.
//!
//! Bookmarks are keyed by their URL text and folder structure is ignored, so
//! a bookmark moved to another folder is no difference.  Where a document
//! holds one URL several times, its last occurrence in document order counts.
//! Each bucket of the result is sorted by URL.
use vstd::prelude::*;
use crate::model::document::Document;
use crate::model::node::{lemma_folder_v, lemma_nodes_v, node_v, Folder, FolderV, Node, NodeV};
use crate::listing::{lemma_lists_insert, lemma_lists_update, lists};
use crate::text::{lemma_text_lt_asym, lemma_text_lt_total, lemma_text_lt_trans, same_text, text_less, text_lt};

verus! {

broadcast use {lemma_nodes_v, lemma_folder_v};

/// A bookmark's URL text and title.
#[derive(Debug, Clone, PartialEq, Eq)]
pub struct BookmarkSnapshot {
    pub url: String,
    pub title: String,
}

impl View for BookmarkSnapshot {
    type V = (Seq<char>, Seq<char>);

    open spec fn view(&self) -> (Seq<char>, Seq<char>) {
        (self.url@, self.title@)
    }
}

/// A URL present on both sides with a different title.
#[derive(Debug, Clone, PartialEq, Eq)]
pub struct ModifiedBookmark {
    pub before: BookmarkSnapshot,
    pub after: BookmarkSnapshot,
}

/// The differences between two documents.
#[derive(Debug, Clone, PartialEq, Eq)]
pub struct DocDiff {
    /// URLs present in the right document only.
    pub added: Vec<BookmarkSnapshot>,
    /// URLs present in the left document only.
    pub removed: Vec<BookmarkSnapshot>,
    /// URLs present on both sides whose titles differ.
    pub modified: Vec<ModifiedBookmark>,
}

impl Default for DocDiff {
    fn default() -> (r: Self)
        ensures
            r.added@.len() == 0,
            r.removed@.len() == 0,
            r.modified@.len() == 0,
    {
        DocDiff { added: Vec::new(), removed: Vec::new(), modified: Vec::new() }
    }
}

impl DocDiff {
    /// True when both sides hold the same bookmarks.
    pub fn is_empty(&self) -> (r: bool)
        ensures
            r == (self.added@.len() == 0 && self.removed@.len() == 0 && self.modified@.len() == 0),
    {
        self.added.len() == 0 && self.removed.len() == 0 && self.modified.len() == 0
    }

    /// The number of differing bookmarks over the three buckets.
    pub fn total(&self) -> (r: usize)
        requires
            self.added@.len() + self.removed@.len() + self.modified@.len() <= usize::MAX,
        ensures
            r == self.added@.len() + self.removed@.len() + self.modified@.len(),
    {
        self.added.len() + self.removed.len() + self.modified.len()
    }
}

/// A diff is empty exactly when its total over the three buckets is zero.
pub proof fn empty_iff_total_zero(d: DocDiff)
    ensures
        (d.added@.len() == 0 && d.removed@.len() == 0 && d.modified@.len() == 0)
            == (d.added@.len() + d.removed@.len() + d.modified@.len() == 0),
{
}

// ---------------------------------------------------------------------------
// The model
// ---------------------------------------------------------------------------

pub open spec fn snaps_v(s: Seq<BookmarkSnapshot>) -> Seq<(Seq<char>, Seq<char>)> {
    s.map_values(|x: BookmarkSnapshot| x@)
}

pub open spec fn befores_v(s: Seq<ModifiedBookmark>) -> Seq<(Seq<char>, Seq<char>)> {
    s.map_values(|x: ModifiedBookmark| x.before@)
}

pub open spec fn afters_v(s: Seq<ModifiedBookmark>) -> Seq<(Seq<char>, Seq<char>)> {
    s.map_values(|x: ModifiedBookmark| x.after@)
}

/// The (URL text, title) of every bookmark among `ns` and below them, in
/// document order.
pub open spec fn bookmark_pairs(ns: Seq<NodeV>) -> Seq<(Seq<char>, Seq<char>)>
    decreases ns,
{
    if ns.len() == 0 {
        Seq::empty()
    } else {
        let rest = bookmark_pairs(ns.subrange(0, ns.len() - 1));
        match ns[ns.len() - 1] {
            NodeV::Bookmark(b) => rest.push((b.url.text(), b.title)),
            NodeV::Folder(f) => rest + bookmark_pairs(f.children),
            NodeV::Separator(_) => rest,
        }
    }
}

/// `m` with each pair of `s` written in, in order (a later one overwrites).
pub open spec fn insert_all(m: Map<Seq<char>, Seq<char>>, s: Seq<(Seq<char>, Seq<char>)>) -> Map<Seq<char>, Seq<char>>
    decreases s.len(),
{
    if s.len() == 0 {
        m
    } else {
        insert_all(m, s.drop_last()).insert(s.last().0, s.last().1)
    }
}

/// The bookmarks of the tree: title by URL text, the last occurrence
/// winning.
pub open spec fn bookmarks_by_url(root: FolderV) -> Map<Seq<char>, Seq<char>> {
    insert_all(Map::empty(), bookmark_pairs(root.children))
}

/// The URLs present on both sides with different titles.
pub open spec fn changed(l: Map<Seq<char>, Seq<char>>, r: Map<Seq<char>, Seq<char>>) -> Set<Seq<char>> {
    Set::new(|u: Seq<char>| l.dom().contains(u) && r.dom().contains(u) && l[u] != r[u])
}

/// `d` is the difference from `l` to `r`.
pub open spec fn is_diff(d: DocDiff, l: Map<Seq<char>, Seq<char>>, r: Map<Seq<char>, Seq<char>>) -> bool {
    &&& lists(snaps_v(d.removed@), l.dom().difference(r.dom()), l)
    &&& lists(snaps_v(d.added@), r.dom().difference(l.dom()), r)
    &&& lists(befores_v(d.modified@), changed(l, r), l)
    &&& lists(afters_v(d.modified@), changed(l, r), r)
}

// ---------------------------------------------------------------------------
// Lemmas
// ---------------------------------------------------------------------------

proof fn lemma_insert_all_concat(m: Map<Seq<char>, Seq<char>>, a: Seq<(Seq<char>, Seq<char>)>, b: Seq<(Seq<char>, Seq<char>)>)
    ensures
        insert_all(m, a + b) == insert_all(insert_all(m, a), b),
    decreases b.len(),
{
    if b.len() == 0 {
        assert(a + b =~= a);
    } else {
        assert((a + b).drop_last() =~= a + b.drop_last());
        lemma_insert_all_concat(m, a, b.drop_last());
    }
}

// ---------------------------------------------------------------------------
// Collecting the bookmarks of a document
// ---------------------------------------------------------------------------

fn snapshot_of(url: &str, title: &str) -> (r: BookmarkSnapshot)
    ensures
        r@ == (url@, title@),
{
    BookmarkSnapshot { url: url.to_owned(), title: title.to_owned() }
}

/// Write `s` into the sorted listing `v`: its title replaces the one of an
/// equal URL, else it is inserted at its place.
fn insert_sorted(v: &mut Vec<BookmarkSnapshot>, s: BookmarkSnapshot, Ghost(m): Ghost<Map<Seq<char>, Seq<char>>>)
    requires
        lists(snaps_v(old(v)@), m.dom(), m),
    ensures
        lists(snaps_v(final(v)@), m.insert(s@.0, s@.1).dom(), m.insert(s@.0, s@.1)),
{
    let ghost sv = snaps_v(v@);
    proof {
        assert forall|i: int, j: int| 0 <= i < j < v.len() implies text_lt(#[trigger] v@[i].url@, #[trigger] v@[j].url@) by {
            assert(text_lt(sv[i].0, sv[j].0));
        }
    }
    let k = lower_bound(v, s.url.as_str());
    proof {
        assert forall|a: int| 0 <= a < k implies text_lt(#[trigger] sv[a].0, s@.0) by {
            assert(text_lt(v@[a].url@, s.url@));
        }
    }
    if k < v.len() && same_text(v[k].url.as_str(), s.url.as_str()) {
        proof {
            lemma_lists_update(sv, m, k as int, s@.1);
            assert(snaps_v(v@.update(k as int, s)) =~= sv.update(k as int, (sv[k as int].0, s@.1)));
        }
        v.set(k, s);
    } else {
        proof {
            if k < v.len() {
                lemma_text_lt_total(sv[k as int].0, s@.0);
            }
            lemma_lists_insert(sv, m, k as int, s@.0, s@.1);
            assert(snaps_v(v@.insert(k as int, s)) =~= sv.insert(k as int, s@));
        }
        v.insert(k, s);
    }
}

/// Write the bookmarks of `folder` (below it, in document order) into the
/// sorted listing `out`.
fn collect_into(folder: &Folder, out: &mut Vec<BookmarkSnapshot>, Ghost(m): Ghost<Map<Seq<char>, Seq<char>>>)
    requires
        lists(snaps_v(old(out)@), m.dom(), m),
    ensures
        lists(
            snaps_v(final(out)@),
            insert_all(m, bookmark_pairs(folder@.children)).dom(),
            insert_all(m, bookmark_pairs(folder@.children)),
        ),
    decreases folder,
{
    let ghost cs = folder@.children;
    let mut i: usize = 0;
    proof {
        assert(cs.subrange(0, 0) =~= Seq::<NodeV>::empty());
    }
    while i < folder.children.len()
        invariant
            cs == folder@.children,
            i <= folder.children.len(),
            lists(
                snaps_v(out@),
                insert_all(m, bookmark_pairs(cs.subrange(0, i as int))).dom(),
                insert_all(m, bookmark_pairs(cs.subrange(0, i as int))),
            ),
        decreases folder.children.len() - i,
    {
        let ghost before = insert_all(m, bookmark_pairs(cs.subrange(0, i as int)));
        proof {
            assert(cs.subrange(0, i + 1).subrange(0, i as int) =~= cs.subrange(0, i as int));
            assert(cs[i as int] == node_v(folder.children@[i as int]));
        }
        match &folder.children[i] {
            Node::Bookmark(b) => {
                let s = snapshot_of(b.url.as_str(), b.title.as_str());
                proof {
                    let rest = bookmark_pairs(cs.subrange(0, i as int));
                    assert(bookmark_pairs(cs.subrange(0, i + 1)) == rest.push((b@.url.text(), b@.title)));
                    assert(rest.push((b@.url.text(), b@.title)).drop_last() =~= rest);
                }
                insert_sorted(out, s, Ghost(before));
            },
            Node::Folder(f) => {
                proof {
                    assert(decreases_to!(folder => folder.children));
                    assert(decreases_to!(folder.children => folder.children@));
                    assert(decreases_to!(folder.children@ => folder.children@[i as int]));
                    lemma_insert_all_concat(m, bookmark_pairs(cs.subrange(0, i as int)), bookmark_pairs(f@.children));
                }
                collect_into(f, out, Ghost(before));
                proof {
                    assert(bookmark_pairs(cs.subrange(0, i + 1)) == bookmark_pairs(cs.subrange(0, i as int)) + bookmark_pairs(f@.children));
                }
            },
            Node::Separator(_) => {
                proof {
                    assert(bookmark_pairs(cs.subrange(0, i + 1)) == bookmark_pairs(cs.subrange(0, i as int)));
                }
            },
        }
        i += 1;
    }
    proof {
        assert(cs.subrange(0, cs.len() as int) =~= cs);
    }
}

/// The bookmarks of `doc`, one per URL (the last occurrence), sorted by URL.
fn collect_bookmarks(doc: &Document) -> (r: Vec<BookmarkSnapshot>)
    ensures
        lists(snaps_v(r@), bookmarks_by_url(doc.root@).dom(), bookmarks_by_url(doc.root@)),
{
    let mut out: Vec<BookmarkSnapshot> = Vec::new();
    proof {
        assert(snaps_v(out@) =~= Seq::<(Seq<char>, Seq<char>)>::empty());
    }
    collect_into(&doc.root, &mut out, Ghost(Map::empty()));
    out
}

/// The first place in the sorted listing `v` whose URL does not sort
/// before `u`.
fn lower_bound(v: &Vec<BookmarkSnapshot>, u: &str) -> (k: usize)
    requires
        forall|i: int, j: int| 0 <= i < j < v.len() ==> text_lt(#[trigger] v@[i].url@, #[trigger] v@[j].url@),
    ensures
        k <= v.len(),
        forall|a: int| 0 <= a < k ==> text_lt(#[trigger] v@[a].url@, u@),
        forall|a: int| k <= a < v.len() ==> !text_lt(#[trigger] v@[a].url@, u@),
{
    let mut lo: usize = 0;
    let mut hi: usize = v.len();
    while lo < hi
        invariant
            lo <= hi <= v.len(),
            forall|i: int, j: int| 0 <= i < j < v.len() ==> text_lt(#[trigger] v@[i].url@, #[trigger] v@[j].url@),
            forall|a: int| 0 <= a < lo ==> text_lt(#[trigger] v@[a].url@, u@),
            forall|a: int| hi <= a < v.len() ==> !text_lt(#[trigger] v@[a].url@, u@),
        decreases hi - lo,
    {
        let mid = lo + (hi - lo) / 2;
        if text_less(v[mid].url.as_str(), u) {
            proof {
                assert forall|a: int| 0 <= a < mid + 1 implies text_lt(#[trigger] v@[a].url@, u@) by {
                    if a < mid {
                        lemma_text_lt_trans(v@[a].url@, v@[mid as int].url@, u@);
                    }
                }
            }
            lo = mid + 1;
        } else {
            proof {
                assert forall|a: int| mid <= a < v.len() implies !text_lt(#[trigger] v@[a].url@, u@) by {
                    if a > mid && text_lt(v@[a].url@, u@) {
                        lemma_text_lt_trans(v@[mid as int].url@, v@[a].url@, u@);
                    }
                }
            }
            hi = mid;
        }
    }
    lo
}

/// Where URL text `u` sits in the sorted listing `v`.
fn find_url(v: &Vec<BookmarkSnapshot>, u: &str) -> (r: Option<usize>)
    requires
        forall|i: int, j: int| 0 <= i < j < v.len() ==> text_lt(#[trigger] v@[i].url@, #[trigger] v@[j].url@),
    ensures
        match r {
            Some(j) => j < v.len() && v@[j as int].url@ == u@,
            None => forall|j: int| 0 <= j < v.len() ==> #[trigger] v@[j].url@ != u@,
        },
{
    let k = lower_bound(v, u);
    if k < v.len() && same_text(v[k].url.as_str(), u) {
        return Some(k);
    }
    proof {
        assert forall|j: int| 0 <= j < v.len() implies #[trigger] v@[j].url@ != u@ by {
            lemma_text_lt_asym(u@, u@);
            if j > k {
                assert(text_lt(v@[k as int].url@, v@[j].url@));
                if v@[j].url@ == u@ {
                    lemma_text_lt_total(v@[k as int].url@, u@);
                    lemma_text_lt_asym(v@[k as int].url@, u@);
                }
            }
        }
    }
    None
}

/// A subsequence of a sorted listing, taken at increasing positions, is
/// sorted.
proof fn lemma_sorted_sub(lv: Seq<(Seq<char>, Seq<char>)>, idx: Seq<int>, sub: Seq<(Seq<char>, Seq<char>)>)
    requires
        forall|i: int, j: int| 0 <= i < j < lv.len() ==> text_lt(#[trigger] lv[i].0, #[trigger] lv[j].0),
        sub.len() == idx.len(),
        forall|a: int| 0 <= a < idx.len() ==> 0 <= #[trigger] idx[a] < lv.len() && sub[a].0 == lv[idx[a]].0,
        forall|a: int, b: int| 0 <= a < b < idx.len() ==> #[trigger] idx[a] < #[trigger] idx[b],
    ensures
        forall|a: int, b: int| 0 <= a < b < sub.len() ==> text_lt(#[trigger] sub[a].0, #[trigger] sub[b].0),
{
    assert forall|a: int, b: int| 0 <= a < b < sub.len() implies text_lt(#[trigger] sub[a].0, #[trigger] sub[b].0) by {
        assert(idx[a] < idx[b]);
        assert(text_lt(lv[idx[a]].0, lv[idx[b]].0));
    }
}

/// The bookmarks of one listing whose URL the other lacks, in order.
fn only_in(l: &Vec<BookmarkSnapshot>, r: &Vec<BookmarkSnapshot>, Ghost(lm): Ghost<Map<Seq<char>, Seq<char>>>, Ghost(rm): Ghost<Map<Seq<char>, Seq<char>>>) -> (out: Vec<BookmarkSnapshot>)
    requires
        lists(snaps_v(l@), lm.dom(), lm),
        lists(snaps_v(r@), rm.dom(), rm),
    ensures
        lists(snaps_v(out@), lm.dom().difference(rm.dom()), lm),
{
    let ghost lv = snaps_v(l@);
    let ghost rv = snaps_v(r@);
    let mut out: Vec<BookmarkSnapshot> = Vec::new();
    let ghost mut ri: Seq<int> = Seq::empty();
    let mut i: usize = 0;
    while i < l.len()
        invariant
            lv == snaps_v(l@),
            rv == snaps_v(r@),
            lists(lv, lm.dom(), lm),
            lists(rv, rm.dom(), rm),
            i <= l.len(),
            ri.len() == out.len(),
            forall|a: int| 0 <= a < ri.len() ==> 0 <= #[trigger] ri[a] < i && snaps_v(out@)[a] == lv[ri[a]],
            forall|a: int, b: int| 0 <= a < b < ri.len() ==> #[trigger] ri[a] < #[trigger] ri[b],
            forall|a: int| 0 <= a < out.len() ==> !rm.dom().contains(#[trigger] snaps_v(out@)[a].0),
            forall|k: int|
                0 <= k < i && !rm.dom().contains(#[trigger] lv[k].0) ==> exists|a: int| 0 <= a < ri.len() && #[trigger] ri[a] == k,
        decreases l.len() - i,
    {
        proof {
            assert forall|x: int, y: int| 0 <= x < y < r.len() implies text_lt(#[trigger] r@[x].url@, #[trigger] r@[y].url@) by {
                assert(text_lt(rv[x].0, rv[y].0));
            }
        }
        let found = find_url(r, l[i].url.as_str());
        if found.is_none() {
            proof {
                assert forall|j: int| 0 <= j < rv.len() implies #[trigger] rv[j].0 != lv[i as int].0 by {
                    assert(rv[j].0 == r@[j].url@);
                }
                if rm.dom().contains(lv[i as int].0) {
                    let j = choose|j: int| 0 <= j < rv.len() && #[trigger] rv[j].0 == lv[i as int].0;
                }
            }
            let ghost old_out = snaps_v(out@);
            let ghost old_ri = ri;
            out.push(snapshot_of(l[i].url.as_str(), l[i].title.as_str()));
            proof {
                ri = ri.push(i as int);
                assert(snaps_v(out@) =~= old_out.push(lv[i as int]));
                assert forall|k: int| 0 <= k < i + 1 && !rm.dom().contains(#[trigger] lv[k].0) implies exists|a: int|
                    0 <= a < ri.len() && #[trigger] ri[a] == k by {
                    if k < i {
                        let a = choose|a: int| 0 <= a < old_ri.len() && #[trigger] old_ri[a] == k;
                        assert(ri[a] == k);
                    } else {
                        assert(ri[old_ri.len() as int] == k);
                    }
                }
            }
        } else {
            proof {
                let j = found->0 as int;
                assert(rv[j].0 == lv[i as int].0);
                assert(rm.dom().contains(lv[i as int].0));
            }
        }
        i += 1;
    }
    proof {
        let keys = lm.dom().difference(rm.dom());
        let ov = snaps_v(out@);
        lemma_sorted_sub(lv, ri, ov);
        assert forall|u: Seq<char>| #[trigger] keys.contains(u) implies exists|a: int| 0 <= a < ov.len() && #[trigger] ov[a].0 == u by {
            let k = choose|k: int| 0 <= k < lv.len() && #[trigger] lv[k].0 == u;
            let a = choose|a: int| 0 <= a < ri.len() && #[trigger] ri[a] == k;
            assert(ov[a].0 == u);
        }
        assert forall|a: int| 0 <= a < ov.len() implies keys.contains(#[trigger] ov[a].0) && lm.dom().contains(ov[a].0) && ov[a].1 == lm[ov[a].0] by {
            assert(ov[a] == lv[ri[a]]);
        }
    }
    out
}

/// The URLs of `l` that `r` holds with another title, with both snapshots,
/// in order.
fn retitled(l: &Vec<BookmarkSnapshot>, r: &Vec<BookmarkSnapshot>, Ghost(lm): Ghost<Map<Seq<char>, Seq<char>>>, Ghost(rm): Ghost<Map<Seq<char>, Seq<char>>>) -> (out: Vec<ModifiedBookmark>)
    requires
        lists(snaps_v(l@), lm.dom(), lm),
        lists(snaps_v(r@), rm.dom(), rm),
    ensures
        lists(befores_v(out@), changed(lm, rm), lm),
        lists(afters_v(out@), changed(lm, rm), rm),
{
    let ghost lv = snaps_v(l@);
    let ghost rv = snaps_v(r@);
    let mut out: Vec<ModifiedBookmark> = Vec::new();
    let ghost mut mi: Seq<int> = Seq::empty();
    let mut i: usize = 0;
    while i < l.len()
        invariant
            lv == snaps_v(l@),
            rv == snaps_v(r@),
            lists(lv, lm.dom(), lm),
            lists(rv, rm.dom(), rm),
            i <= l.len(),
            mi.len() == out.len(),
            forall|a: int|
                0 <= a < mi.len() ==> 0 <= #[trigger] mi[a] < i && befores_v(out@)[a] == lv[mi[a]] && afters_v(out@)[a].0
                    == lv[mi[a]].0,
            forall|a: int| 0 <= a < out.len() ==> changed(lm, rm).contains(#[trigger] afters_v(out@)[a].0),
            forall|a: int|
                0 <= a < out.len() ==> rm.dom().contains(#[trigger] afters_v(out@)[a].0) && afters_v(out@)[a].1
                    == rm[afters_v(out@)[a].0],
            forall|a: int, b: int| 0 <= a < b < mi.len() ==> #[trigger] mi[a] < #[trigger] mi[b],
            forall|k: int|
                0 <= k < i && changed(lm, rm).contains(#[trigger] lv[k].0) ==> exists|a: int|
                    0 <= a < mi.len() && #[trigger] mi[a] == k,
        decreases l.len() - i,
    {
        proof {
            assert forall|x: int, y: int| 0 <= x < y < r.len() implies text_lt(#[trigger] r@[x].url@, #[trigger] r@[y].url@) by {
                assert(text_lt(rv[x].0, rv[y].0));
            }
        }
        let found = find_url(r, l[i].url.as_str());
        match found {
            None => {
                proof {
                    assert forall|j: int| 0 <= j < rv.len() implies #[trigger] rv[j].0 != lv[i as int].0 by {
                        assert(rv[j].0 == r@[j].url@);
                    }
                    if rm.dom().contains(lv[i as int].0) {
                        let j = choose|j: int| 0 <= j < rv.len() && #[trigger] rv[j].0 == lv[i as int].0;
                    }
                    assert(!changed(lm, rm).contains(lv[i as int].0));
                }
            },
            Some(j) => {
                proof {
                    assert(rv[j as int].0 == lv[i as int].0);
                    assert(lv[i as int].1 == lm[lv[i as int].0]);
                    assert(rv[j as int].1 == rm[lv[i as int].0]);
                }
                if !same_text(r[j].title.as_str(), l[i].title.as_str()) {
                    let ghost old_b = befores_v(out@);
                    let ghost old_a = afters_v(out@);
                    let ghost old_mi = mi;
                    let m = ModifiedBookmark {
                        before: snapshot_of(l[i].url.as_str(), l[i].title.as_str()),
                        after: snapshot_of(r[j].url.as_str(), r[j].title.as_str()),
                    };
                    out.push(m);
                    proof {
                        mi = mi.push(i as int);
                        assert(befores_v(out@) =~= old_b.push(lv[i as int]));
                        assert(afters_v(out@) =~= old_a.push(rv[j as int]));
                        assert(changed(lm, rm).contains(lv[i as int].0));
                        assert forall|k: int| 0 <= k < i + 1 && changed(lm, rm).contains(#[trigger] lv[k].0) implies exists|a: int|
                            0 <= a < mi.len() && #[trigger] mi[a] == k by {
                            if k < i {
                                let a = choose|a: int| 0 <= a < old_mi.len() && #[trigger] old_mi[a] == k;
                                assert(mi[a] == k);
                            } else {
                                assert(mi[old_mi.len() as int] == k);
                            }
                        }
                    }
                } else {
                    proof {
                        assert(!changed(lm, rm).contains(lv[i as int].0));
                    }
                }
            },
        }
        i += 1;
    }
    proof {
        let keys = changed(lm, rm);
        let bv = befores_v(out@);
        let av = afters_v(out@);
        lemma_sorted_sub(lv, mi, bv);
        lemma_sorted_sub(lv, mi, av);
        assert forall|u: Seq<char>| #[trigger] keys.contains(u) implies exists|a: int| 0 <= a < bv.len() && #[trigger] bv[a].0 == u by {
            let k = choose|k: int| 0 <= k < lv.len() && #[trigger] lv[k].0 == u;
            let a = choose|a: int| 0 <= a < mi.len() && #[trigger] mi[a] == k;
            assert(bv[a].0 == u);
        }
        assert forall|u: Seq<char>| #[trigger] keys.contains(u) implies exists|a: int| 0 <= a < av.len() && #[trigger] av[a].0 == u by {
            let k = choose|k: int| 0 <= k < lv.len() && #[trigger] lv[k].0 == u;
            let a = choose|a: int| 0 <= a < mi.len() && #[trigger] mi[a] == k;
            assert(av[a].0 == u);
        }
        assert forall|a: int| 0 <= a < bv.len() implies keys.contains(#[trigger] bv[a].0) && lm.dom().contains(bv[a].0) && bv[a].1 == lm[bv[a].0] by {
            assert(bv[a] == lv[mi[a]]);
            assert(av[a].0 == bv[a].0);
        }
    }
    out
}

/// Compare `left` with `right`: bookmarks only on the right are added, only
/// on the left removed, on both with another title modified.
pub fn diff_documents(left: &Document, right: &Document) -> (d: DocDiff)
    ensures
        is_diff(d, bookmarks_by_url(left.root@), bookmarks_by_url(right.root@)),
{
    let l = collect_bookmarks(left);
    let r = collect_bookmarks(right);
    let ghost lm = bookmarks_by_url(left.root@);
    let ghost rm = bookmarks_by_url(right.root@);
    let removed = only_in(&l, &r, Ghost(lm), Ghost(rm));
    let modified = retitled(&l, &r, Ghost(lm), Ghost(rm));
    let added = only_in(&r, &l, Ghost(rm), Ghost(lm));
    DocDiff { added, removed, modified }
}


/// Two documents with the same bookmarks (the same titles under the same
/// URLs, wherever they sit) differ in nothing.
pub proof fn same_bookmarks_no_difference(d: DocDiff, l: Map<Seq<char>, Seq<char>>, r: Map<Seq<char>, Seq<char>>)
    requires
        is_diff(d, l, r),
        l == r,
    ensures
        d.added@.len() == 0,
        d.removed@.len() == 0,
        d.modified@.len() == 0,
{
    if d.removed@.len() > 0 {
        assert(l.dom().difference(r.dom()).contains(snaps_v(d.removed@)[0].0));
    }
    if d.added@.len() > 0 {
        assert(r.dom().difference(l.dom()).contains(snaps_v(d.added@)[0].0));
    }
    if d.modified@.len() > 0 {
        assert(changed(l, r).contains(befores_v(d.modified@)[0].0));
    }
}

} // verus!

//! An inverted index from character trigrams to the bookmarks whose title or
//! URL holds them.
//!
//! Text is lowercased first; a trigram is three consecutive ASCII
//! alphanumeric characters of the lowercased text.  When the lowercased
//! query occurs in the lowercased title or URL of a bookmark, every trigram
//! of the query is a trigram of that text, so the candidates of a query
//! always include every bookmark that matches it.  A query without any
//! trigram cannot be narrowed.
use vstd::prelude::*;
use std::collections::HashMap;
use crate::model::document::Document;
use crate::model::node::{lemma_folder_v, lemma_nodes_v, node_v, BookmarkV, Folder, FolderV, Node, NodeId, NodeV};
use crate::model::tree::bookmarks_in;
use crate::text::{chars_of, lowercase_of, to_lower};

verus! {

broadcast use {lemma_nodes_v, lemma_folder_v, vstd::std_specs::hash::group_hash_axioms};

/// The number of distinct trigrams: 62 alphanumeric characters, cubed.
pub const GRAM_COUNT: usize = 238328;

// ---------------------------------------------------------------------------
// Trigrams
// ---------------------------------------------------------------------------

/// `c` is an ASCII letter or digit.
pub open spec fn alnum(c: char) -> bool {
    (48 <= c as int <= 57) || (65 <= c as int <= 90) || (97 <= c as int <= 122)
}

/// The rank of an alphanumeric character among the 62: digits, then upper
/// case, then lower case letters.
pub open spec fn rank(c: char) -> int {
    if c as int <= 57 {
        c as int - 48
    } else if c as int <= 90 {
        c as int - 55
    } else {
        c as int - 61
    }
}

/// A trigram of `s` starts at `i`.
pub open spec fn gram_at(s: Seq<char>, i: int) -> bool {
    0 <= i && i + 3 <= s.len() && alnum(s[i]) && alnum(s[i + 1]) && alnum(s[i + 2])
}

/// The number of the three characters of `s` from `i` on.
pub open spec fn code_at(s: Seq<char>, i: int) -> int {
    rank(s[i]) * 3844 + rank(s[i + 1]) * 62 + rank(s[i + 2])
}

/// The trigram numbered `g` occurs in `s`.
pub open spec fn has_gram(s: Seq<char>, g: int) -> bool {
    exists|i: int| #[trigger] gram_at(s, i) && code_at(s, i) == g
}

/// The trigram numbered `g` occurs in the lowercased title or URL of `b`.
pub open spec fn bookmark_has_gram(b: BookmarkV, g: int) -> bool {
    has_gram(lowercase_of(b.title), g) || has_gram(lowercase_of(b.url.text()), g)
}

/// Some bookmark of `bs` has id `id` and holds trigram `g`.
pub open spec fn posted(bs: Seq<BookmarkV>, g: int, id: NodeId) -> bool {
    exists|k: int| 0 <= k < bs.len() && #[trigger] bs[k].id == id && bookmark_has_gram(bs[k], g)
}

pub open spec fn increasing(v: Seq<NodeId>) -> bool {
    forall|i: int, j: int| 0 <= i < j < v.len() ==> v[i] < v[j]
}

/// `p` holds, for each trigram, the ids of the bookmarks of `bs` holding
/// it, in increasing order.
pub open spec fn indexes(p: Map<usize, Vec<NodeId>>, bs: Seq<BookmarkV>) -> bool {
    &&& forall|g: int| 0 <= g < GRAM_COUNT ==> increasing(#[trigger] row(p, g))
    &&& forall|g: int, id: NodeId| 0 <= g < GRAM_COUNT ==> (#[trigger] row(p, g).contains(id) <==> posted(bs, g, id))
}

/// The ids posted in `p` under trigram number `g`: none when `g` has no
/// entry.
pub open spec fn row(p: Map<usize, Vec<NodeId>>, g: int) -> Seq<NodeId> {
    if 0 <= g <= usize::MAX && p.contains_key(g as usize) {
        p[g as usize]@
    } else {
        Seq::empty()
    }
}

fn is_alnum(c: char) -> (r: bool)
    ensures
        r == alnum(c),
{
    ('0' <= c && c <= '9') || ('A' <= c && c <= 'Z') || ('a' <= c && c <= 'z')
}

fn rank_of(c: char) -> (r: usize)
    requires
        alnum(c),
    ensures
        r == rank(c),
        r < 62,
{
    if c <= '9' {
        (c as u32 - 48) as usize
    } else if c <= 'Z' {
        (c as u32 - 55) as usize
    } else {
        (c as u32 - 61) as usize
    }
}

/// The trigrams of `s`, in text order, repeats included.
fn grams_of(s: &Vec<char>) -> (r: Vec<usize>)
    ensures
        forall|g: usize| #[trigger] r@.contains(g) <==> has_gram(s@, g as int),
        forall|k: int| 0 <= k < r.len() ==> #[trigger] r@[k] < GRAM_COUNT,
{
    let mut out: Vec<usize> = Vec::new();
    if s.len() < 3 {
        proof {
            assert forall|g: usize| #[trigger] out@.contains(g) <==> has_gram(s@, g as int) by {
                if has_gram(s@, g as int) {
                    let i = choose|i: int| #[trigger] gram_at(s@, i) && code_at(s@, i) == g as int;
                }
            }
        }
        return out;
    }
    let mut i: usize = 0;
    let ghost mut pos: Seq<int> = Seq::empty();
    while i < s.len() - 2
        invariant
            s.len() >= 3,
            i <= s.len() - 2,
            forall|k: int| 0 <= k < out.len() ==> #[trigger] out@[k] < GRAM_COUNT,
            pos.len() == out.len(),
            forall|k: int|
                0 <= k < out.len() ==> 0 <= #[trigger] pos[k] < i && gram_at(s@, pos[k]) && code_at(s@, pos[k]) == out@[k],
            forall|j: int| 0 <= j < i && #[trigger] gram_at(s@, j) ==> out@.contains(code_at(s@, j) as usize),
        decreases s.len() - i,
    {
        let ghost before = out@;
        if is_alnum(s[i]) && is_alnum(s[i + 1]) && is_alnum(s[i + 2]) {
            let code = rank_of(s[i]) * 3844 + rank_of(s[i + 1]) * 62 + rank_of(s[i + 2]);
            out.push(code);
            proof {
                assert(gram_at(s@, i as int));
                assert(code == code_at(s@, i as int));
                assert forall|j: int| 0 <= j < i + 1 && #[trigger] gram_at(s@, j) implies out@.contains(code_at(s@, j) as usize) by {
                    if j < i {
                        let k = choose|k: int| 0 <= k < before.len() && before[k] == code_at(s@, j) as usize;
                        assert(out@[k] == before[k]);
                    } else {
                        assert(out@[before.len() as int] == code);
                    }
                }
                pos = pos.push(i as int);
            }
        } else {
            proof {
                assert(!gram_at(s@, i as int));
            }
        }
        i += 1;
    }
    proof {
        assert forall|g: usize| #[trigger] out@.contains(g) <==> has_gram(s@, g as int) by {
            if out@.contains(g) {
                let k = choose|k: int| 0 <= k < out.len() && out@[k] == g;
                assert(gram_at(s@, pos[k]));
            }
            if has_gram(s@, g as int) {
                let j = choose|j: int| #[trigger] gram_at(s@, j) && code_at(s@, j) == g as int;
                assert(out@.contains(code_at(s@, j) as usize));
            }
        }
    }
    out
}

/// Write `id` into the increasing list `v`, unless it is there already.
pub(crate) fn insert_id(v: &mut Vec<NodeId>, id: NodeId)
    requires
        increasing(old(v)@),
    ensures
        increasing(final(v)@),
        forall|x: NodeId| #[trigger] final(v)@.contains(x) <==> old(v)@.contains(x) || x == id,
{
    let ghost ov = v@;
    let mut k: usize = v.len();
    while k > 0 && v[k - 1] > id
        invariant
            ov == v@,
            k <= v.len(),
            forall|t: int| k <= t < v.len() ==> #[trigger] v@[t] > id,
        decreases k,
    {
        k -= 1;
    }
    if k > 0 && v[k - 1] == id {
        return;
    }
    v.insert(k, id);
    proof {
        assert forall|x: NodeId| #[trigger] v@.contains(x) <==> ov.contains(x) || x == id by {
            if ov.contains(x) {
                let t = choose|t: int| 0 <= t < ov.len() && ov[t] == x;
                if t < k {
                    assert(v@[t] == x);
                } else {
                    assert(v@[t + 1] == x);
                }
            }
            if x == id {
                assert(v@[k as int] == id);
            }
            if v@.contains(x) {
                let t = choose|t: int| 0 <= t < v@.len() && v@[t] == x;
                if t < k {
                    assert(ov[t] == x);
                } else if t > k {
                    assert(ov[t - 1] == x);
                }
            }
        }
    }
}

/// Post `id` under each trigram of `gs`.
fn post_grams(p: &mut HashMap<usize, Vec<NodeId>>, gs: &Vec<usize>, id: NodeId)
    requires
        forall|g: int| 0 <= g < GRAM_COUNT ==> increasing(#[trigger] row(old(p)@, g)),
        forall|k: int| 0 <= k < gs.len() ==> #[trigger] gs@[k] < GRAM_COUNT,
    ensures
        forall|g: int| 0 <= g < GRAM_COUNT ==> increasing(#[trigger] row(final(p)@, g)),
        forall|g: int, x: NodeId|
            0 <= g < GRAM_COUNT ==> (#[trigger] row(final(p)@, g).contains(x) <==> row(old(p)@, g).contains(x) || (x == id
                && gs@.contains(g as usize))),
{
    let ghost op = p@;
    let mut k: usize = 0;
    while k < gs.len()
        invariant
            k <= gs.len(),
            forall|t: int| 0 <= t < gs.len() ==> #[trigger] gs@[t] < GRAM_COUNT,
            forall|g: int| 0 <= g < GRAM_COUNT ==> increasing(#[trigger] row(p@, g)),
            forall|g: int, x: NodeId|
                0 <= g < GRAM_COUNT ==> (#[trigger] row(p@, g).contains(x) <==> row(op, g).contains(x) || (x == id
                    && gs@.take(k as int).contains(g as usize))),
        decreases gs.len() - k,
    {
        let g = gs[k];
        let ghost before = p@;
        let mut ids: Vec<NodeId> = match p.remove(&g) {
            Some(v) => v,
            None => Vec::new(),
        };
        proof {
            assert(ids@ == row(before, g as int));
            assert(increasing(row(before, g as int)));
        }
        insert_id(&mut ids, id);
        p.insert(g, ids);
        proof {
            assert(gs@.take(k + 1) =~= gs@.take(k as int).push(g));
            assert forall|h: int, x: NodeId| 0 <= h < GRAM_COUNT implies (#[trigger] row(p@, h).contains(x) <==> row(op, h).contains(x) || (x == id
                && gs@.take(k + 1).contains(h as usize))) by {
                if h != g {
                    assert(row(p@, h) == row(before, h));
                    if gs@.take(k + 1).contains(h as usize) {
                        assert(gs@.take(k as int).push(g).contains(h as usize));
                        assert(gs@.take(k as int).contains(h as usize));
                    }
                } else {
                    assert(gs@.take(k + 1)[k as int] == g);
                }
            }
        }
        proof {
            assert forall|h: int| 0 <= h < GRAM_COUNT implies increasing(#[trigger] row(p@, h)) by {
                if h != g {
                    assert(row(p@, h) == row(before, h));
                }
            }
        }
        k += 1;
    }
    proof {
        assert(gs@.take(gs.len() as int) =~= gs@);
    }
}

proof fn lemma_posted_push(bs: Seq<BookmarkV>, b: BookmarkV, g: int, id: NodeId)
    ensures
        posted(bs.push(b), g, id) <==> posted(bs, g, id) || (b.id == id && bookmark_has_gram(b, g)),
{
    let bs2 = bs.push(b);
    if posted(bs, g, id) {
        let k = choose|k: int| 0 <= k < bs.len() && #[trigger] bs[k].id == id && bookmark_has_gram(bs[k], g);
        assert(bs2[k].id == id);
    }
    if b.id == id && bookmark_has_gram(b, g) {
        assert(bs2[bs.len() as int].id == id);
    }
    if posted(bs2, g, id) {
        let k = choose|k: int| 0 <= k < bs2.len() && #[trigger] bs2[k].id == id && bookmark_has_gram(bs2[k], g);
        if k < bs.len() {
            assert(bs[k].id == id);
        }
    }
}

/// Index one bookmark.
fn index_bookmark(p: &mut HashMap<usize, Vec<NodeId>>, title: &str, url: &str, id: NodeId, Ghost(done): Ghost<Seq<BookmarkV>>, Ghost(b): Ghost<BookmarkV>)
    requires
        indexes(old(p)@, done),
        b.id == id,
        b.title == title@,
        b.url.text() == url@,
    ensures
        indexes(final(p)@, done.push(b)),
{
    let lt = chars_of(to_lower(title).as_str());
    let lu = chars_of(to_lower(url).as_str());
    let gt = grams_of(&lt);
    let gu = grams_of(&lu);
    let ghost p0 = p@;
    post_grams(p, &gt, id);
    let ghost p1 = p@;
    post_grams(p, &gu, id);
    proof {
        assert forall|g: int, x: NodeId| 0 <= g < GRAM_COUNT implies (#[trigger] row(p@, g).contains(x) <==> posted(done.push(b), g, x)) by {
            lemma_posted_push(done, b, g, x);
            assert(gt@.contains(g as usize) <==> has_gram(lowercase_of(b.title), g));
            assert(gu@.contains(g as usize) <==> has_gram(lowercase_of(b.url.text()), g));
            assert(row(p1, g).contains(x) <==> row(p0, g).contains(x) || (x == id && gt@.contains(g as usize)));
        }
    }
}

/// Index every bookmark below `folder`.
fn index_folder(folder: &Folder, p: &mut HashMap<usize, Vec<NodeId>>, Ghost(done): Ghost<Seq<BookmarkV>>)
    requires
        indexes(old(p)@, done),
    ensures
        indexes(final(p)@, done + bookmarks_in(folder@.children)),
    decreases folder,
{
    let ghost cs = folder@.children;
    let mut i: usize = 0;
    proof {
        assert(cs.subrange(0, 0) =~= Seq::<NodeV>::empty());
        assert(done + bookmarks_in(cs.subrange(0, 0)) =~= done);
    }
    while i < folder.children.len()
        invariant
            cs == folder@.children,
            i <= folder.children.len(),
            indexes(p@, done + bookmarks_in(cs.subrange(0, i as int))),
        decreases folder.children.len() - i,
    {
        let ghost before = done + bookmarks_in(cs.subrange(0, i as int));
        proof {
            assert(cs.subrange(0, i + 1).subrange(0, i as int) =~= cs.subrange(0, i as int));
            assert(cs[i as int] == node_v(folder.children@[i as int]));
        }
        match &folder.children[i] {
            Node::Bookmark(b) => {
                index_bookmark(p, b.title.as_str(), b.url.as_str(), b.id, Ghost(before), Ghost(b@));
                proof {
                    assert(bookmarks_in(cs.subrange(0, i + 1)) == bookmarks_in(cs.subrange(0, i as int)).push(b@));
                    assert(before.push(b@) =~= done + bookmarks_in(cs.subrange(0, i + 1)));
                }
            },
            Node::Folder(f) => {
                proof {
                    assert(decreases_to!(folder => folder.children));
                    assert(decreases_to!(folder.children => folder.children@));
                    assert(decreases_to!(folder.children@ => folder.children@[i as int]));
                }
                index_folder(f, p, Ghost(before));
                proof {
                    assert(bookmarks_in(cs.subrange(0, i + 1)) == bookmarks_in(cs.subrange(0, i as int)) + bookmarks_in(f@.children));
                    assert(before + bookmarks_in(f@.children) =~= done + bookmarks_in(cs.subrange(0, i + 1)));
                }
            },
            Node::Separator(_) => {
                proof {
                    assert(bookmarks_in(cs.subrange(0, i + 1)) == bookmarks_in(cs.subrange(0, i as int)));
                }
            },
        }
        i += 1;
    }
    proof {
        assert(cs.subrange(0, cs.len() as int) =~= cs);
    }
}

/// The ids in both increasing lists, in increasing order.
fn intersect_sorted(a: &Vec<NodeId>, b: &Vec<NodeId>) -> (out: Vec<NodeId>)
    requires
        increasing(a@),
        increasing(b@),
    ensures
        increasing(out@),
        forall|x: NodeId| #[trigger] out@.contains(x) <==> a@.contains(x) && b@.contains(x),
{
    let mut out: Vec<NodeId> = Vec::new();
    let mut i: usize = 0;
    let mut j: usize = 0;
    while i < a.len() && j < b.len()
        invariant
            increasing(a@),
            increasing(b@),
            increasing(out@),
            i <= a.len(),
            j <= b.len(),
            forall|t: int| 0 <= t < out.len() ==> (i < a.len() ==> #[trigger] out@[t] < a@[i as int]) && (j < b.len() ==> out@[t] < b@[j as int]),
            forall|x: NodeId| #[trigger] out@.contains(x) ==> a@.contains(x) && b@.contains(x),
            forall|x: NodeId|
                a@.contains(x) && b@.contains(x) && !(#[trigger] out@.contains(x)) ==> i < a.len() && a@[i as int] <= x && j < b.len()
                    && b@[j as int] <= x,
        decreases a.len() + b.len() - i - j,
    {
        let ghost before = out@;
        if a[i] == b[j] {
            out.push(a[i]);
            proof {
                assert forall|x: NodeId| #[trigger] out@.contains(x) implies a@.contains(x) && b@.contains(x) by {
                    if x != a@[i as int] {
                        let t = choose|t: int| 0 <= t < out@.len() && out@[t] == x;
                        assert(out@ == before.push(a@[i as int]));
                        assert(t < before.len());
                        assert(before[t] == x);
                        assert(before.contains(x));
                    } else {
                        assert(a@[i as int] == x);
                        assert(b@[j as int] == x);
                    }
                }
                assert forall|x: NodeId| a@.contains(x) && b@.contains(x) && !(#[trigger] out@.contains(x)) implies i + 1 < a.len()
                    && a@[i + 1] <= x && j + 1 < b.len() && b@[j + 1] <= x by {
                    if before.contains(x) {
                        let t = choose|t: int| 0 <= t < before.len() && before[t] == x;
                        assert(out@[t] == x);
                    }
                    assert(out@[before.len() as int] == a@[i as int]);
                    let ta = choose|t: int| 0 <= t < a@.len() && a@[t] == x;
                    let tb = choose|t: int| 0 <= t < b@.len() && b@[t] == x;
                }
            }
            i += 1;
            j += 1;
        } else if a[i] < b[j] {
            proof {
                assert forall|x: NodeId| a@.contains(x) && b@.contains(x) && !(#[trigger] out@.contains(x)) implies i + 1 < a.len()
                    && a@[i + 1] <= x && j < b.len() && b@[j as int] <= x by {
                    let ta = choose|t: int| 0 <= t < a@.len() && a@[t] == x;
                }
            }
            i += 1;
        } else {
            proof {
                assert forall|x: NodeId| a@.contains(x) && b@.contains(x) && !(#[trigger] out@.contains(x)) implies i < a.len()
                    && a@[i as int] <= x && j + 1 < b.len() && b@[j + 1] <= x by {
                    let tb = choose|t: int| 0 <= t < b@.len() && b@[t] == x;
                }
            }
            j += 1;
        }
    }
    out
}

/// Every trigram number lies below `GRAM_COUNT`.
proof fn lemma_gram_range(s: Seq<char>, g: int)
    requires
        has_gram(s, g),
    ensures
        0 <= g < GRAM_COUNT,
{
    let i = choose|i: int| #[trigger] gram_at(s, i) && code_at(s, i) == g;
}

/// A candidate that an index covering a tree gives for a query with a
/// trigram is the id of a bookmark of that tree.
pub proof fn candidates_are_bookmarks(idx: SearchIndex, root: FolderV, q: Seq<char>, v: Seq<NodeId>, id: NodeId)
    requires
        idx.covers(root),
        idx.narrows_to(q, v),
        exists|g: int| has_gram(lowercase_of(q), g),
        v.contains(id),
    ensures
        exists|k: int| 0 <= k < bookmarks_in(root.children).len() && #[trigger] bookmarks_in(root.children)[k].id == id,
{
    let g = choose|g: int| has_gram(lowercase_of(q), g);
    lemma_gram_range(lowercase_of(q), g);
    assert(idx.posting(g).contains(id));
    assert(posted(bookmarks_in(root.children), g, id));
}

fn copy_ids(v: &Vec<NodeId>) -> (r: Vec<NodeId>)
    ensures
        r@ == v@,
{
    let mut out: Vec<NodeId> = Vec::new();
    let mut k: usize = 0;
    while k < v.len()
        invariant
            k <= v.len(),
            out@ == v@.take(k as int),
        decreases v.len() - k,
    {
        proof {
            assert(v@.take(k + 1) =~= v@.take(k as int).push(v@[k as int]));
        }
        out.push(v[k]);
        k += 1;
    }
    proof {
        assert(v@.take(v.len() as int) =~= v@);
    }
    out
}

/// Postings with no entry.
fn empty_postings() -> (r: HashMap<usize, Vec<NodeId>>)
    ensures
        forall|g: int| 0 <= g < GRAM_COUNT ==> (#[trigger] row(r@, g)).len() == 0,
{
    HashMap::new()
}

/// How many ids are posted under `g`.
fn row_len(p: &HashMap<usize, Vec<NodeId>>, g: usize) -> (r: usize)
    ensures
        r == row(p@, g as int).len(),
{
    match p.get(&g) {
        Some(v) => v.len(),
        None => 0,
    }
}

/// A copy of the ids posted under `g`.
fn row_copy(p: &HashMap<usize, Vec<NodeId>>, g: usize) -> (r: Vec<NodeId>)
    ensures
        r@ == row(p@, g as int),
{
    match p.get(&g) {
        Some(v) => copy_ids(v),
        None => Vec::new(),
    }
}

/// The ids of the increasing list `acc` that are posted under `g`.
fn intersect_row(acc: &Vec<NodeId>, p: &HashMap<usize, Vec<NodeId>>, g: usize) -> (out: Vec<NodeId>)
    requires
        increasing(acc@),
        increasing(row(p@, g as int)),
    ensures
        increasing(out@),
        forall|x: NodeId| #[trigger] out@.contains(x) <==> acc@.contains(x) && row(p@, g as int).contains(x),
{
    match p.get(&g) {
        Some(v) => intersect_sorted(acc, v),
        None => Vec::new(),
    }
}

/// Trigram postings over the bookmarks of a document.
#[derive(Debug)]
pub struct SearchIndex {
    postings: HashMap<usize, Vec<NodeId>>,
}

impl SearchIndex {
    #[verifier::type_invariant]
    spec fn well_formed(self) -> bool {
        forall|g: int| 0 <= g < GRAM_COUNT ==> increasing(#[trigger] row(self.postings@, g))
    }

    /// The ids posted under trigram number `g`.
    pub closed spec fn posting(self, g: int) -> Seq<NodeId> {
        row(self.postings@, g)
    }

    /// Each trigram's posting holds exactly the ids of the bookmarks of the
    /// tree whose lowercased title or URL holds it.
    pub open spec fn covers(self, root: FolderV) -> bool {
        forall|g: int, id: NodeId|
            0 <= g < GRAM_COUNT ==> (#[trigger] self.posting(g).contains(id) <==> posted(bookmarks_in(root.children), g, id))
    }

    /// `v` holds exactly the ids posted under every trigram of the
    /// lowercased query `q`.
    pub open spec fn narrows_to(self, q: Seq<char>, v: Seq<NodeId>) -> bool {
        forall|id: NodeId|
            #[trigger] v.contains(id) <==> (forall|g: int| #[trigger] has_gram(lowercase_of(q), g) ==> self.posting(g).contains(id))
    }

    /// Index every bookmark of `doc`.
    pub fn build(doc: &Document) -> (r: Self)
        ensures
            r.covers(doc.root@),
    {
        let mut p = empty_postings();
        proof {
            assert forall|g: int, id: NodeId| 0 <= g < GRAM_COUNT implies (#[trigger] row(p@, g).contains(id) <==> posted(Seq::<BookmarkV>::empty(), g, id)) by {
                assert(row(p@, g).len() == 0);
            }
            assert forall|g: int| 0 <= g < GRAM_COUNT implies increasing(#[trigger] row(p@, g)) by {
                assert(row(p@, g).len() == 0);
            }
        }
        index_folder(&doc.root, &mut p, Ghost(Seq::empty()));
        proof {
            assert(Seq::<BookmarkV>::empty() + bookmarks_in(doc.root@.children) =~= bookmarks_in(doc.root@.children));
        }
        SearchIndex { postings: p }
    }

    /// An increasing list of the bookmark ids that can match `query`: those
    /// posted under every trigram of the lowercased query.  `None` when the
    /// query has no trigram, so the index cannot narrow the search.
    pub fn candidates(&self, query: &str) -> (r: Option<Vec<NodeId>>)
        ensures
            r is None <==> (forall|g: int| !#[trigger] has_gram(lowercase_of(query@), g)),
            r matches Some(v) ==> increasing(v@) && self.narrows_to(query@, v@),
    {
        proof {
            use_type_invariant(self);
        }
        let lower = to_lower(query);
        let qc = chars_of(lower.as_str());
        let gs = grams_of(&qc);
        let ghost q = lowercase_of(query@);
        proof {
            assert forall|g: int| #[trigger] has_gram(q, g) implies gs@.contains(g as usize) by {
                lemma_gram_range(q, g);
            }
            assert forall|t: int| 0 <= t < gs.len() implies #[trigger] has_gram(q, gs@[t] as int) by {
                assert(gs@.contains(gs@[t]));
            }
        }
        if gs.len() == 0 {
            proof {
                assert forall|g: int| !#[trigger] has_gram(q, g) by {
                    if has_gram(q, g) {
                        lemma_gram_range(q, g);
                        assert(gs@.contains(g as usize));
                    }
                }
            }
            return None;
        }
        proof {
            assert(has_gram(q, gs@[0] as int));
        }
        let mut k: usize = 0;
        while k < gs.len()
            invariant
                k <= gs.len(),
                q == lowercase_of(query@),
                forall|t: int| 0 <= t < gs.len() ==> #[trigger] gs@[t] < GRAM_COUNT,
                forall|t: int| 0 <= t < gs.len() ==> #[trigger] has_gram(q, gs@[t] as int),
            decreases gs.len() - k,
        {
            if row_len(&self.postings, gs[k]) == 0 {
                let none: Vec<NodeId> = Vec::new();
                proof {
                    let g = gs@[k as int] as int;
                    assert(has_gram(q, g));
                    assert forall|id: NodeId| #[trigger] none@.contains(id) <==> (forall|h: int| #[trigger] has_gram(q, h) ==> self.posting(h).contains(id)) by {
                        assert(!self.posting(g).contains(id));
                    }
                }
                return Some(none);
            }
            k += 1;
        }
        // Start from the shortest posting.
        let mut m: usize = 0;
        let mut k: usize = 1;
        while k < gs.len()
            invariant
                m < gs.len(),
                k <= gs.len(),
                forall|t: int| 0 <= t < gs.len() ==> #[trigger] gs@[t] < GRAM_COUNT,
            decreases gs.len() - k,
        {
            if row_len(&self.postings, gs[k]) < row_len(&self.postings, gs[m]) {
                m = k;
            }
            k += 1;
        }
        let mut acc = row_copy(&self.postings, gs[m]);
        let mut k: usize = 0;
        while k < gs.len() && acc.len() > 0
            invariant
                m < gs.len(),
                k <= gs.len(),
                forall|t: int| 0 <= t < gs.len() ==> #[trigger] gs@[t] < GRAM_COUNT,
                forall|g: int| 0 <= g < GRAM_COUNT ==> increasing(#[trigger] row(self.postings@, g)),
                increasing(acc@),
                forall|id: NodeId|
                    #[trigger] acc@.contains(id) <==> self.posting(gs@[m as int] as int).contains(id) && (forall|t: int|
                        0 <= t < k ==> self.posting(#[trigger] gs@[t] as int).contains(id)),
            decreases gs.len() - k,
        {
            if k != m {
                let ghost before = acc@;
                acc = intersect_row(&acc, &self.postings, gs[k]);
                proof {
                    assert forall|id: NodeId| #[trigger] acc@.contains(id) <==> self.posting(gs@[m as int] as int).contains(id) && (forall|t: int|
                        0 <= t < k + 1 ==> self.posting(#[trigger] gs@[t] as int).contains(id)) by {
                        assert(before.contains(id) <==> self.posting(gs@[m as int] as int).contains(id) && (forall|t: int|
                            0 <= t < k ==> self.posting(#[trigger] gs@[t] as int).contains(id)));
                    }
                }
            } else {
                proof {
                    assert forall|id: NodeId| #[trigger] acc@.contains(id) <==> self.posting(gs@[m as int] as int).contains(id) && (forall|t: int|
                        0 <= t < k + 1 ==> self.posting(#[trigger] gs@[t] as int).contains(id)) by {
                        if acc@.contains(id) {
                            assert forall|t: int| 0 <= t < k + 1 implies self.posting(#[trigger] gs@[t] as int).contains(id) by {
                                if t < k {
                                    assert(self.posting(gs@[t] as int).contains(id));
                                }
                            }
                        }
                    }
                }
            }
            k += 1;
        }
        proof {
            assert forall|id: NodeId| #[trigger] acc@.contains(id) <==> (forall|g: int| #[trigger] has_gram(q, g) ==> self.posting(g).contains(id)) by {
                if acc@.contains(id) {
                    assert(k == gs.len());
                    assert forall|g: int| #[trigger] has_gram(q, g) implies self.posting(g).contains(id) by {
                        lemma_gram_range(q, g);
                        assert(gs@.contains(g as usize));
                        let t = choose|t: int| 0 <= t < gs.len() && gs@[t] == g as usize;
                        assert(self.posting(gs@[t] as int).contains(id));
                    }
                } else if forall|g: int| #[trigger] has_gram(q, g) ==> self.posting(g).contains(id) {
                    assert(has_gram(q, gs@[m as int] as int));
                    assert forall|t: int| 0 <= t < k implies self.posting(#[trigger] gs@[t] as int).contains(id) by {
                        assert(has_gram(q, gs@[t] as int));
                    }
                }
            }
        }
        Some(acc)
    }
}

impl Default for SearchIndex {
    fn default() -> (r: Self)
        ensures
            forall|g: int, id: NodeId| 0 <= g < GRAM_COUNT ==> !(#[trigger] r.posting(g).contains(id)),
    {
        let p = empty_postings();
        proof {
            assert forall|g: int| 0 <= g < GRAM_COUNT implies increasing(#[trigger] row(p@, g)) by {
                assert(row(p@, g).len() == 0);
            }
        }
        SearchIndex { postings: p }
    }
}

/// `t` holds `a` as a contiguous part.
pub open spec fn occurs_in(a: Seq<char>, t: Seq<char>) -> bool {
    exists|o: int| 0 <= o && o + a.len() <= t.len() && #[trigger] t.subrange(o, o + a.len()) == a
}

proof fn lemma_grams_of_part(a: Seq<char>, t: Seq<char>, g: int)
    requires
        occurs_in(a, t),
        has_gram(a, g),
    ensures
        has_gram(t, g),
{
    let o = choose|o: int| 0 <= o && o + a.len() <= t.len() && #[trigger] t.subrange(o, o + a.len()) == a;
    let i = choose|i: int| #[trigger] gram_at(a, i) && code_at(a, i) == g;
    assert(a[i] == t[o + i]);
    assert(a[i + 1] == t[o + i + 1]);
    assert(a[i + 2] == t[o + i + 2]);
    assert(gram_at(t, o + i));
}

/// A bookmark of the indexed tree that holds every trigram of the
/// lowercased query is among the candidates.
pub proof fn candidates_include_gram_holders(idx: SearchIndex, root: FolderV, q: Seq<char>, b: BookmarkV, v: Seq<NodeId>)
    requires
        idx.covers(root),
        bookmarks_in(root.children).contains(b),
        forall|g: int| #[trigger] has_gram(lowercase_of(q), g) ==> bookmark_has_gram(b, g),
        idx.narrows_to(q, v),
    ensures
        v.contains(b.id),
{
    let bs = bookmarks_in(root.children);
    let k = choose|k: int| 0 <= k < bs.len() && bs[k] == b;
    assert forall|g: int| #[trigger] has_gram(lowercase_of(q), g) implies idx.posting(g).contains(b.id) by {
        lemma_gram_range(lowercase_of(q), g);
        assert(bs[k].id == b.id && bookmark_has_gram(bs[k], g));
        assert(posted(bs, g, b.id));
    }
}

/// Narrowing never hides a match: when the lowercased query occurs in the
/// lowercased title or URL of a bookmark of the indexed tree, that
/// bookmark's id is among the candidates.
pub proof fn candidates_include_every_match(idx: SearchIndex, root: FolderV, q: Seq<char>, b: BookmarkV, v: Seq<NodeId>)
    requires
        idx.covers(root),
        bookmarks_in(root.children).contains(b),
        occurs_in(lowercase_of(q), lowercase_of(b.title)) || occurs_in(lowercase_of(q), lowercase_of(b.url.text())),
        idx.narrows_to(q, v),
    ensures
        v.contains(b.id),
{
    let bs = bookmarks_in(root.children);
    let k = choose|k: int| 0 <= k < bs.len() && bs[k] == b;
    assert forall|g: int| #[trigger] has_gram(lowercase_of(q), g) implies idx.posting(g).contains(b.id) by {
        lemma_gram_range(lowercase_of(q), g);
        if occurs_in(lowercase_of(q), lowercase_of(b.title)) {
            lemma_grams_of_part(lowercase_of(q), lowercase_of(b.title), g);
        } else {
            lemma_grams_of_part(lowercase_of(q), lowercase_of(b.url.text()), g);
        }
        assert(bs[k].id == b.id && bookmark_has_gram(bs[k], g));
        assert(posted(bs, g, b.id));
    }
}

} // verus!

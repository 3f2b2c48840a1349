//! Chrome / Chromium `Bookmarks` JSON: from the parsed file to the bookmark
//! tree.
//!
//! ```json
//! {
//!   "roots": {
//!     "bookmark_bar": { "type": "folder", "name": "Bookmarks bar", "children": [ … ] },
//!     "other":        { "type": "folder", "name": "Other bookmarks", "children": [ … ] },
//!     "synced":       { "type": "folder", "name": "Mobile bookmarks", "children": [ … ] }
//!   }
//! }
//! ```
//!
//! Each node is `type: "url"` (a bookmark) or `type: "folder"`; timestamps
//! are microseconds since 1601-01-01.  Nodes of other types are skipped.
use vstd::prelude::*;
use crate::error::CoreError;
use crate::model::attrs::attr_map_new;
use crate::model::document::{Document, DocumentStats, HeaderMetadata, LineEnding};
use crate::model::ids::{DocumentId, NodeIdAllocator};
use crate::model::node::{
    lemma_nodes_v, nodes_v, opt_str_v, url_from_text, Bookmark, BookmarkFlags, BookmarkUrl, BookmarkV, Folder,
    FolderV, Node, NodeId, NodeV,
};
use crate::model::settled::{lemma_push_settled, node_settled, nodes_settled};
use crate::model::numbering::{
    fresh_in, forest_ids, lemma_distinct_ids_unique, lemma_forest_cons, lemma_fresh_join, node_ids, tree_ids,
};
use crate::parser::html::{failed_with, root_folder_v};
use crate::parser::stamp::{chrome_secs_v, chrome_time_to_utc};
use crate::text::{ascii_lowercase, lower_v, same_text};

verus! {

/// One node of a Chrome `Bookmarks` file: its `type`, `name`, `url`,
/// `date_added` and `date_modified` (Chrome-epoch microseconds) when
/// present, and its `children`.
#[derive(Debug)]
pub struct ChromeNode {
    pub kind: Option<String>,
    pub name: Option<String>,
    pub url: Option<String>,
    pub date_added: Option<i64>,
    pub date_modified: Option<i64>,
    pub children: Vec<ChromeNode>,
}

/// A Chrome `Bookmarks` file: its `roots`, in file order, keys distinct.
#[derive(Debug)]
pub struct ChromeBookmarksFile {
    pub roots: Vec<(String, ChromeNode)>,
}

pub struct ChromeV {
    pub kind: Option<Seq<char>>,
    pub name: Option<Seq<char>>,
    pub url: Option<Seq<char>>,
    pub date_added: Option<i64>,
    pub date_modified: Option<i64>,
    pub children: Seq<ChromeV>,
}

pub open spec fn chrome_v(n: ChromeNode) -> ChromeV
    decreases n,
{
    ChromeV {
        kind: opt_str_v(n.kind),
        name: opt_str_v(n.name),
        url: opt_str_v(n.url),
        date_added: n.date_added,
        date_modified: n.date_modified,
        children: chromes_v(n.children@),
    }
}

pub open spec fn chromes_v(ns: Seq<ChromeNode>) -> Seq<ChromeV>
    decreases ns,
{
    if ns.len() == 0 {
        Seq::empty()
    } else {
        chromes_v(ns.subrange(0, ns.len() - 1)).push(chrome_v(ns[ns.len() - 1]))
    }
}

pub broadcast proof fn lemma_chromes_v(ns: Seq<ChromeNode>)
    ensures
        #[trigger] chromes_v(ns).len() == ns.len(),
        forall|i: int| 0 <= i < ns.len() ==> #[trigger] chromes_v(ns)[i] == chrome_v(ns[i]),
    decreases ns.len(),
{
    if ns.len() > 0 {
        lemma_chromes_v(ns.subrange(0, ns.len() - 1));
    }
}

impl View for ChromeNode {
    type V = ChromeV;

    open spec fn view(&self) -> ChromeV {
        chrome_v(*self)
    }
}

/// The roots of a file, keys and node views, in file order.
pub open spec fn roots_v(file: ChromeBookmarksFile) -> Seq<(Seq<char>, ChromeV)> {
    file.roots@.map_values(|e: (String, ChromeNode)| (e.0@, e.1@))
}

/// What a node's `type` makes it.
pub enum ChromeKind {
    Url,
    Folder,
    Unknown,
}

/// The kind of `n`: its `type` in ASCII lowercase decides (`url`, `folder`,
/// anything else is unknown); without a `type`, a node with a `url` is a
/// bookmark and any other a folder.
pub open spec fn kind_v(n: ChromeV) -> ChromeKind {
    match n.kind {
        Some(k) => if lower_v(k) == "url"@ {
            ChromeKind::Url
        } else if lower_v(k) == "folder"@ {
            ChromeKind::Folder
        } else {
            ChromeKind::Unknown
        },
        None => if n.url is Some {
            ChromeKind::Url
        } else {
            ChromeKind::Folder
        },
    }
}

/// A Chrome timestamp as Unix seconds.
pub open spec fn chrome_stamp_v(t: Option<i64>) -> Option<i64> {
    match t {
        Some(m) => chrome_secs_v(m),
        None => None,
    }
}

/// The text of an optional field, empty when absent.
pub open spec fn or_empty(o: Option<Seq<char>>) -> Seq<char> {
    match o {
        Some(s) => s,
        None => Seq::empty(),
    }
}

/// The bookmark a `url` node describes, with `id`.
pub open spec fn chrome_bookmark_v(n: ChromeV, id: nat) -> BookmarkV {
    BookmarkV {
        id: id as u64,
        title: or_empty(n.name),
        url: url_from_text(or_empty(n.url)),
        add_date: chrome_stamp_v(n.date_added),
        last_modified: chrome_stamp_v(n.date_modified),
        icon_blob: None,
        description: None,
        attrs: Seq::empty(),
        is_shortener: false,
    }
}

/// The node `n` stands for (none for an unknown type), with ids from `next`
/// (a folder's after its contents'), and the next free id.
pub open spec fn chrome_node_v(n: ChromeV, is_toolbar: bool, next: nat) -> (Option<NodeV>, nat)
    decreases n,
{
    match kind_v(n) {
        ChromeKind::Url => (Some(NodeV::Bookmark(chrome_bookmark_v(n, next))), next + 1),
        ChromeKind::Folder => {
            let kids = chrome_nodes_v(n.children, next);
            (
                Some(
                    NodeV::Folder(
                        FolderV {
                            id: kids.1 as u64,
                            name: or_empty(n.name),
                            add_date: chrome_stamp_v(n.date_added),
                            last_modified: chrome_stamp_v(n.date_modified),
                            is_toolbar,
                            attrs: Seq::empty(),
                            children: kids.0,
                        },
                    ),
                ),
                kids.1 + 1,
            )
        },
        ChromeKind::Unknown => (None, next),
    }
}

/// The nodes that `ns` stand for, in order, with ids from `next`.
pub open spec fn chrome_nodes_v(ns: Seq<ChromeV>, next: nat) -> (Seq<NodeV>, nat)
    decreases ns,
{
    if ns.len() == 0 {
        (Seq::empty(), next)
    } else {
        let first = chrome_node_v(ns[0], false, next);
        let rest = chrome_nodes_v(ns.subrange(1, ns.len() as int), first.1);
        (
            match first.0 {
                Some(x) => seq![x] + rest.0,
                None => rest.0,
            },
            rest.1,
        )
    }
}

/// The keys of the roots Chrome's UI shows, in its order; the first is the
/// toolbar.
pub open spec fn known_root(k: Seq<char>) -> bool {
    k == "bookmark_bar"@ || k == "other"@ || k == "synced"@
}

/// The first root with key `k`.
pub open spec fn root_named(roots: Seq<(Seq<char>, ChromeV)>, k: Seq<char>) -> Option<ChromeV>
    decreases roots.len(),
{
    if roots.len() == 0 {
        None
    } else if roots[0].0 == k {
        Some(roots[0].1)
    } else {
        root_named(roots.subrange(1, roots.len() as int), k)
    }
}

/// The roots in import order with their toolbar flags: the known roots
/// (bookmark bar, other, synced) first, then the others in file order.
pub open spec fn ordered_roots(roots: Seq<(Seq<char>, ChromeV)>) -> Seq<(ChromeV, bool)> {
    let known = |k: Seq<char>, tb: bool|
        match root_named(roots, k) {
            Some(n) => seq![(n, tb)],
            None => Seq::empty(),
        };
    known("bookmark_bar"@, true) + known("other"@, false) + known("synced"@, false) + other_roots(roots)
}

/// The roots that are not known ones, in file order, none a toolbar.
pub open spec fn other_roots(roots: Seq<(Seq<char>, ChromeV)>) -> Seq<(ChromeV, bool)>
    decreases roots.len(),
{
    if roots.len() == 0 {
        Seq::empty()
    } else {
        let head = other_roots(roots.drop_last());
        if known_root(roots.last().0) {
            head
        } else {
            head.push((roots.last().1, false))
        }
    }
}

/// The nodes of the roots `rs` (with their toolbar flags), ids from `next`.
pub open spec fn root_nodes_v(rs: Seq<(ChromeV, bool)>, next: nat) -> (Seq<NodeV>, nat)
    decreases rs.len(),
{
    if rs.len() == 0 {
        (Seq::empty(), next)
    } else {
        let first = chrome_node_v(rs[0].0, rs[0].1, next);
        let rest = root_nodes_v(rs.subrange(1, rs.len() as int), first.1);
        (
            match first.0 {
                Some(x) => seq![x] + rest.0,
                None => rest.0,
            },
            rest.1,
        )
    }
}

proof fn lemma_chrome_grow(n: ChromeV, tb: bool, next: nat)
    ensures
        chrome_node_v(n, tb, next).1 >= next,
    decreases n,
{
    if kind_v(n) is Folder {
        lemma_chromes_grow(n.children, next);
    }
}

proof fn lemma_chromes_grow(ns: Seq<ChromeV>, next: nat)
    ensures
        chrome_nodes_v(ns, next).1 >= next,
    decreases ns,
{
    if ns.len() > 0 {
        lemma_chrome_grow(ns[0], false, next);
        lemma_chromes_grow(ns.subrange(1, ns.len() as int), chrome_node_v(ns[0], false, next).1);
    }
}

proof fn lemma_roots_grow(rs: Seq<(ChromeV, bool)>, next: nat)
    ensures
        root_nodes_v(rs, next).1 >= next,
    decreases rs.len(),
{
    if rs.len() > 0 {
        lemma_chrome_grow(rs[0].0, rs[0].1, next);
        lemma_roots_grow(rs.subrange(1, rs.len() as int), chrome_node_v(rs[0].0, rs[0].1, next).1);
    }
}

/// The node that `n` stands for takes its ids, each once, from `next` up
/// to the next free id.
proof fn lemma_chrome_numbered(n: ChromeV, tb: bool, next: nat)
    requires
        chrome_node_v(n, tb, next).1 <= u64::MAX,
    ensures
        chrome_node_v(n, tb, next).0 matches Some(x) ==> fresh_in(node_ids(x), next as int, chrome_node_v(n, tb, next).1 as int),
    decreases n,
{
    if kind_v(n) is Folder {
        let kids = chrome_nodes_v(n.children, next);
        lemma_chromes_numbered(n.children, next);
        let own = seq![kids.1 as u64];
        assert(fresh_in(own, kids.1 as int, kids.1 + 1int));
        lemma_chromes_grow(n.children, next);
        lemma_fresh_join(own, forest_ids(kids.0), kids.1 as int, kids.1 + 1int, next as int, kids.1 as int, next as int, kids.1 + 1int);
    }
}

/// The nodes that `ns` stand for take their ids, each once, from `next` up
/// to the next free id.
proof fn lemma_chromes_numbered(ns: Seq<ChromeV>, next: nat)
    requires
        chrome_nodes_v(ns, next).1 <= u64::MAX,
    ensures
        fresh_in(forest_ids(chrome_nodes_v(ns, next).0), next as int, chrome_nodes_v(ns, next).1 as int),
    decreases ns,
{
    if ns.len() == 0 {
        assert(forest_ids(Seq::<NodeV>::empty()) =~= Seq::<NodeId>::empty());
    } else {
        let first = chrome_node_v(ns[0], false, next);
        let tail = ns.subrange(1, ns.len() as int);
        let rest = chrome_nodes_v(tail, first.1);
        lemma_chromes_grow(tail, first.1);
        lemma_chrome_grow(ns[0], false, next);
        lemma_chrome_numbered(ns[0], false, next);
        lemma_chromes_numbered(tail, first.1);
        match first.0 {
            Some(x) => {
                lemma_forest_cons(x, rest.0);
                lemma_fresh_join(node_ids(x), forest_ids(rest.0), next as int, first.1 as int, first.1 as int, rest.1 as int, next as int, rest.1 as int);
            },
            None => {},
        }
    }
}

/// The nodes of the roots take their ids, each once, from `next` up to the
/// next free id.
proof fn lemma_roots_numbered(rs: Seq<(ChromeV, bool)>, next: nat)
    requires
        root_nodes_v(rs, next).1 <= u64::MAX,
    ensures
        fresh_in(forest_ids(root_nodes_v(rs, next).0), next as int, root_nodes_v(rs, next).1 as int),
    decreases rs.len(),
{
    if rs.len() == 0 {
        assert(forest_ids(Seq::<NodeV>::empty()) =~= Seq::<NodeId>::empty());
    } else {
        let first = chrome_node_v(rs[0].0, rs[0].1, next);
        let tail = rs.subrange(1, rs.len() as int);
        let rest = root_nodes_v(tail, first.1);
        lemma_roots_grow(tail, first.1);
        lemma_chrome_grow(rs[0].0, rs[0].1, next);
        lemma_chrome_numbered(rs[0].0, rs[0].1, next);
        lemma_roots_numbered(tail, first.1);
        match first.0 {
            Some(x) => {
                lemma_forest_cons(x, rest.0);
                lemma_fresh_join(node_ids(x), forest_ids(rest.0), next as int, first.1 as int, first.1 as int, rest.1 as int, next as int, rest.1 as int);
            },
            None => {},
        }
    }
}

/// The next id, unless the allocator is exhausted.
fn next_id(gen: &mut NodeIdAllocator) -> (r: Option<u64>)
    ensures
        match r {
            Some(id) => id == old(gen).next_id() && final(gen).next_id() == old(gen).next_id() + 1,
            None => old(gen).next_id() == u64::MAX && *final(gen) == *old(gen),
        },
{
    if gen.peek() == u64::MAX {
        None
    } else {
        Some(gen.alloc_id())
    }
}

/// The kind of `n`.
fn kind_of(n: &ChromeNode) -> (r: ChromeKind)
    ensures
        r == kind_v(n@),
{
    match &n.kind {
        Some(k) => {
            let l = ascii_lowercase(k.as_str());
            if same_text(l.as_str(), "url") {
                ChromeKind::Url
            } else if same_text(l.as_str(), "folder") {
                ChromeKind::Folder
            } else {
                ChromeKind::Unknown
            }
        },
        None => if n.url.is_some() {
            ChromeKind::Url
        } else {
            ChromeKind::Folder
        },
    }
}

/// A Chrome timestamp as Unix seconds.
fn chrome_stamp(t: Option<i64>) -> (r: Option<i64>)
    ensures
        r == chrome_stamp_v(t),
{
    match t {
        Some(m) => chrome_time_to_utc(m),
        None => None,
    }
}

/// An optional field's text, empty when absent.
fn text_or_empty(o: &Option<String>) -> (r: String)
    ensures
        r@ == or_empty(opt_str_v(*o)),
{
    match o {
        Some(s) => s.clone(),
        None => String::new(),
    }
}

/// The node `n` stands for (`Some(None)` for an unknown type); `None` when
/// the ids run out.
fn convert_node(n: &ChromeNode, is_toolbar: bool, gen: &mut NodeIdAllocator) -> (r: Option<Option<Node>>)
    ensures
        ({
            let t = chrome_node_v(n@, is_toolbar, old(gen).next_id() as nat);
            match r {
                Some(o) => final(gen).next_id() == t.1 && match o {
                    Some(x) => t.0 == Some(x@) && node_settled(x@),
                    None => t.0 is None,
                },
                None => t.1 > u64::MAX,
            }
        }),
    decreases n@,
{
    match kind_of(n) {
        ChromeKind::Url => {
            let id = match next_id(gen) {
                Some(x) => x,
                None => {
                    return None;
                },
            };
            let href = text_or_empty(&n.url);
            let b = Bookmark {
                id,
                title: text_or_empty(&n.name),
                url: BookmarkUrl::parse(href.as_str()),
                add_date: chrome_stamp(n.date_added),
                last_modified: chrome_stamp(n.date_modified),
                icon_blob: None,
                description: None,
                attrs: attr_map_new(),
                flags: BookmarkFlags::default(),
            };
            Some(Some(Node::Bookmark(b)))
        },
        ChromeKind::Folder => {
            proof {
                assert(n@.children == chromes_v(n.children@));
                assert(decreases_to!(n@ => n@.children));
            }
            let children = match convert_nodes(&n.children, gen) {
                Some(c) => c,
                None => {
                    return None;
                },
            };
            let id = match next_id(gen) {
                Some(x) => x,
                None => {
                    return None;
                },
            };
            let f = Folder {
                id,
                name: text_or_empty(&n.name),
                add_date: chrome_stamp(n.date_added),
                last_modified: chrome_stamp(n.date_modified),
                is_toolbar,
                attrs: attr_map_new(),
                children,
            };
            Some(Some(Node::Folder(f)))
        },
        ChromeKind::Unknown => Some(None),
    }
}

/// The nodes that `ns` stand for, in order; `None` when the ids run out.
fn convert_nodes(ns: &Vec<ChromeNode>, gen: &mut NodeIdAllocator) -> (r: Option<Vec<Node>>)
    ensures
        ({
            let t = chrome_nodes_v(chromes_v(ns@), old(gen).next_id() as nat);
            match r {
                Some(v) => nodes_v(v@) == t.0 && final(gen).next_id() == t.1 && nodes_settled(t.0),
                None => t.1 > u64::MAX,
            }
        }),
    decreases chromes_v(ns@),
{
    let ghost all = chromes_v(ns@);
    let ghost n0 = gen.next_id() as nat;
    let mut out: Vec<Node> = Vec::new();
    let mut i: usize = 0;
    proof {
        lemma_chromes_v(ns@);
        assert(all.subrange(0, all.len() as int) =~= all);
        assert(nodes_v(out@) =~= Seq::<NodeV>::empty());
        assert(nodes_settled(nodes_v(out@)));
    }
    while i < ns.len()
        invariant
            all == chromes_v(ns@),
            all.len() == ns.len(),
            i <= ns.len(),
            n0 == old(gen).next_id() as nat,
            chrome_nodes_v(all, n0).0 == nodes_v(out@) + chrome_nodes_v(
                all.subrange(i as int, all.len() as int),
                gen.next_id() as nat,
            ).0,
            chrome_nodes_v(all, n0).1 == chrome_nodes_v(all.subrange(i as int, all.len() as int), gen.next_id() as nat).1,
            nodes_settled(nodes_v(out@)),
        decreases ns.len() - i,
    {
        let ghost rest = all.subrange(i as int, all.len() as int);
        let ghost cur = gen.next_id() as nat;
        let ghost prev = nodes_v(out@);
        proof {
            lemma_chromes_v(ns@);
            assert(rest[0] == ns@[i as int]@);
            assert(rest.subrange(1, rest.len() as int) =~= all.subrange(i + 1, all.len() as int));
            assert(decreases_to!(all => all[i as int]));
            lemma_nodes_v(out@);
        }
        match convert_node(&ns[i], false, gen) {
            Some(o) => {
                match o {
                    Some(x) => {
                        out.push(x);
                        proof {
                            lemma_nodes_v(out@);
                            assert(nodes_v(out@) =~= prev.push(x@));
                            lemma_push_settled(prev, x@);
                            let r1 = chrome_nodes_v(all.subrange(i + 1, all.len() as int), gen.next_id() as nat);
                            assert(prev + (seq![x@] + r1.0) =~= nodes_v(out@) + r1.0);
                        }
                    },
                    None => {},
                }
            },
            None => {
                proof {
                    lemma_chromes_grow(
                        all.subrange(i + 1, all.len() as int),
                        chrome_node_v(ns@[i as int]@, false, cur).1,
                    );
                }
                return None;
            },
        }
        i += 1;
    }
    proof {
        assert(all.subrange(i as int, all.len() as int) =~= Seq::<ChromeV>::empty());
        assert(nodes_v(out@) + Seq::<NodeV>::empty() =~= nodes_v(out@));
    }
    Some(out)
}

/// The views of root references with their toolbar flags.
pub open spec fn flagged_v(s: Seq<(&ChromeNode, bool)>) -> Seq<(ChromeV, bool)> {
    s.map_values(|p: (&ChromeNode, bool)| (p.0@, p.1))
}

/// Append the first root with key `k` (flagged `tb`), if there is one.
fn push_named<'a>(roots: &'a Vec<(String, ChromeNode)>, k: &str, tb: bool, out: &mut Vec<(&'a ChromeNode, bool)>)
    ensures
        flagged_v(final(out)@) == flagged_v(old(out)@) + match root_named(
            roots@.map_values(|e: (String, ChromeNode)| (e.0@, e.1@)),
            k@,
        ) {
            Some(n) => seq![(n, tb)],
            None => Seq::empty(),
        },
{
    let ghost rv = roots@.map_values(|e: (String, ChromeNode)| (e.0@, e.1@));
    let mut i: usize = 0;
    proof {
        assert(rv.subrange(0, rv.len() as int) =~= rv);
    }
    while i < roots.len()
        invariant
            i <= roots.len(),
            rv == roots@.map_values(|e: (String, ChromeNode)| (e.0@, e.1@)),
            *out == *old(out),
            root_named(rv, k@) == root_named(rv.subrange(i as int, rv.len() as int), k@),
        decreases roots.len() - i,
    {
        let ghost rest = rv.subrange(i as int, rv.len() as int);
        proof {
            assert(rest[0] == (roots@[i as int].0@, roots@[i as int].1@));
            assert(rest.subrange(1, rest.len() as int) =~= rv.subrange(i + 1, rv.len() as int));
        }
        if same_text(roots[i].0.as_str(), k) {
            let ghost before = out@;
            out.push((&roots[i].1, tb));
            proof {
                assert(flagged_v(out@) =~= flagged_v(before) + seq![(roots@[i as int].1@, tb)]);
            }
            return;
        }
        i += 1;
    }
    proof {
        assert(flagged_v(out@) =~= flagged_v(old(out)@) + Seq::<(ChromeV, bool)>::empty());
    }
}

/// The roots in import order with their toolbar flags.
fn ordered<'a>(file: &'a ChromeBookmarksFile) -> (r: Vec<(&'a ChromeNode, bool)>)
    ensures
        flagged_v(r@) == ordered_roots(roots_v(*file)),
{
    let roots = &file.roots;
    let ghost rv = roots_v(*file);
    let mut out: Vec<(&ChromeNode, bool)> = Vec::new();
    push_named(roots, "bookmark_bar", true, &mut out);
    push_named(roots, "other", false, &mut out);
    push_named(roots, "synced", false, &mut out);
    let ghost known = flagged_v(out@);
    let mut i: usize = 0;
    proof {
        assert(rv.take(0) =~= Seq::<(Seq<char>, ChromeV)>::empty());
        assert(known + other_roots(rv.take(0)) =~= known);
    }
    while i < roots.len()
        invariant
            i <= roots.len(),
            roots == &file.roots,
            rv == roots_v(*file),
            rv.len() == roots.len(),
            flagged_v(out@) == known + other_roots(rv.take(i as int)),
        decreases roots.len() - i,
    {
        let key = roots[i].0.as_str();
        proof {
            assert(rv[i as int] == (roots@[i as int].0@, roots@[i as int].1@));
            assert(rv.take(i + 1).drop_last() =~= rv.take(i as int));
            assert(rv.take(i + 1).last() == rv[i as int]);
        }
        if !(same_text(key, "bookmark_bar") || same_text(key, "other") || same_text(key, "synced")) {
            let ghost before = out@;
            out.push((&roots[i].1, false));
            proof {
                assert(flagged_v(out@) =~= flagged_v(before).push((roots@[i as int].1@, false)));
                assert(other_roots(rv.take(i + 1)) == other_roots(rv.take(i as int)).push((rv[i as int].1, false)));
                assert(flagged_v(out@) =~= known + other_roots(rv.take(i + 1)));
            }
        }
        i += 1;
    }
    proof {
        assert(rv.take(roots.len() as int) =~= rv);
    }
    out
}

/// The nodes of the flagged roots `rs`; `None` when the ids run out.
fn convert_roots(rs: &Vec<(&ChromeNode, bool)>, gen: &mut NodeIdAllocator) -> (r: Option<Vec<Node>>)
    ensures
        ({
            let t = root_nodes_v(flagged_v(rs@), old(gen).next_id() as nat);
            match r {
                Some(v) => nodes_v(v@) == t.0 && final(gen).next_id() == t.1 && nodes_settled(t.0),
                None => t.1 > u64::MAX,
            }
        }),
{
    let ghost all = flagged_v(rs@);
    let ghost n0 = gen.next_id() as nat;
    let mut out: Vec<Node> = Vec::new();
    let mut i: usize = 0;
    proof {
        assert(all.subrange(0, all.len() as int) =~= all);
        assert(nodes_v(out@) =~= Seq::<NodeV>::empty());
        assert(nodes_settled(nodes_v(out@)));
    }
    while i < rs.len()
        invariant
            all == flagged_v(rs@),
            all.len() == rs.len(),
            i <= rs.len(),
            n0 == old(gen).next_id() as nat,
            root_nodes_v(all, n0).0 == nodes_v(out@) + root_nodes_v(
                all.subrange(i as int, all.len() as int),
                gen.next_id() as nat,
            ).0,
            root_nodes_v(all, n0).1 == root_nodes_v(all.subrange(i as int, all.len() as int), gen.next_id() as nat).1,
            nodes_settled(nodes_v(out@)),
        decreases rs.len() - i,
    {
        let ghost rest = all.subrange(i as int, all.len() as int);
        let ghost cur = gen.next_id() as nat;
        let ghost prev = nodes_v(out@);
        proof {
            assert(rest[0] == (rs@[i as int].0@, rs@[i as int].1));
            assert(rest.subrange(1, rest.len() as int) =~= all.subrange(i + 1, all.len() as int));
            lemma_nodes_v(out@);
        }
        let (n, tb) = rs[i];
        match convert_node(n, tb, gen) {
            Some(o) => {
                match o {
                    Some(x) => {
                        out.push(x);
                        proof {
                            lemma_nodes_v(out@);
                            assert(nodes_v(out@) =~= prev.push(x@));
                            lemma_push_settled(prev, x@);
                            let r1 = root_nodes_v(all.subrange(i + 1, all.len() as int), gen.next_id() as nat);
                            assert(prev + (seq![x@] + r1.0) =~= nodes_v(out@) + r1.0);
                        }
                    },
                    None => {},
                }
            },
            None => {
                proof {
                    lemma_roots_grow(all.subrange(i + 1, all.len() as int), chrome_node_v(n@, tb, cur).1);
                }
                return None;
            },
        }
        i += 1;
    }
    proof {
        assert(all.subrange(i as int, all.len() as int) =~= Seq::<(ChromeV, bool)>::empty());
        assert(nodes_v(out@) + Seq::<NodeV>::empty() =~= nodes_v(out@));
    }
    Some(out)
}

/// `r` is what building a document (id `id`) from a Chrome file with
/// `roots` gives: a parse failure when there are no roots or the ids run
/// out, and otherwise a fresh, clean document whose root wraps the roots'
/// nodes, with a UTF-8 `Bookmarks` header and LF line endings.
pub open spec fn chrome_built(
    r: Result<Document, CoreError>,
    roots: Seq<(Seq<char>, ChromeV)>,
    has_bom: bool,
    id: DocumentId,
) -> bool {
    if roots.len() == 0 {
        r matches Err(e) && failed_with(e, "Chrome Bookmarks JSON has an empty `roots` object"@)
    } else {
        let t = root_nodes_v(ordered_roots(roots), 1);
        if t.1 < u64::MAX {
            r matches Ok(doc) && {
                &&& doc.id == id
                &&& doc.path is None
                &&& doc.root@ == root_folder_v(t.0, t.1)
                &&& doc.header.charset is Some && doc.header.charset->0@ == "UTF-8"@
                &&& doc.header.title is Some && doc.header.title->0@ == "Bookmarks"@
                &&& doc.header.has_bom == has_bom
                &&& doc.header.line_ending == LineEnding::Lf
                &&& doc.id_gen.next_id() == t.1 + 1
                &&& doc.stats.counts(doc.root@)
                &&& doc.undo_stack.len() == 0
                &&& doc.redo_stack.len() == 0
                &&& !doc.dirty
                &&& doc.wf()
            }
        } else {
            r matches Err(e) && failed_with(e, "too many bookmarks to number"@)
        }
    }
}

/// Build the bookmark document (id `id`) that a parsed Chrome `Bookmarks`
/// file describes; `has_bom` tells whether the file began with a byte
/// order mark.
pub fn build_chrome_document(file: &ChromeBookmarksFile, has_bom: bool, id: DocumentId) -> (r: Result<
    Document,
    CoreError,
>)
    ensures
        chrome_built(r, roots_v(*file), has_bom, id),
{
    if file.roots.len() == 0 {
        return Err(
            CoreError::ParseFailed {
                line: 0,
                column: 0,
                reason: "Chrome Bookmarks JSON has an empty `roots` object".to_owned(),
            },
        );
    }
    let rs = ordered(file);
    let mut gen = NodeIdAllocator::new();
    let children = match convert_roots(&rs, &mut gen) {
        Some(c) => c,
        None => {
            return Err(
                CoreError::ParseFailed { line: 0, column: 0, reason: "too many bookmarks to number".to_owned() },
            );
        },
    };
    let root_id = match next_id(&mut gen) {
        Some(x) => x,
        None => {
            return Err(
                CoreError::ParseFailed { line: 0, column: 0, reason: "too many bookmarks to number".to_owned() },
            );
        },
    };
    let root = Folder {
        id: root_id,
        name: String::new(),
        add_date: None,
        last_modified: None,
        is_toolbar: false,
        attrs: attr_map_new(),
        children,
    };
    proof {
        assert(root@ =~= root_folder_v(
            root_nodes_v(ordered_roots(roots_v(*file)), 1).0,
            root_nodes_v(ordered_roots(roots_v(*file)), 1).1,
        ));
    }
    proof {
        let t = root_nodes_v(ordered_roots(roots_v(*file)), 1);
        lemma_roots_numbered(ordered_roots(roots_v(*file)), 1);
        let own = seq![t.1 as u64];
        assert(fresh_in(own, t.1 as int, t.1 + 1int));
        lemma_roots_grow(ordered_roots(roots_v(*file)), 1);
        lemma_fresh_join(own, forest_ids(t.0), t.1 as int, t.1 + 1int, 1, t.1 as int, 1, t.1 + 1int);
        assert(tree_ids(root@) == own + forest_ids(t.0));
        lemma_distinct_ids_unique(root@, t.1 + 1int);
    }
    let stats = DocumentStats::from_root(&root);
    let header = HeaderMetadata {
        charset: Some("UTF-8".to_owned()),
        title: Some("Bookmarks".to_owned()),
        has_bom,
        line_ending: LineEnding::Lf,
    };
    Ok(
        Document {
            id,
            path: None,
            root,
            header,
            id_gen: gen,
            stats,
            undo_stack: Vec::new(),
            redo_stack: Vec::new(),
            dirty: false,
            history_dropped: false,
        },
    )
}

} // verus!

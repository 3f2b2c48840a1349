//! Browsing a document: the folder tree, a folder's items, sorting and
//! paging.
use vstd::prelude::*;
use crate::commands::filter::{item_passes_filter, passes_filter};
use crate::commands::types::{FilterSpec, FolderItem, FolderItemV, ItemKind, ItemPage, SortColumn, SortSpec, TreeNode, TreeNodeLazy};
use crate::error::UiError;
use crate::model::node::{lemma_folder_v, lemma_nodes_v, node_v, Folder, FolderV, Node, NodeId, NodeV};
use crate::sanitize::treatments::duplicates::{www_strip, www_stripped};
use crate::text::{decimal, decimal_v, lemma_text_lt_asym, lemma_text_lt_total, lemma_text_lt_trans, text_lt, text_less};
use crate::urls::{host_of, opt_view, parses, url_host_of};

verus! {

broadcast use {lemma_nodes_v, lemma_folder_v};

// ---------------------------------------------------------------------------
// Finding a folder
// ---------------------------------------------------------------------------

/// The first folder with id `id` in document order: `f` itself, else the
/// first found below its children in order.
pub open spec fn first_folder(f: FolderV, id: NodeId) -> Option<FolderV>
    decreases f, 0int,
{
    if f.id == id { Some(f) } else { first_folder_from(f.children, id, 0) }
}

/// The first folder with id `id` at or below `cs[i..]`.
pub open spec fn first_folder_from(cs: Seq<NodeV>, id: NodeId, i: int) -> Option<FolderV>
    decreases cs, cs.len() - i,
{
    if i < 0 || i >= cs.len() {
        None
    } else {
        match cs[i] {
            NodeV::Folder(c) => match first_folder(c, id) {
                Some(x) => Some(x),
                None => first_folder_from(cs, id, i + 1),
            },
            _ => first_folder_from(cs, id, i + 1),
        }
    }
}

/// The folder with id `id`: `folder` itself or the first below it.
pub fn find_folder(folder: &Folder, id: NodeId) -> (r: Option<&Folder>)
    ensures
        match r {
            Some(x) => first_folder(folder@, id) == Some(x@),
            None => first_folder(folder@, id) is None,
        },
    decreases folder,
{
    if folder.id == id {
        return Some(folder);
    }
    let ghost cs = folder@.children;
    let mut i: usize = 0;
    while i < folder.children.len()
        invariant
            cs == folder@.children,
            folder.id != id,
            i <= folder.children.len(),
            first_folder(folder@, id) == first_folder_from(cs, id, i as int),
        decreases folder.children.len() - i,
    {
        proof {
            assert(cs[i as int] == node_v(folder.children@[i as int]));
        }
        if let Node::Folder(f) = &folder.children[i] {
            proof {
                assert(decreases_to!(folder => folder.children));
                assert(decreases_to!(folder.children => folder.children@));
                assert(decreases_to!(folder.children@ => folder.children@[i as int]));
            }
            let found = find_folder(f, id);
            if found.is_some() {
                return found;
            }
        }
        i += 1;
    }
    None
}

/// The message of a missing folder.
pub open spec fn folder_missing_v(id: NodeId) -> Seq<char> {
    "folder "@ + decimal_v(id as nat) + " not found"@
}

/// The folder with id `id`, or the error naming it.
pub fn folder_or_err(root: &Folder, id: NodeId) -> (r: Result<&Folder, UiError>)
    ensures
        match r {
            Ok(x) => first_folder(root@, id) == Some(x@),
            Err(e) => first_folder(root@, id) is None && (e matches UiError::InvalidOperation(m) && m@ == folder_missing_v(id)),
        },
{
    match find_folder(root, id) {
        Some(f) => Ok(f),
        None => {
            let mut m = "folder ".to_owned();
            m.append(decimal(id).as_str());
            m.append(" not found");
            Err(UiError::InvalidOperation(m))
        },
    }
}

// ---------------------------------------------------------------------------
// Items
// ---------------------------------------------------------------------------

/// The host of a URL text with every leading `www.` removed.
pub open spec fn domain_of(u: Seq<char>) -> Option<Seq<char>> {
    if parses(u) {
        match url_host_of(u) {
            Some(h) => Some(www_stripped(h)),
            None => None,
        }
    } else {
        None
    }
}

/// The row a node shows as.
pub open spec fn item_of(n: NodeV) -> FolderItemV {
    match n {
        NodeV::Bookmark(b) => FolderItemV {
            id: b.id,
            kind: ItemKind::Bookmark,
            title: b.title,
            url: Some(b.url.text()),
            domain: domain_of(b.url.text()),
            add_date: b.add_date,
            last_modified: b.last_modified,
        },
        NodeV::Folder(f) => FolderItemV {
            id: f.id,
            kind: ItemKind::Folder,
            title: f.name,
            url: None,
            domain: None,
            add_date: f.add_date,
            last_modified: f.last_modified,
        },
        NodeV::Separator(id) => FolderItemV {
            id,
            kind: ItemKind::Separator,
            title: Seq::empty(),
            url: None,
            domain: None,
            add_date: None,
            last_modified: None,
        },
    }
}

pub fn extract_domain(raw: &str) -> (r: Option<String>)
    ensures
        opt_view(r) == domain_of(raw@),
{
    match host_of(raw) {
        Some(Some(h)) => Some(www_strip(h.as_str())),
        _ => None,
    }
}

/// The row `node` shows as.
pub fn node_to_item(node: &Node) -> (r: FolderItem)
    ensures
        r@ == item_of(node@),
{
    match node {
        Node::Bookmark(b) => FolderItem {
            id: b.id,
            kind: ItemKind::Bookmark,
            title: b.title.clone(),
            url: Some(b.url.as_str().to_owned()),
            domain: extract_domain(b.url.as_str()),
            add_date: b.add_date,
            last_modified: b.last_modified,
        },
        Node::Folder(f) => FolderItem {
            id: f.id,
            kind: ItemKind::Folder,
            title: f.name.clone(),
            url: None,
            domain: None,
            add_date: f.add_date,
            last_modified: f.last_modified,
        },
        Node::Separator(s) => FolderItem {
            id: s.id,
            kind: ItemKind::Separator,
            title: String::new(),
            url: None,
            domain: None,
            add_date: None,
            last_modified: None,
        },
    }
}

/// The rows the nodes show as, in order.
pub open spec fn rows_of(cs: Seq<NodeV>) -> Seq<FolderItemV> {
    cs.map_values(|n: NodeV| item_of(n))
}

pub open spec fn items_v(v: Seq<FolderItem>) -> Seq<FolderItemV> {
    v.map_values(|x: FolderItem| x@)
}

/// The rows that pass the filter, in order (all of them without one).
pub open spec fn filtered_v(its: Seq<FolderItemV>, f: Option<FilterSpec>) -> Seq<FolderItemV>
    decreases its.len(),
{
    if its.len() == 0 {
        Seq::empty()
    } else {
        let rest = filtered_v(its.drop_last(), f);
        let x = its.last();
        if f matches Some(spec) && !passes_filter(x, None, spec) { rest } else { rest.push(x) }
    }
}

// ---------------------------------------------------------------------------
// Sorting and paging
// ---------------------------------------------------------------------------

pub open spec fn opt_text_lt(a: Option<Seq<char>>, b: Option<Seq<char>>) -> bool {
    match (a, b) {
        (None, Some(_)) => true,
        (Some(x), Some(y)) => text_lt(x, y),
        _ => false,
    }
}

pub open spec fn opt_int_lt(a: Option<i64>, b: Option<i64>) -> bool {
    match (a, b) {
        (None, Some(_)) => true,
        (Some(x), Some(y)) => x < y,
        _ => false,
    }
}

/// `a` sorts before `b` by the column, ascending.
pub open spec fn column_lt(a: FolderItemV, b: FolderItemV, c: SortColumn) -> bool {
    match c {
        SortColumn::Title => text_lt(a.title, b.title),
        SortColumn::Url => opt_text_lt(a.url, b.url),
        SortColumn::Domain => opt_text_lt(a.domain, b.domain),
        SortColumn::AddDate => opt_int_lt(a.add_date, b.add_date),
        SortColumn::LastModified => opt_int_lt(a.last_modified, b.last_modified),
    }
}

/// `a` sorts before `b` under the spec.
pub open spec fn item_lt(a: FolderItemV, b: FolderItemV, s: SortSpec) -> bool {
    if s.descending { column_lt(b, a, s.column) } else { column_lt(a, b, s.column) }
}

/// `x` placed in the sorted `s` before every row that does not sort before
/// it.
pub open spec fn insert_item(s: Seq<FolderItemV>, x: FolderItemV, spec: SortSpec) -> Seq<FolderItemV>
    decreases s.len(),
{
    if s.len() == 0 {
        seq![x]
    } else if !item_lt(s[0], x, spec) {
        seq![x] + s
    } else {
        seq![s[0]] + insert_item(s.drop_first(), x, spec)
    }
}

/// The rows in the spec's order; rows that compare equal keep their order.
pub open spec fn sorted_items(its: Seq<FolderItemV>, spec: SortSpec) -> Seq<FolderItemV>
    decreases its.len(),
{
    if its.len() == 0 {
        Seq::empty()
    } else {
        insert_item(sorted_items(its.drop_first(), spec), its[0], spec)
    }
}

/// Each row of `s` sorts no earlier than the rows before it.
pub open spec fn sorted_by(s: Seq<FolderItemV>, spec: SortSpec) -> bool {
    forall|i: int, j: int| 0 <= i < j < s.len() ==> !item_lt(#[trigger] s[j], #[trigger] s[i], spec)
}

/// An optional text order, texts after none, is a strict total order.
proof fn lemma_opt_text_order(a: Option<Seq<char>>, b: Option<Seq<char>>, c: Option<Seq<char>>)
    ensures
        opt_text_lt(a, b) ==> !opt_text_lt(b, a),
        !opt_text_lt(a, b) && !opt_text_lt(b, c) ==> !opt_text_lt(a, c),
{
    if let (Some(x), Some(y)) = (a, b) {
        lemma_text_lt_asym(x, y);
    }
    if let (Some(x), Some(y), Some(z)) = (a, b, c) {
        lemma_text_lt_total(x, y);
        lemma_text_lt_total(y, z);
        lemma_text_lt_asym(x, z);
        lemma_text_lt_asym(z, x);
        if text_lt(z, y) && text_lt(y, x) {
            lemma_text_lt_trans(z, y, x);
        }
    }
}

/// Each column's order is asymmetric, and rows that neither sorts before
/// the next never sort out of order over two steps.
proof fn lemma_column_order(a: FolderItemV, b: FolderItemV, c: FolderItemV, col: SortColumn)
    ensures
        column_lt(a, b, col) ==> !column_lt(b, a, col),
        !column_lt(a, b, col) && !column_lt(b, c, col) ==> !column_lt(a, c, col),
{
    match col {
        SortColumn::Title => {
            lemma_opt_text_order(Some(a.title), Some(b.title), Some(c.title));
        },
        SortColumn::Url => lemma_opt_text_order(a.url, b.url, c.url),
        SortColumn::Domain => lemma_opt_text_order(a.domain, b.domain, c.domain),
        _ => {},
    }
}

/// Rows that do not sort before one another keep that over two steps, and
/// the order is asymmetric, ascending or descending.
proof fn lemma_item_order(a: FolderItemV, b: FolderItemV, c: FolderItemV, spec: SortSpec)
    ensures
        item_lt(a, b, spec) ==> !item_lt(b, a, spec),
        !item_lt(a, b, spec) && !item_lt(b, c, spec) ==> !item_lt(a, c, spec),
{
    lemma_column_order(a, b, c, spec.column);
    lemma_column_order(c, b, a, spec.column);
    lemma_column_order(b, a, c, spec.column);
}

/// A row put before others counts once more among them.
proof fn lemma_cons_multiset(x: FolderItemV, s: Seq<FolderItemV>)
    ensures
        (seq![x] + s).to_multiset() =~= s.to_multiset().insert(x),
{
    broadcast use vstd::seq_lib::group_to_multiset_ensures, vstd::multiset::group_multiset_axioms;
    let t = seq![x] + s;
    assert(t.remove(0) =~= s);
    assert(t[0] == x);
    assert(t.contains(x));
    assert forall|y: FolderItemV| #[trigger] t.to_multiset().count(y) == s.to_multiset().insert(x).count(y) by {
        assert(t.remove(0).to_multiset() =~= t.to_multiset().remove(t[0]));
    }
}

/// Inserting a row into sorted rows keeps them sorted and adds just it.
proof fn lemma_insert_sorted(s: Seq<FolderItemV>, x: FolderItemV, spec: SortSpec)
    requires
        sorted_by(s, spec),
    ensures
        sorted_by(insert_item(s, x, spec), spec),
        insert_item(s, x, spec).to_multiset() =~= s.to_multiset().insert(x),
        forall|k: int| 0 <= k < insert_item(s, x, spec).len() ==> (#[trigger] insert_item(s, x, spec)[k] == x
            || s.contains(insert_item(s, x, spec)[k])),
    decreases s.len(),
{
    broadcast use vstd::seq_lib::group_to_multiset_ensures, vstd::multiset::group_multiset_axioms;
    let r = insert_item(s, x, spec);
    if s.len() == 0 {
        assert(seq![x] + s =~= seq![x]);
        lemma_cons_multiset(x, s);
    } else if !item_lt(s[0], x, spec) {
        lemma_cons_multiset(x, s);
        assert forall|i: int, j: int| 0 <= i < j < r.len() implies !item_lt(#[trigger] r[j], #[trigger] r[i], spec) by {
            if i == 0 {
                assert(r[j] == s[j - 1]);
                if j > 1 {
                    assert(!item_lt(s[j - 1], s[0], spec));
                    lemma_item_order(s[j - 1], s[0], x, spec);
                }
            } else {
                assert(r[i] == s[i - 1] && r[j] == s[j - 1]);
            }
        }
        assert forall|k: int| 0 <= k < r.len() implies (#[trigger] r[k] == x || s.contains(r[k])) by {
            if k > 0 {
                assert(r[k] == s[k - 1]);
            }
        }
    } else {
        let t = s.drop_first();
        assert(sorted_by(t, spec)) by {
            assert forall|i: int, j: int| 0 <= i < j < t.len() implies !item_lt(#[trigger] t[j], #[trigger] t[i], spec) by {
                assert(t[i] == s[i + 1] && t[j] == s[j + 1]);
            }
        }
        lemma_insert_sorted(t, x, spec);
        let u = insert_item(t, x, spec);
        lemma_cons_multiset(s[0], u);
        lemma_cons_multiset(s[0], t);
        assert(s =~= seq![s[0]] + t);
        assert forall|k: int| 0 <= k < r.len() implies (#[trigger] r[k] == x || s.contains(r[k])) by {
            if k > 0 {
                assert(r[k] == u[k - 1]);
                if u[k - 1] != x {
                    let m = choose|m: int| 0 <= m < t.len() && t[m] == u[k - 1];
                    assert(s[m + 1] == u[k - 1]);
                }
            } else {
                assert(s[0] == r[0]);
            }
        }
        assert forall|i: int, j: int| 0 <= i < j < r.len() implies !item_lt(#[trigger] r[j], #[trigger] r[i], spec) by {
            if i == 0 {
                assert(r[j] == u[j - 1]);
                if u[j - 1] == x {
                    lemma_item_order(s[0], x, x, spec);
                } else {
                    let m = choose|m: int| 0 <= m < t.len() && t[m] == u[j - 1];
                    assert(s[m + 1] == u[j - 1]);
                }
            } else {
                assert(r[i] == u[i - 1] && r[j] == u[j - 1]);
            }
        }
    }
}

/// Sorting the rows gives them all, each as often, in the spec's order.
pub proof fn sort_is_an_ordered_permutation(its: Seq<FolderItemV>, spec: SortSpec)
    ensures
        sorted_by(sorted_items(its, spec), spec),
        sorted_items(its, spec).to_multiset() =~= its.to_multiset(),
    decreases its.len(),
{
    broadcast use vstd::seq_lib::group_to_multiset_ensures, vstd::multiset::group_multiset_axioms;
    if its.len() > 0 {
        let t = its.drop_first();
        sort_is_an_ordered_permutation(t, spec);
        lemma_insert_sorted(sorted_items(t, spec), its[0], spec);
        lemma_cons_multiset(its[0], t);
        assert(its =~= seq![its[0]] + t);
    } else {
        assert(sorted_items(its, spec) =~= Seq::<FolderItemV>::empty());
        assert(its =~= Seq::<FolderItemV>::empty());
    }
}

/// Neither row sorts before the other: they rank the same.
pub open spec fn same_rank(a: FolderItemV, b: FolderItemV, spec: SortSpec) -> bool {
    !item_lt(a, b, spec) && !item_lt(b, a, spec)
}

/// Inserting a row keeps the rows that rank like `y` in their order, the
/// inserted one first among them.
proof fn lemma_insert_stable(s: Seq<FolderItemV>, x: FolderItemV, y: FolderItemV, spec: SortSpec)
    ensures
        insert_item(s, x, spec).filter(|z: FolderItemV| same_rank(z, y, spec)) == (seq![x] + s).filter(
            |z: FolderItemV| same_rank(z, y, spec),
        ),
    decreases s.len(),
{
    let p = |z: FolderItemV| same_rank(z, y, spec);
    if s.len() == 0 {
        assert(seq![x] + s =~= seq![x]);
    } else if !item_lt(s[0], x, spec) {
    } else {
        let t = s.drop_first();
        lemma_insert_stable(t, x, y, spec);
        let u = insert_item(t, x, spec);
        u.lemma_filter_prepend(s[0], p);
        t.lemma_filter_prepend(x, p);
        t.lemma_filter_prepend(s[0], p);
        (seq![s[0]] + t).lemma_filter_prepend(x, p);
        assert(s =~= seq![s[0]] + t);
        if p(x) && p(s[0]) {
            lemma_item_order(s[0], y, x, spec);
            lemma_item_order(x, y, s[0], spec);
        }
        assert((if p(s[0]) { seq![s[0]] } else { Seq::empty() }) + ((if p(x) { seq![x] } else { Seq::empty() })
            + t.filter(p)) =~= (if p(x) { seq![x] } else { Seq::empty() }) + ((if p(s[0]) { seq![s[0]] } else {
            Seq::empty()
        }) + t.filter(p)));
    }
}

/// Sorting is stable: the rows that rank like any row `y` come out in the
/// order they went in.
pub proof fn sort_is_stable(its: Seq<FolderItemV>, y: FolderItemV, spec: SortSpec)
    ensures
        sorted_items(its, spec).filter(|z: FolderItemV| same_rank(z, y, spec)) == its.filter(
            |z: FolderItemV| same_rank(z, y, spec),
        ),
    decreases its.len(),
{
    let p = |z: FolderItemV| same_rank(z, y, spec);
    if its.len() > 0 {
        let t = its.drop_first();
        sort_is_stable(t, y, spec);
        lemma_insert_stable(sorted_items(t, spec), its[0], y, spec);
        sorted_items(t, spec).lemma_filter_prepend(its[0], p);
        t.lemma_filter_prepend(its[0], p);
        assert(its =~= seq![its[0]] + t);
    } else {
        assert(sorted_items(its, spec) =~= its);
    }
}

/// The rows from `offset` (at most the count), at most `limit` of them.
pub open spec fn page_v(its: Seq<FolderItemV>, offset: Option<usize>, limit: Option<usize>) -> Seq<FolderItemV> {
    let total = its.len() as int;
    let start = match offset {
        Some(o) => if o < total { o as int } else { total },
        None => 0,
    };
    let end = match limit {
        Some(l) => if start + l < total { start + l } else { total },
        None => total,
    };
    its.subrange(start, end)
}

fn opt_text_less(a: &Option<String>, b: &Option<String>) -> (r: bool)
    ensures
        r == opt_text_lt(opt_view(*a), opt_view(*b)),
{
    match (a, b) {
        (None, Some(_)) => true,
        (Some(x), Some(y)) => text_less(x.as_str(), y.as_str()),
        _ => false,
    }
}

fn opt_int_less(a: Option<i64>, b: Option<i64>) -> (r: bool)
    ensures
        r == opt_int_lt(a, b),
{
    match (a, b) {
        (None, Some(_)) => true,
        (Some(x), Some(y)) => x < y,
        _ => false,
    }
}

fn column_less(a: &FolderItem, b: &FolderItem, c: SortColumn) -> (r: bool)
    ensures
        r == column_lt(a@, b@, c),
{
    match c {
        SortColumn::Title => text_less(a.title.as_str(), b.title.as_str()),
        SortColumn::Url => opt_text_less(&a.url, &b.url),
        SortColumn::Domain => opt_text_less(&a.domain, &b.domain),
        SortColumn::AddDate => opt_int_less(a.add_date, b.add_date),
        SortColumn::LastModified => opt_int_less(a.last_modified, b.last_modified),
    }
}

fn item_less(a: &FolderItem, b: &FolderItem, s: &SortSpec) -> (r: bool)
    ensures
        r == item_lt(a@, b@, *s),
{
    if s.descending { column_less(b, a, s.column) } else { column_less(a, b, s.column) }
}

proof fn lemma_insert_item_len(s: Seq<FolderItemV>, x: FolderItemV, spec: SortSpec)
    ensures
        insert_item(s, x, spec).len() == s.len() + 1,
    decreases s.len(),
{
    if s.len() > 0 && item_lt(s[0], x, spec) {
        lemma_insert_item_len(s.drop_first(), x, spec);
    }
}

/// Sorting keeps the number of rows.
proof fn lemma_sorted_len(its: Seq<FolderItemV>, spec: SortSpec)
    ensures
        sorted_items(its, spec).len() == its.len(),
    decreases its.len(),
{
    if its.len() > 0 {
        lemma_sorted_len(its.drop_first(), spec);
        lemma_insert_item_len(sorted_items(its.drop_first(), spec), its[0], spec);
    }
}

proof fn lemma_insert_item_at(s: Seq<FolderItemV>, x: FolderItemV, spec: SortSpec, k: int)
    requires
        0 <= k <= s.len(),
        forall|a: int| 0 <= a < k ==> item_lt(#[trigger] s[a], x, spec),
        k < s.len() ==> !item_lt(s[k], x, spec),
    ensures
        insert_item(s, x, spec) == s.insert(k, x),
    decreases s.len(),
{
    if s.len() == 0 {
        assert(s.insert(k, x) =~= seq![x]);
    } else if k == 0 {
        assert(s.insert(0, x) =~= seq![x] + s);
    } else {
        assert(item_lt(s[0], x, spec));
        assert forall|a: int| 0 <= a < k - 1 implies item_lt(#[trigger] s.drop_first()[a], x, spec) by {
            assert(s.drop_first()[a] == s[a + 1]);
        }
        lemma_insert_item_at(s.drop_first(), x, spec, k - 1);
        assert(seq![s[0]] + s.drop_first().insert(k - 1, x) =~= s.insert(k, x));
    }
}

/// Sort the rows by the spec's column, stably.
pub fn sort_items(items: &mut Vec<FolderItem>, spec: &SortSpec)
    ensures
        items_v(final(items)@) == sorted_items(items_v(old(items)@), *spec),
{
    let ghost all = items_v(items@);
    let mut out: Vec<FolderItem> = Vec::new();
    proof {
        assert(all.skip(all.len() as int) =~= Seq::<FolderItemV>::empty());
        assert(items_v(out@) =~= Seq::<FolderItemV>::empty());
        assert(items_v(items@) =~= all.take(items@.len() as int));
    }
    while items.len() > 0
        invariant
            items@.len() <= all.len(),
            items_v(items@) == all.take(items@.len() as int),
            items_v(out@) == sorted_items(all.skip(items@.len() as int), *spec),
        decreases items@.len(),
    {
        let ghost n = items@.len() as int;
        let ghost old_items = items@;
        let x = items.pop().unwrap();
        proof {
            assert(items_v(old_items)[n - 1] == old_items[n - 1]@);
            assert(x@ == all[n - 1]);
            assert(items_v(items@) =~= all.take(n - 1));
            assert(all.skip(n - 1).drop_first() =~= all.skip(n));
            assert(all.skip(n - 1)[0] == all[n - 1]);
        }
        let ghost ov = items_v(out@);
        let mut k: usize = 0;
        while k < out.len() && item_less(&out[k], &x, spec)
            invariant
                ov == items_v(out@),
                k <= out.len(),
                forall|a: int| 0 <= a < k ==> item_lt(#[trigger] ov[a], x@, *spec),
            decreases out.len() - k,
        {
            k += 1;
        }
        proof {
            lemma_insert_item_at(ov, x@, *spec, k as int);
        }
        out.insert(k, x);
        proof {
            assert(items_v(out@) =~= ov.insert(k as int, x@));
        }
    }
    proof {
        assert(all.skip(0) =~= all);
    }
    *items = out;
}

/// One page of a folder's rows: the folder is the root for id 0, else the
/// folder with that id; rows are filtered, sorted when asked, then paged.
/// `total` counts the filtered rows.
pub fn folder_items(
    root: &Folder,
    folder_id: NodeId,
    sort: Option<SortSpec>,
    offset: Option<usize>,
    limit: Option<usize>,
    filter: Option<&FilterSpec>,
) -> (r: Result<ItemPage, UiError>)
    ensures
        ({
            let target = if folder_id == 0 { Some(root@) } else { first_folder(root@, folder_id) };
            let f = match filter {
                Some(x) => Some(*x),
                None => None,
            };
            match r {
                Ok(p) => (target matches Some(t) && {
                    let rows = filtered_v(rows_of(t.children), f);
                    let ordered = match sort {
                        Some(s) => sorted_items(rows, s),
                        None => rows,
                    };
                    &&& p.total == rows.len()
                    &&& items_v(p.items@) == page_v(ordered, offset, limit)
                }),
                Err(e) => target is None && (e matches UiError::InvalidOperation(m) && m@ == folder_missing_v(folder_id)),
            }
        }),
{
    let folder = if folder_id == 0 {
        root
    } else {
        match folder_or_err(root, folder_id) {
            Ok(x) => x,
            Err(e) => {
                return Err(e);
            },
        }
    };
    let ghost f = match filter {
        Some(x) => Some(*x),
        None => None,
    };
    let ghost all = rows_of(folder@.children);
    let mut items: Vec<FolderItem> = Vec::new();
    let mut i: usize = 0;
    proof {
        assert(all.take(0) =~= Seq::<FolderItemV>::empty());
        assert(items_v(items@) =~= filtered_v(all.take(0), f));
    }
    while i < folder.children.len()
        invariant
            all == rows_of(folder@.children),
            i <= folder.children.len(),
            f == (match filter {
                Some(x) => Some(*x),
                None => None,
            }),
            items_v(items@) == filtered_v(all.take(i as int), f),
        decreases folder.children.len() - i,
    {
        proof {
            assert(all.take(i + 1).drop_last() =~= all.take(i as int));
            assert(folder@.children[i as int] == node_v(folder.children@[i as int]));
        }
        let item = node_to_item(&folder.children[i]);
        let keep = match filter {
            Some(spec) => item_passes_filter(&item, None, spec),
            None => true,
        };
        let ghost before = items_v(items@);
        if keep {
            items.push(item);
            proof {
                assert(items_v(items@) =~= before.push(all[i as int]));
            }
        }
        proof {
            assert(all.take(i + 1).last() == all[i as int]);
        }
        i += 1;
    }
    proof {
        assert(all.take(folder@.children.len() as int) =~= all);
    }
    let ghost rows = items_v(items@);
    if let Some(s) = sort {
        sort_items(&mut items, &s);
        proof {
            lemma_sorted_len(rows, s);
        }
    }
    let total = items.len();
    let start = match offset {
        Some(o) => if o < total { o } else { total },
        None => 0,
    };
    let end = match limit {
        Some(l) => if l < total - start { start + l } else { total },
        None => total,
    };
    let ghost ordered = items_v(items@);
    let mut rest = items;
    rest.truncate(end);
    let page = rest.split_off(start);
    proof {
        assert(items_v(page@) =~= ordered.subrange(start as int, end as int));
        assert(ordered == (match sort {
            Some(s) => sorted_items(rows, s),
            None => rows,
        }));
        assert(rows == filtered_v(all, f));
        assert(items_v(page@) == page_v(ordered, offset, limit));
        if folder_id != 0 {
            assert(first_folder(root@, folder_id) == Some(folder@));
        }
    }
    proof {
        assert(items_v(page@) == page_v(ordered, offset, limit));
    }
    Ok(ItemPage { items: page, total })
}

// ---------------------------------------------------------------------------
// The folder tree
// ---------------------------------------------------------------------------

/// Some node among `ns` is a folder.
pub open spec fn has_folder(ns: Seq<NodeV>) -> bool {
    exists|i: int| 0 <= i < ns.len() && #[trigger] ns[i] is Folder
}

/// The folders among `ns`, in order.
pub open spec fn folders_of(ns: Seq<NodeV>) -> Seq<FolderV>
    decreases ns.len(),
{
    if ns.len() == 0 {
        Seq::empty()
    } else {
        let rest = folders_of(ns.drop_last());
        match ns.last() {
            NodeV::Folder(f) => rest.push(f),
            _ => rest,
        }
    }
}

/// What a lazily loaded tree row shows.
pub open spec fn lazy_row(f: FolderV) -> (NodeId, Seq<char>, bool) {
    (f.id, f.name, has_folder(f.children))
}

pub open spec fn lazy_v(rows: Seq<TreeNodeLazy>) -> Seq<(NodeId, Seq<char>, bool)> {
    rows.map_values(|r: TreeNodeLazy| (r.id, r.name@, r.has_children))
}

fn any_folder(f: &Folder) -> (r: bool)
    ensures
        r == has_folder(f@.children),
{
    let mut i: usize = 0;
    while i < f.children.len()
        invariant
            i <= f.children.len(),
            forall|k: int| 0 <= k < i ==> !(#[trigger] f@.children[k] is Folder),
        decreases f.children.len() - i,
    {
        proof {
            assert(f@.children[i as int] == node_v(f.children@[i as int]));
        }
        if let Node::Folder(_) = &f.children[i] {
            return true;
        }
        i += 1;
    }
    false
}

/// One row per folder directly inside `parent`: its id, name, and whether
/// it holds a folder itself.
pub fn lazy_children(parent: &Folder) -> (r: Vec<TreeNodeLazy>)
    ensures
        lazy_v(r@) == folders_of(parent@.children).map_values(|f: FolderV| lazy_row(f)),
{
    let ghost cs = parent@.children;
    let mut out: Vec<TreeNodeLazy> = Vec::new();
    let mut i: usize = 0;
    proof {
        assert(cs.take(0) =~= Seq::<NodeV>::empty());
        assert(lazy_v(out@) =~= folders_of(cs.take(0)).map_values(|f: FolderV| lazy_row(f)));
    }
    while i < parent.children.len()
        invariant
            cs == parent@.children,
            i <= parent.children.len(),
            lazy_v(out@) == folders_of(cs.take(i as int)).map_values(|f: FolderV| lazy_row(f)),
        decreases parent.children.len() - i,
    {
        proof {
            assert(cs.take(i + 1).drop_last() =~= cs.take(i as int));
            assert(cs[i as int] == node_v(parent.children@[i as int]));
            assert(cs.take(i + 1).last() == cs[i as int]);
        }
        let ghost before = lazy_v(out@);
        if let Node::Folder(f) = &parent.children[i] {
            let row = TreeNodeLazy { id: f.id, name: f.name.clone(), has_children: any_folder(f) };
            out.push(row);
            proof {
                assert(lazy_v(out@) =~= before.push(lazy_row(f@)));
                assert(folders_of(cs.take(i + 1)) == folders_of(cs.take(i as int)).push(f@));
                assert(folders_of(cs.take(i + 1)).map_values(|f: FolderV| lazy_row(f)) =~= folders_of(cs.take(i as int)).map_values(
                    |f: FolderV| lazy_row(f),
                ).push(lazy_row(f@)));
            }
        } else {
            proof {
                assert(folders_of(cs.take(i + 1)) == folders_of(cs.take(i as int)));
            }
        }
        i += 1;
    }
    proof {
        assert(cs.take(cs.len() as int) =~= cs);
    }
    out
}

/// `t` shows the folder `f` and, recursively, its sub-folders in order.
pub open spec fn tree_of(t: TreeNode, f: FolderV) -> bool
    decreases t, 1int,
{
    &&& t.id == f.id
    &&& t.name@ == f.name
    &&& trees_of(t.children@, folders_of(f.children))
}

/// Each of `ts` shows the folder of `fs` at its place.
pub open spec fn trees_of(ts: Seq<TreeNode>, fs: Seq<FolderV>) -> bool
    decreases ts, 0int,
{
    if ts.len() == 0 {
        fs.len() == 0
    } else {
        &&& fs.len() > 0
        &&& tree_of(ts.last(), fs.last())
        &&& trees_of(ts.drop_last(), fs.drop_last())
    }
}

/// The folder and, recursively, its sub-folders, in order.
pub fn folder_to_tree_node(folder: &Folder) -> (r: TreeNode)
    ensures
        tree_of(r, folder@),
    decreases folder,
{
    let ghost cs = folder@.children;
    let mut out: Vec<TreeNode> = Vec::new();
    let mut i: usize = 0;
    proof {
        assert(cs.take(0) =~= Seq::<NodeV>::empty());
    }
    while i < folder.children.len()
        invariant
            cs == folder@.children,
            i <= folder.children.len(),
            trees_of(out@, folders_of(cs.take(i as int))),
        decreases folder.children.len() - i,
    {
        proof {
            assert(cs.take(i + 1).drop_last() =~= cs.take(i as int));
            assert(cs[i as int] == node_v(folder.children@[i as int]));
            assert(cs.take(i + 1).last() == cs[i as int]);
        }
        if let Node::Folder(f) = &folder.children[i] {
            proof {
                assert(decreases_to!(folder => folder.children));
                assert(decreases_to!(folder.children => folder.children@));
                assert(decreases_to!(folder.children@ => folder.children@[i as int]));
            }
            let t = folder_to_tree_node(f);
            let ghost before = out@;
            out.push(t);
            proof {
                let fs = folders_of(cs.take(i as int));
                assert(folders_of(cs.take(i + 1)) == fs.push(f@));
                assert(out@.drop_last() =~= before);
                assert(fs.push(f@).drop_last() =~= fs);
            }
        } else {
            proof {
                assert(folders_of(cs.take(i + 1)) == folders_of(cs.take(i as int)));
            }
        }
        i += 1;
    }
    proof {
        assert(cs.take(cs.len() as int) =~= cs);
    }
    TreeNode { id: folder.id, name: folder.name.clone(), children: out }
}

} // verus!

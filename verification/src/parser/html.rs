//! Netscape bookmark HTML: from the document tree to the bookmark tree.
//!
//! ```html
//! <DL><p>
//!   <DT><H3 ADD_DATE="…" PERSONAL_TOOLBAR_FOLDER="true">Toolbar</H3>
//!   <DL><p>
//!     <DT><A HREF="…" ADD_DATE="…" ICON="…">Title</A>
//!     <DD>Optional description
//!     <HR>
//!   </DL><p>
//! </DL><p>
//! ```
//!
//! After HTML5 tree construction the `<p>` of `<DL><p>` may wrap the list's
//! `<DT>`s, a folder's `<DL>` may land inside its `<DT>` or after it, and an
//! `<HR>` after a bare `<DT><A>` lands inside that `<DT>`; the builder reads
//! all of these shapes.
use vstd::prelude::*;
use crate::parser::dom::{DomData, DomDataV, DomNode, DomV, attr_pairs_v, dom_v, doms_v, lemma_doms_v};
use crate::text::{lower_v, ascii_lowercase, same_text, chars_of, string_of, eq_ic, eq_ignore_ascii_case};
use crate::model::node::{
    opt_str_v, url_from_text, nodes_v, lemma_nodes_v, Bookmark, BookmarkFlags, BookmarkUrl, BookmarkV, Folder, FolderV, Node,
    NodeV, NodeId, Separator,
};
use crate::model::attrs::{attr_entries, attr_map_new, attr_map_insert, AttrMap};
use crate::model::ids::{DocumentId, NodeIdAllocator};
use crate::model::document::{Document, DocumentStats, HeaderMetadata, LineEnding};
use crate::error::CoreError;
use crate::parser::stamp::parse_timestamp;
use crate::model::attrs::entries_insert;
use crate::parser::stamp::timestamp_v;
use crate::sanitize::treatments::text::{trim_ws_v, trim_whitespace};
use crate::model::settled::{canon_url, lemma_concat_settled, lemma_push_settled, nodes_settled};
use crate::model::numbering::{
    fresh_in, forest_ids, lemma_distinct_ids_unique, lemma_forest_concat, lemma_forest_cons, lemma_fresh_join,
    lemma_fresh_one, node_ids, tree_ids,
};

verus! {

broadcast use lemma_doms_v;

// ---------------------------------------------------------------------------
// Reading one node
// ---------------------------------------------------------------------------

/// The lowercase tag of an element node.
pub open spec fn tag_v(n: DomV) -> Option<Seq<char>> {
    match n.data {
        DomDataV::Element { tag, .. } => Some(lower_v(tag)),
        _ => None,
    }
}

/// `n` is an element with tag `t` (compared in lowercase).
pub open spec fn has_tag(n: DomV, t: Seq<char>) -> bool {
    tag_v(n) == Some(t)
}

/// The attributes of an element, names in lowercase, in source order.
pub open spec fn attrs_v(n: DomV) -> Seq<(Seq<char>, Seq<char>)> {
    match n.data {
        DomDataV::Element { attrs, .. } => attrs.map_values(|p: (Seq<char>, Seq<char>)| (lower_v(p.0), p.1)),
        _ => Seq::empty(),
    }
}

/// The value of the first attribute named `name`.
pub open spec fn attr_v(attrs: Seq<(Seq<char>, Seq<char>)>, name: Seq<char>) -> Option<Seq<char>>
    decreases attrs.len(),
{
    if attrs.len() == 0 {
        None
    } else if attrs[0].0 == name {
        Some(attrs[0].1)
    } else {
        attr_v(attrs.subrange(1, attrs.len() as int), name)
    }
}

/// The text of `n`: a text node's contents, or the text below it in
/// document order.
pub open spec fn text_v(n: DomV) -> Seq<char>
    decreases n,
{
    match n.data {
        DomDataV::Text(t) => t,
        _ => texts_v(n.children),
    }
}

/// The text below the nodes `ns`, one after the other.
pub open spec fn texts_v(ns: Seq<DomV>) -> Seq<char>
    decreases ns,
{
    if ns.len() == 0 {
        Seq::empty()
    } else {
        texts_v(ns.subrange(0, ns.len() - 1)) + text_v(ns[ns.len() - 1])
    }
}

/// Whether `n` is an element with tag `t`.
pub fn tag_is(n: &DomNode, t: &str) -> (r: bool)
    ensures
        r == has_tag(n@, t@),
{
    match &n.data {
        DomData::Element { tag, .. } => {
            let l = ascii_lowercase(tag.as_str());
            same_text(l.as_str(), t)
        },
        _ => false,
    }
}

/// The attributes of `n` with lowercase names.
pub fn element_attrs(n: &DomNode) -> (r: Vec<(String, String)>)
    ensures
        attr_pairs_v(r@) == attrs_v(n@),
{
    let mut out: Vec<(String, String)> = Vec::new();
    match &n.data {
        DomData::Element { attrs, .. } => {
            let ghost src = attr_pairs_v(attrs@);
            let mut i: usize = 0;
            while i < attrs.len()
                invariant
                    i <= attrs.len(),
                    src == attr_pairs_v(attrs@),
                    n@.data == (DomDataV::Element { tag: n@.data->tag, attrs: src }),
                    attr_pairs_v(out@) =~= src.take(i as int).map_values(
                        |p: (Seq<char>, Seq<char>)| (lower_v(p.0), p.1),
                    ),
                decreases attrs.len() - i,
            {
                let name = ascii_lowercase(attrs[i].0.as_str());
                let value = attrs[i].1.clone();
                let ghost before = out@;
                out.push((name, value));
                proof {
                    assert(src[i as int] == (attrs@[i as int].0@, attrs@[i as int].1@));
                    assert(attr_pairs_v(out@) =~= attr_pairs_v(before).push((lower_v(src[i as int].0), src[i as int].1)));
                    assert(src.take(i + 1) =~= src.take(i as int).push(src[i as int]));
                }
                i += 1;
            }
            proof {
                assert(src.take(attrs.len() as int) =~= src);
            }
        },
        _ => {
            proof {
                assert(attr_pairs_v(out@) =~= Seq::<(Seq<char>, Seq<char>)>::empty());
            }
        },
    }
    out
}

/// The value of the first attribute named `name`.
pub fn attr_value(attrs: &Vec<(String, String)>, name: &str) -> (r: Option<String>)
    ensures
        match r {
            Some(v) => attr_v(attr_pairs_v(attrs@), name@) == Some(v@),
            None => attr_v(attr_pairs_v(attrs@), name@) is None,
        },
{
    let ghost all = attr_pairs_v(attrs@);
    let mut i: usize = 0;
    proof {
        assert(all.subrange(0, all.len() as int) =~= all);
    }
    while i < attrs.len()
        invariant
            i <= attrs.len(),
            all == attr_pairs_v(attrs@),
            attr_v(all, name@) == attr_v(all.subrange(i as int, all.len() as int), name@),
        decreases attrs.len() - i,
    {
        proof {
            assert(all.subrange(i as int, all.len() as int).subrange(1, all.len() - i) =~= all.subrange(
                i + 1,
                all.len() as int,
            ));
        }
        if same_text(attrs[i].0.as_str(), name) {
            return Some(attrs[i].1.clone());
        }
        i += 1;
    }
    None
}

/// Append the text below `n` to `out`.
fn collect_text(n: &DomNode, out: &mut Vec<char>)
    ensures
        final(out)@ == old(out)@ + text_v(n@),
    decreases n@,
{
    match &n.data {
        DomData::Text(t) => {
            let cs = chars_of(t.as_str());
            let mut i: usize = 0;
            let ghost o = out@;
            while i < cs.len()
                invariant
                    i <= cs.len(),
                    out@ == o + cs@.take(i as int),
                decreases cs.len() - i,
            {
                proof {
                    assert(cs@.take(i + 1) =~= cs@.take(i as int).push(cs@[i as int]));
                }
                out.push(cs[i]);
                i += 1;
            }
            proof {
                assert(cs@.take(cs.len() as int) =~= cs@);
            }
        },
        _ => {
            let ghost o = out@;
            let ghost ch = n@.children;
            proof {
                assert(ch == doms_v(n.children@));
            }
            let mut i: usize = 0;
            while i < n.children.len()
                invariant
                    i <= n.children.len(),
                    ch == n@.children,
                    ch.len() == n.children.len(),
                    out@ == o + texts_v(ch.subrange(0, i as int)),
                decreases n.children.len() - i,
            {
                proof {
                    assert(ch.subrange(0, i + 1).subrange(0, i as int) =~= ch.subrange(0, i as int));
                    lemma_doms_v(n.children@);
                    assert(ch[i as int] == n.children@[i as int]@);
                    assert(decreases_to!(n@ => n@.children));
                    assert(decreases_to!(n@.children => n@.children[i as int]));
                }
                collect_text(&n.children[i], out);
                proof {
                    assert(ch.subrange(0, i + 1)[i as int] == ch[i as int]);
                }
                i += 1;
            }
            proof {
                assert(ch.subrange(0, ch.len() as int) =~= ch);
            }
        },
    }
}

/// The text below `n`, in document order.
pub fn text_content(n: &DomNode) -> (r: String)
    ensures
        r@ == text_v(n@),
{
    let mut out: Vec<char> = Vec::new();
    collect_text(n, &mut out);
    proof {
        assert(out@ =~= text_v(n@));
    }
    string_of(out.as_slice())
}

// ---------------------------------------------------------------------------
// Searching the tree
// ---------------------------------------------------------------------------

/// The first element with tag `t` among `ns` and their descendants, in
/// document order.
pub open spec fn find_v(ns: Seq<DomV>, t: Seq<char>) -> Option<DomV>
    decreases ns,
{
    if ns.len() == 0 {
        None
    } else if has_tag(ns[0], t) {
        Some(ns[0])
    } else {
        match find_v(ns[0].children, t) {
            Some(d) => Some(d),
            None => find_v(ns.subrange(1, ns.len() as int), t),
        }
    }
}

/// The first element with tag `t` among `ns` and their descendants.
pub fn find_element<'a>(ns: &'a Vec<DomNode>, t: &str) -> (r: Option<&'a DomNode>)
    ensures
        match r {
            Some(d) => find_v(doms_v(ns@), t@) == Some(d@),
            None => find_v(doms_v(ns@), t@) is None,
        },
    decreases doms_v(ns@),
{
    let ghost all = doms_v(ns@);
    let mut i: usize = 0;
    proof {
        assert(all.subrange(0, all.len() as int) =~= all);
    }
    while i < ns.len()
        invariant
            i <= ns.len(),
            all == doms_v(ns@),
            all.len() == ns.len(),
            find_v(all, t@) == find_v(all.subrange(i as int, all.len() as int), t@),
        decreases ns.len() - i,
    {
        let ghost rest = all.subrange(i as int, all.len() as int);
        proof {
            lemma_doms_v(ns@);
            assert(rest[0] == ns@[i as int]@);
            assert(rest.subrange(1, rest.len() as int) =~= all.subrange(i + 1, all.len() as int));
        }
        let c = &ns[i];
        if tag_is(c, t) {
            return Some(c);
        }
        proof {
            assert(c@.children == doms_v(c.children@));
            assert(decreases_to!(all => all[i as int]));
            assert(decreases_to!(all[i as int] => all[i as int].children));
        }
        match find_element(&c.children, t) {
            Some(d) => {
                return Some(d);
            },
            None => {},
        }
        i += 1;
    }
    None
}

// ---------------------------------------------------------------------------
// Header
// ---------------------------------------------------------------------------

/// The first position at or after `from` where `pat` occurs in `s`.
pub open spec fn occ_v(s: Seq<char>, pat: Seq<char>, from: int) -> Option<int>
    decreases s.len() + 1 - from,
{
    if from < 0 || from + pat.len() > s.len() {
        None
    } else if s.subrange(from, from + pat.len()) == pat {
        Some(from)
    } else {
        occ_v(s, pat, from + 1)
    }
}

proof fn lemma_occ_bounds(s: Seq<char>, pat: Seq<char>, from: int)
    ensures
        occ_v(s, pat, from) matches Some(i) ==> from <= i && i + pat.len() <= s.len()
            && s.subrange(i, i + pat.len()) == pat,
    decreases s.len() + 1 - from,
{
    if from >= 0 && from + pat.len() <= s.len() && s.subrange(from, from + pat.len()) != pat {
        lemma_occ_bounds(s, pat, from + 1);
    }
}

/// The piece of a `content` attribute after its first `charset=` and
/// before the next one (`content.split("charset=").nth(1)`).
pub open spec fn charset_piece(c: Seq<char>) -> Option<Seq<char>> {
    let pat = "charset="@;
    match occ_v(c, pat, 0) {
        None => None,
        Some(i) => {
            let start = i + pat.len();
            match occ_v(c, pat, start) {
                Some(j) => Some(c.subrange(start, j)),
                None => Some(c.subrange(start, c.len() as int)),
            }
        },
    }
}

/// What one node contributes to the header (charset, title): a
/// `Content-Type` `<meta>` sets the charset, a non-blank `<title>` the title.
pub open spec fn visit_v(n: DomV, acc: (Option<Seq<char>>, Option<Seq<char>>)) -> (
    Option<Seq<char>>,
    Option<Seq<char>>,
) {
    if has_tag(n, "meta"@) {
        let a = attrs_v(n);
        match (attr_v(a, "http-equiv"@), attr_v(a, "content"@)) {
            (Some(v), Some(c)) => if eq_ic(v, "content-type"@) {
                match charset_piece(c) {
                    Some(p) => (Some(trim_ws_v(p)), acc.1),
                    None => acc,
                }
            } else {
                acc
            },
            _ => acc,
        }
    } else if has_tag(n, "title"@) {
        let t = trim_ws_v(text_v(n));
        if t.len() > 0 {
            (acc.0, Some(t))
        } else {
            acc
        }
    } else {
        acc
    }
}

/// The header after visiting `n` and everything below it in document order.
pub open spec fn scan_v(n: DomV, acc: (Option<Seq<char>>, Option<Seq<char>>)) -> (
    Option<Seq<char>>,
    Option<Seq<char>>,
)
    decreases n,
{
    scans_v(n.children, visit_v(n, acc))
}

/// The header after visiting each of `ns` in turn.
pub open spec fn scans_v(ns: Seq<DomV>, acc: (Option<Seq<char>>, Option<Seq<char>>)) -> (
    Option<Seq<char>>,
    Option<Seq<char>>,
)
    decreases ns,
{
    if ns.len() == 0 {
        acc
    } else {
        scans_v(ns.subrange(1, ns.len() as int), scan_v(ns[0], acc))
    }
}

/// Whether `pat` occurs in `cs` at `k`.
fn occurs_at(cs: &Vec<char>, pat: &Vec<char>, k: usize) -> (r: bool)
    requires
        k + pat.len() <= cs.len(),
    ensures
        r == (cs@.subrange(k as int, k + pat.len()) == pat@),
{
    let mut j: usize = 0;
    while j < pat.len()
        invariant
            j <= pat.len(),
            k + pat.len() <= cs.len(),
            forall|m: int| 0 <= m < j ==> cs@[k + m] == pat@[m],
        decreases pat.len() - j,
    {
        if cs[k + j] != pat[j] {
            proof {
                assert(cs@.subrange(k as int, k + pat.len())[j as int] != pat@[j as int]);
            }
            return false;
        }
        j += 1;
    }
    proof {
        assert(cs@.subrange(k as int, k + pat.len()) =~= pat@);
    }
    true
}

/// The first position at or after `from` where `pat` occurs in `cs`.
fn find_from(cs: &Vec<char>, pat: &Vec<char>, from: usize) -> (r: Option<usize>)
    ensures
        match r {
            Some(j) => occ_v(cs@, pat@, from as int) == Some(j as int),
            None => occ_v(cs@, pat@, from as int) is None,
        },
{
    if pat.len() == 0 {
        return if from <= cs.len() {
            proof {
                assert(cs@.subrange(from as int, from as int) =~= pat@);
            }
            Some(from)
        } else {
            None
        };
    }
    let mut k: usize = from;
    while k < cs.len() && pat.len() <= cs.len() - k
        invariant
            from <= k,
            pat.len() > 0,
            occ_v(cs@, pat@, from as int) == occ_v(cs@, pat@, k as int),
        decreases cs.len() + 1 - k,
    {
        if occurs_at(cs, pat, k) {
            return Some(k);
        }
        k += 1;
    }
    None
}

/// The charset piece of a `content` attribute value.
fn charset_of(c: &str) -> (r: Option<String>)
    ensures
        opt_str_v(r) == charset_piece(c@),
{
    let cs = chars_of(c);
    let pat = chars_of("charset=");
    match find_from(&cs, &pat, 0) {
        None => None,
        Some(i) => {
            proof {
                lemma_occ_bounds(cs@, pat@, 0);
                assert(occ_v(cs@, pat@, 0) == Some(i as int));
                assert(i + pat@.len() <= cs@.len());
                assert(pat@.len() == pat.len());
                assert(cs@.len() == cs.len());
            }
            let start = i + pat.len();
            let end = match find_from(&cs, &pat, start) {
                Some(j) => j,
                None => cs.len(),
            };
            proof {
                lemma_occ_bounds(cs@, pat@, start as int);
            }
            let mut piece: Vec<char> = Vec::new();
            let mut k: usize = start;
            while k < end
                invariant
                    start <= k <= end <= cs.len(),
                    piece@ == cs@.subrange(start as int, k as int),
                decreases end - k,
            {
                piece.push(cs[k]);
                proof {
                    assert(cs@.subrange(start as int, k + 1) =~= cs@.subrange(start as int, k as int).push(cs@[k as int]));
                }
                k += 1;
            }
            Some(string_of(piece.as_slice()))
        },
    }
}

/// Visit one node: update the charset and title it sets.
fn visit(n: &DomNode, charset: &mut Option<String>, title: &mut Option<String>)
    ensures
        (opt_str_v(*final(charset)), opt_str_v(*final(title))) == visit_v(
            n@,
            (opt_str_v(*old(charset)), opt_str_v(*old(title))),
        ),
{
    if tag_is(n, "meta") {
        let a = element_attrs(n);
        match (attr_value(&a, "http-equiv"), attr_value(&a, "content")) {
            (Some(v), Some(c)) => {
                if eq_ignore_ascii_case(v.as_str(), "content-type") {
                    match charset_of(c.as_str()) {
                        Some(p) => {
                            *charset = Some(trim_whitespace(p.as_str()));
                        },
                        None => {},
                    }
                }
            },
            _ => {},
        }
    } else if tag_is(n, "title") {
        let t = trim_whitespace(text_content(n).as_str());
        if !t.as_str().is_empty() {
            *title = Some(t);
        }
    }
}

/// Visit `n` and everything below it in document order.
fn scan(n: &DomNode, charset: &mut Option<String>, title: &mut Option<String>)
    ensures
        (opt_str_v(*final(charset)), opt_str_v(*final(title))) == scan_v(
            n@,
            (opt_str_v(*old(charset)), opt_str_v(*old(title))),
        ),
    decreases n@,
{
    visit(n, charset, title);
    let ghost ch = n@.children;
    let ghost acc0 = (opt_str_v(*charset), opt_str_v(*title));
    proof {
        assert(ch == doms_v(n.children@));
        assert(ch.subrange(0, ch.len() as int) =~= ch);
    }
    let mut i: usize = 0;
    while i < n.children.len()
        invariant
            i <= n.children.len(),
            ch == n@.children,
            ch.len() == n.children.len(),
            scans_v(ch, acc0) == scans_v(ch.subrange(i as int, ch.len() as int), (opt_str_v(*charset), opt_str_v(*title))),
        decreases n.children.len() - i,
    {
        proof {
            lemma_doms_v(n.children@);
            assert(ch[i as int] == n.children@[i as int]@);
            let rest = ch.subrange(i as int, ch.len() as int);
            assert(rest[0] == ch[i as int]);
            assert(rest.subrange(1, rest.len() as int) =~= ch.subrange(i + 1, ch.len() as int));
            assert(decreases_to!(n@ => n@.children));
            assert(decreases_to!(n@.children => n@.children[i as int]));
        }
        scan(&n.children[i], charset, title);
        i += 1;
    }
}

// ---------------------------------------------------------------------------
// The items of a list
// ---------------------------------------------------------------------------

/// The number of nodes in the subtree of `n`.
pub open spec fn size_v(n: DomV) -> nat
    decreases n,
{
    1 + sizes_v(n.children)
}

/// The number of nodes in the subtrees of `ns`.
pub open spec fn sizes_v(ns: Seq<DomV>) -> nat
    decreases ns,
{
    if ns.len() == 0 {
        0
    } else {
        size_v(ns[0]) + sizes_v(ns.subrange(1, ns.len() as int))
    }
}

/// What a list child contributes to the list's items: the children of a
/// `<p>` (which HTML5 parsing wraps around `<DT>`s), the child itself
/// otherwise.
pub open spec fn spread_v(n: DomV) -> Seq<DomV> {
    if has_tag(n, "p"@) {
        n.children
    } else {
        seq![n]
    }
}

/// The items of a list whose children are `ns`.
pub open spec fn flat_v(ns: Seq<DomV>) -> Seq<DomV>
    decreases ns.len(),
{
    if ns.len() == 0 {
        Seq::empty()
    } else {
        flat_v(ns.drop_last()) + spread_v(ns.last())
    }
}

pub proof fn lemma_sizes_concat(a: Seq<DomV>, b: Seq<DomV>)
    ensures
        sizes_v(a + b) == sizes_v(a) + sizes_v(b),
    decreases a.len(),
{
    if a.len() == 0 {
        assert(a + b =~= b);
    } else {
        lemma_sizes_concat(a.subrange(1, a.len() as int), b);
        assert((a + b)[0] == a[0]);
        assert((a + b).subrange(1, (a + b).len() as int) =~= a.subrange(1, a.len() as int) + b);
    }
}

pub proof fn lemma_sizes_one(n: DomV)
    ensures
        sizes_v(seq![n]) == size_v(n),
{
    let s = seq![n];
    assert(s.subrange(1, 1) =~= Seq::<DomV>::empty());
    assert(sizes_v(Seq::<DomV>::empty()) == 0);
    assert(s[0] == n);
    assert(sizes_v(s) == size_v(s[0]) + sizes_v(s.subrange(1, 1)));
}

pub proof fn lemma_flat_sizes(ns: Seq<DomV>)
    ensures
        sizes_v(flat_v(ns)) <= sizes_v(ns),
    decreases ns.len(),
{
    if ns.len() > 0 {
        let d = ns.drop_last();
        let l = ns.last();
        lemma_flat_sizes(d);
        lemma_sizes_concat(flat_v(d), spread_v(l));
        lemma_sizes_concat(d, seq![l]);
        assert(d + seq![l] =~= ns);
        lemma_sizes_one(l);
    }
}

pub proof fn lemma_sizes_elem(ns: Seq<DomV>, k: int)
    requires
        0 <= k < ns.len(),
    ensures
        size_v(ns[k]) <= sizes_v(ns),
    decreases k,
{
    if k > 0 {
        let r = ns.subrange(1, ns.len() as int);
        lemma_sizes_elem(r, k - 1);
        assert(r[k - 1] == ns[k]);
    }
}

pub proof fn lemma_sizes_step(ns: Seq<DomV>, i: int)
    requires
        0 <= i < ns.len(),
    ensures
        sizes_v(ns.subrange(i, ns.len() as int)) == size_v(ns[i]) + sizes_v(ns.subrange(i + 1, ns.len() as int)),
{
    let r = ns.subrange(i, ns.len() as int);
    assert(r[0] == ns[i]);
    assert(r.subrange(1, r.len() as int) =~= ns.subrange(i + 1, ns.len() as int));
}

/// The first index in `from..end` whose node has tag `t`.
pub open spec fn index_v(ns: Seq<DomV>, t: Seq<char>, from: int, end: int) -> Option<int>
    decreases end - from,
{
    if from < 0 || from >= end || from >= ns.len() {
        None
    } else if has_tag(ns[from], t) {
        Some(from)
    } else {
        index_v(ns, t, from + 1, end)
    }
}

pub proof fn lemma_index_bounds(ns: Seq<DomV>, t: Seq<char>, from: int, end: int)
    ensures
        index_v(ns, t, from, end) matches Some(j) ==> from <= j < end && j < ns.len() && 0 <= j && has_tag(
            ns[j],
            t,
        ),
    decreases end - from,
{
    if !(from < 0 || from >= end || from >= ns.len()) && !has_tag(ns[from], t) {
        lemma_index_bounds(ns, t, from + 1, end);
    }
}

/// The first index from `from` on whose node is an `<H3>` or an `<A>`.
pub open spec fn entry_v(ns: Seq<DomV>, from: int) -> Option<int>
    decreases ns.len() - from,
{
    if from < 0 || from >= ns.len() {
        None
    } else if has_tag(ns[from], "h3"@) || has_tag(ns[from], "a"@) {
        Some(from)
    } else {
        entry_v(ns, from + 1)
    }
}

proof fn lemma_entry_bounds(ns: Seq<DomV>, from: int)
    ensures
        entry_v(ns, from) matches Some(j) ==> 0 <= from <= j < ns.len() && (has_tag(ns[j], "h3"@) || has_tag(
            ns[j],
            "a"@,
        )),
    decreases ns.len() - from,
{
    if !(from < 0 || from >= ns.len()) && !(has_tag(ns[from], "h3"@) || has_tag(ns[from], "a"@)) {
        lemma_entry_bounds(ns, from + 1);
    }
}

/// The list that holds a folder's contents: the first `<DL>` inside its
/// `<DT>`, or else the first `<DL>` among the items after it.
pub open spec fn sub_list_v(items: Seq<DomV>, i: int) -> Option<DomV> {
    let kids = items[i].children;
    match index_v(kids, "dl"@, 0, kids.len() as int) {
        Some(c) => Some(kids[c]),
        None => match index_v(items, "dl"@, i + 1, items.len() as int) {
            Some(j) => Some(items[j]),
            None => None,
        },
    }
}

pub proof fn lemma_sub_list_smaller(items: Seq<DomV>, i: int)
    requires
        0 <= i < items.len(),
    ensures
        sub_list_v(items, i) matches Some(d) ==> sizes_v(d.children) < sizes_v(
            items.subrange(i, items.len() as int),
        ),
{
    let kids = items[i].children;
    lemma_sizes_step(items, i);
    lemma_index_bounds(kids, "dl"@, 0, kids.len() as int);
    lemma_index_bounds(items, "dl"@, i + 1, items.len() as int);
    match index_v(kids, "dl"@, 0, kids.len() as int) {
        Some(c) => {
            lemma_sizes_elem(kids, c);
        },
        None => match index_v(items, "dl"@, i + 1, items.len() as int) {
            Some(j) => {
                let rest = items.subrange(i + 1, items.len() as int);
                lemma_sizes_elem(rest, j - i - 1);
                assert(rest[j - i - 1] == items[j]);
            },
            None => {},
        },
    }
}

/// The description of the bookmark in item `i`: the trimmed text of the
/// first `<DD>` among the next three items, when it is not blank.
pub open spec fn desc_v(items: Seq<DomV>, i: int) -> Option<Seq<char>> {
    let end = if i + 4 < items.len() {
        i + 4
    } else {
        items.len() as int
    };
    match index_v(items, "dd"@, i + 1, end) {
        Some(j) => {
            let t = trim_ws_v(text_v(items[j]));
            if t.len() > 0 {
                Some(t)
            } else {
                None
            }
        },
        None => None,
    }
}

/// The attribute map built by inserting `raw` in order.
pub open spec fn built_attrs_v(raw: Seq<(Seq<char>, Seq<char>)>) -> Seq<(Seq<char>, Seq<char>)>
    decreases raw.len(),
{
    if raw.len() == 0 {
        Seq::empty()
    } else {
        entries_insert(built_attrs_v(raw.drop_last()), raw.last().0, raw.last().1)
    }
}

/// A timestamp attribute's value.
pub open spec fn stamp_attr_v(raw: Seq<(Seq<char>, Seq<char>)>, name: Seq<char>) -> Option<i64> {
    match attr_v(raw, name) {
        Some(s) => timestamp_v(s),
        None => None,
    }
}

/// The folder that the heading `h3` names, with `children` and `id`.
pub open spec fn folder_item_v(h3: DomV, children: Seq<NodeV>, id: nat) -> FolderV {
    let raw = attrs_v(h3);
    FolderV {
        id: id as u64,
        name: trim_ws_v(text_v(h3)),
        add_date: stamp_attr_v(raw, "add_date"@),
        last_modified: stamp_attr_v(raw, "last_modified"@),
        is_toolbar: match attr_v(raw, "personal_toolbar_folder"@) {
            Some(v) => eq_ic(v, "true"@),
            None => false,
        },
        attrs: built_attrs_v(raw),
        children,
    }
}

/// The bookmark that the anchor `a` describes, with `id`.
pub open spec fn bookmark_item_v(a: DomV, desc: Option<Seq<char>>, id: nat) -> BookmarkV {
    let raw = attrs_v(a);
    BookmarkV {
        id: id as u64,
        title: trim_ws_v(text_v(a)),
        url: url_from_text(
            match attr_v(raw, "href"@) {
                Some(h) => h,
                None => Seq::empty(),
            },
        ),
        add_date: stamp_attr_v(raw, "add_date"@),
        last_modified: stamp_attr_v(raw, "last_modified"@),
        icon_blob: match attr_v(raw, "icon"@) {
            Some(s) => if s.len() > 0 {
                Some(s)
            } else {
                None
            },
            None => None,
        },
        description: desc,
        attrs: built_attrs_v(raw),
        is_shortener: false,
    }
}

/// Separators for the `<HR>`s among `ns` (those that HTML5 parsing moves
/// into a bare `<DT><A>`), numbered from `next`.
pub open spec fn rules_v(ns: Seq<DomV>, next: nat) -> (Seq<NodeV>, nat)
    decreases ns.len(),
{
    if ns.len() == 0 {
        (Seq::empty(), next)
    } else if has_tag(ns[0], "hr"@) {
        let r = rules_v(ns.subrange(1, ns.len() as int), next + 1);
        (seq![NodeV::Separator(next as u64)] + r.0, r.1)
    } else {
        rules_v(ns.subrange(1, ns.len() as int), next)
    }
}

/// The nodes that the list items `items[i..]` hold, numbered from `next`
/// in the order the builder hands ids out (a folder after its contents),
/// and the next free id.
pub open spec fn items_v(items: Seq<DomV>, i: int, next: nat) -> (Seq<NodeV>, nat)
    decreases sizes_v(items.subrange(i, items.len() as int)),
{
    if i < 0 || i >= items.len() {
        (Seq::empty(), next)
    } else {
        proof {
            lemma_sizes_step(items, i);
        }
        let n = items[i];
        if has_tag(n, "dt"@) {
            match entry_v(n.children, 0) {
                Some(k) => if has_tag(n.children[k], "h3"@) {
                    let inner = match sub_list_v(items, i) {
                        Some(d) => {
                            proof {
                                lemma_sub_list_smaller(items, i);
                                lemma_flat_sizes(d.children);
                                assert(flat_v(d.children).subrange(0, flat_v(d.children).len() as int)
                                    =~= flat_v(d.children));
                            }
                            items_v(flat_v(d.children), 0, next)
                        },
                        None => (Seq::empty(), next),
                    };
                    let f = NodeV::Folder(folder_item_v(n.children[k], inner.0, inner.1));
                    let rest = items_v(items, i + 1, inner.1 + 1);
                    (seq![f] + rest.0, rest.1)
                } else {
                    let b = NodeV::Bookmark(bookmark_item_v(n.children[k], desc_v(items, i), next));
                    let seps = rules_v(n.children, next + 1);
                    let rest = items_v(items, i + 1, seps.1);
                    (seq![b] + seps.0 + rest.0, rest.1)
                },
                None => items_v(items, i + 1, next),
            }
        } else if has_tag(n, "hr"@) {
            let rest = items_v(items, i + 1, next + 1);
            (seq![NodeV::Separator(next as u64)] + rest.0, rest.1)
        } else {
            items_v(items, i + 1, next)
        }
    }
}

// ---------------------------------------------------------------------------
// Building
// ---------------------------------------------------------------------------

/// The views of the nodes that `s` points to.
pub open spec fn refs_v(s: Seq<&DomNode>) -> Seq<DomV> {
    s.map_values(|r: &DomNode| r@)
}

/// The items of the list `dl`: its children, with those of each `<p>`
/// child in its place.
pub fn list_items<'a>(dl: &'a DomNode) -> (r: Vec<&'a DomNode>)
    ensures
        refs_v(r@) == flat_v(dl@.children),
{
    let ghost ch = dl@.children;
    proof {
        assert(ch == doms_v(dl.children@));
        lemma_doms_v(dl.children@);
    }
    let mut out: Vec<&DomNode> = Vec::new();
    let mut i: usize = 0;
    while i < dl.children.len()
        invariant
            i <= dl.children.len(),
            ch == dl@.children,
            ch.len() == dl.children.len(),
            forall|k: int| 0 <= k < ch.len() ==> #[trigger] ch[k] == dl.children@[k]@,
            refs_v(out@) == flat_v(ch.take(i as int)),
        decreases dl.children.len() - i,
    {
        let c = &dl.children[i];
        let ghost before = out@;
        proof {
            assert(ch.take(i + 1).drop_last() =~= ch.take(i as int));
            assert(ch.take(i + 1).last() == c@);
        }
        if tag_is(c, "p") {
            let mut j: usize = 0;
            proof {
                assert(c@.children == doms_v(c.children@));
                lemma_doms_v(c.children@);
            }
            while j < c.children.len()
                invariant
                    j <= c.children.len(),
                    c@.children == doms_v(c.children@),
                    c@.children.len() == c.children.len(),
                    forall|k: int| 0 <= k < c.children.len() ==> #[trigger] c@.children[k] == c.children@[k]@,
                    refs_v(out@) == refs_v(before) + c@.children.take(j as int),
                decreases c.children.len() - j,
            {
                let ghost prev = out@;
                out.push(&c.children[j]);
                proof {
                    assert(refs_v(out@) =~= refs_v(prev).push(c.children@[j as int]@));
                    assert(c@.children.take(j + 1) =~= c@.children.take(j as int).push(c@.children[j as int]));
                    assert(refs_v(out@) =~= refs_v(before) + c@.children.take(j + 1));
                }
                j += 1;
            }
            proof {
                assert(c@.children.take(c.children.len() as int) =~= c@.children);
            }
        } else {
            out.push(c);
            proof {
                assert(refs_v(out@) =~= refs_v(before) + seq![c@]);
            }
        }
        i += 1;
    }
    proof {
        assert(ch.take(ch.len() as int) =~= ch);
    }
    out
}

/// The first index in `from..end` of `ns` whose node has tag `t`.
fn index_of(ns: &Vec<&DomNode>, t: &str, from: usize, end: usize) -> (r: Option<usize>)
    ensures
        match r {
            Some(j) => index_v(refs_v(ns@), t@, from as int, end as int) == Some(j as int),
            None => index_v(refs_v(ns@), t@, from as int, end as int) is None,
        },
{
    let mut k: usize = from;
    while k < end && k < ns.len()
        invariant
            from <= k,
            index_v(refs_v(ns@), t@, from as int, end as int) == index_v(refs_v(ns@), t@, k as int, end as int),
        decreases ns.len() - k,
    {
        if tag_is(ns[k], t) {
            return Some(k);
        }
        k += 1;
    }
    None
}

/// The first index of a child of `n` whose tag is `t`.
fn child_index(n: &DomNode, t: &str) -> (r: Option<usize>)
    ensures
        match r {
            Some(j) => index_v(n@.children, t@, 0, n@.children.len() as int) == Some(j as int),
            None => index_v(n@.children, t@, 0, n@.children.len() as int) is None,
        },
{
    let ghost ch = n@.children;
    proof {
        assert(ch == doms_v(n.children@));
        lemma_doms_v(n.children@);
    }
    let mut k: usize = 0;
    while k < n.children.len()
        invariant
            ch == n@.children,
            ch.len() == n.children.len(),
            index_v(ch, t@, 0, ch.len() as int) == index_v(ch, t@, k as int, ch.len() as int),
        decreases n.children.len() - k,
    {
        proof {
            lemma_doms_v(n.children@);
            assert(ch[k as int] == n.children@[k as int]@);
        }
        if tag_is(&n.children[k], t) {
            return Some(k);
        }
        k += 1;
    }
    None
}

/// The first index of a child of `n` that is an `<H3>` or an `<A>`.
fn entry_index(n: &DomNode) -> (r: Option<usize>)
    ensures
        match r {
            Some(j) => entry_v(n@.children, 0) == Some(j as int),
            None => entry_v(n@.children, 0) is None,
        },
{
    let ghost ch = n@.children;
    proof {
        assert(ch == doms_v(n.children@));
        lemma_doms_v(n.children@);
    }
    let mut k: usize = 0;
    while k < n.children.len()
        invariant
            ch == n@.children,
            ch.len() == n.children.len(),
            entry_v(ch, 0) == entry_v(ch, k as int),
        decreases n.children.len() - k,
    {
        proof {
            lemma_doms_v(n.children@);
            assert(ch[k as int] == n.children@[k as int]@);
        }
        if tag_is(&n.children[k], "h3") || tag_is(&n.children[k], "a") {
            return Some(k);
        }
        k += 1;
    }
    None
}

/// The description of the bookmark in item `i`.
fn description(items: &Vec<&DomNode>, i: usize) -> (r: Option<String>)
    requires
        i < items.len(),
    ensures
        opt_str_v(r) == desc_v(refs_v(items@), i as int),
{
    let end = if items.len() - i > 4 {
        i + 4
    } else {
        items.len()
    };
    match index_of(items, "dd", i + 1, end) {
        Some(j) => {
            proof {
                lemma_index_bounds(refs_v(items@), "dd"@, i + 1, end as int);
            }
            let t = trim_whitespace(text_content(items[j]).as_str());
            if t.as_str().is_empty() {
                None
            } else {
                Some(t)
            }
        },
        None => None,
    }
}

/// The attribute map with `raw` inserted in order.
fn build_attrs(raw: &Vec<(String, String)>) -> (r: AttrMap)
    ensures
        attr_entries(r) == built_attrs_v(attr_pairs_v(raw@)),
{
    let ghost all = attr_pairs_v(raw@);
    let mut m = attr_map_new();
    let mut i: usize = 0;
    while i < raw.len()
        invariant
            i <= raw.len(),
            all == attr_pairs_v(raw@),
            attr_entries(m) == built_attrs_v(all.take(i as int)),
        decreases raw.len() - i,
    {
        proof {
            assert(all.take(i + 1).drop_last() =~= all.take(i as int));
            assert(all.take(i + 1).last() == (raw@[i as int].0@, raw@[i as int].1@));
        }
        attr_map_insert(&mut m, raw[i].0.clone(), raw[i].1.clone());
        i += 1;
    }
    proof {
        assert(all.take(raw.len() as int) =~= all);
    }
    m
}

/// The timestamp in attribute `name`.
fn stamp_attr(raw: &Vec<(String, String)>, name: &str) -> (r: Option<i64>)
    ensures
        r == stamp_attr_v(attr_pairs_v(raw@), name@),
{
    match attr_value(raw, name) {
        Some(s) => parse_timestamp(s.as_str()),
        None => None,
    }
}

/// The folder that heading `h3` names.
fn folder_item(h3: &DomNode, children: Vec<Node>, id: NodeId) -> (r: Folder)
    ensures
        r@ == folder_item_v(h3@, nodes_v(children@), id as nat),
{
    let raw = element_attrs(h3);
    let add_date = stamp_attr(&raw, "add_date");
    let last_modified = stamp_attr(&raw, "last_modified");
    let is_toolbar = match attr_value(&raw, "personal_toolbar_folder") {
        Some(v) => eq_ignore_ascii_case(v.as_str(), "true"),
        None => false,
    };
    let attrs = build_attrs(&raw);
    let name = trim_whitespace(text_content(h3).as_str());
    Folder { id, name, add_date, last_modified, is_toolbar, attrs, children }
}

/// The bookmark that anchor `a` describes.
fn bookmark_item(a: &DomNode, description: Option<String>, id: NodeId) -> (r: Bookmark)
    ensures
        r@ == bookmark_item_v(a@, opt_str_v(description), id as nat),
        canon_url(r@.url),
{
    let raw = element_attrs(a);
    let href = match attr_value(&raw, "href") {
        Some(h) => h,
        None => String::new(),
    };
    let url = BookmarkUrl::parse(href.as_str());
    let add_date = stamp_attr(&raw, "add_date");
    let last_modified = stamp_attr(&raw, "last_modified");
    let icon_blob = match attr_value(&raw, "icon") {
        Some(s) => if s.as_str().is_empty() {
            None
        } else {
            Some(s)
        },
        None => None,
    };
    let attrs = build_attrs(&raw);
    let title = trim_whitespace(text_content(a).as_str());
    Bookmark { id, title, url, add_date, last_modified, icon_blob, description, attrs, flags: BookmarkFlags::default() }
}

/// The next id, unless the allocator is exhausted.
fn take_id(gen: &mut NodeIdAllocator) -> (r: Option<NodeId>)
    ensures
        match r {
            Some(id) => id == old(gen).next_id() && final(gen).next_id() == old(gen).next_id() + 1,
            None => old(gen).next_id() == u64::MAX && *final(gen) == *old(gen),
        },
{
    if gen.peek() == u64::MAX {
        None
    } else {
        Some(gen.alloc_id())
    }
}

pub proof fn lemma_rules_grow(ns: Seq<DomV>, next: nat)
    ensures
        rules_v(ns, next).1 >= next,
    decreases ns.len(),
{
    if ns.len() > 0 {
        if has_tag(ns[0], "hr"@) {
            lemma_rules_grow(ns.subrange(1, ns.len() as int), next + 1);
        } else {
            lemma_rules_grow(ns.subrange(1, ns.len() as int), next);
        }
    }
}

pub proof fn lemma_items_grow(items: Seq<DomV>, i: int, next: nat)
    ensures
        items_v(items, i, next).1 >= next,
    decreases sizes_v(items.subrange(i, items.len() as int)),
{
    if 0 <= i < items.len() {
        lemma_sizes_step(items, i);
        let n = items[i];
        if has_tag(n, "dt"@) {
            match entry_v(n.children, 0) {
                Some(k) => if has_tag(n.children[k], "h3"@) {
                    let inner = match sub_list_v(items, i) {
                        Some(d) => {
                            lemma_sub_list_smaller(items, i);
                            lemma_flat_sizes(d.children);
                            assert(flat_v(d.children).subrange(0, flat_v(d.children).len() as int) =~= flat_v(
                                d.children,
                            ));
                            lemma_items_grow(flat_v(d.children), 0, next);
                            items_v(flat_v(d.children), 0, next)
                        },
                        None => (Seq::empty(), next),
                    };
                    lemma_items_grow(items, i + 1, inner.1 + 1);
                } else {
                    lemma_rules_grow(n.children, next + 1);
                    lemma_items_grow(items, i + 1, rules_v(n.children, next + 1).1);
                },
                None => {
                    lemma_items_grow(items, i + 1, next);
                },
            }
        } else if has_tag(n, "hr"@) {
            lemma_items_grow(items, i + 1, next + 1);
        } else {
            lemma_items_grow(items, i + 1, next);
        }
    }
}

/// The nodes for the rules are separators, which hold no URL.
proof fn lemma_rules_settled(ns: Seq<DomV>, next: nat)
    ensures
        nodes_settled(rules_v(ns, next).0),
    decreases ns.len(),
{
    if ns.len() > 0 {
        let t = ns.subrange(1, ns.len() as int);
        if has_tag(ns[0], "hr"@) {
            lemma_rules_settled(t, next + 1);
            let r = rules_v(t, next + 1);
            let x = NodeV::Separator(next as u64);
            assert(seq![x] + r.0 == r.0.insert(0, x));
            crate::model::settled::lemma_children_settled(r.0, 0, x);
        } else {
            lemma_rules_settled(t, next);
        }
    }
}

/// The separators for the rules among `ns` take their ids, each once, from
/// `next` up to the next free id.
proof fn lemma_rules_numbered(ns: Seq<DomV>, next: nat)
    requires
        rules_v(ns, next).1 <= u64::MAX,
    ensures
        fresh_in(forest_ids(rules_v(ns, next).0), next as int, rules_v(ns, next).1 as int),
    decreases ns.len(),
{
    if ns.len() == 0 {
        assert(forest_ids(Seq::<NodeV>::empty()) =~= Seq::<NodeId>::empty());
    } else {
        let t = ns.subrange(1, ns.len() as int);
        if has_tag(ns[0], "hr"@) {
            let r = rules_v(t, next + 1);
            lemma_rules_grow(t, next + 1);
            lemma_rules_numbered(t, next + 1);
            let x = NodeV::Separator(next as u64);
            lemma_forest_cons(x, r.0);
            lemma_fresh_one(next as u64);
            lemma_fresh_join(node_ids(x), forest_ids(r.0), next as int, next + 1int, next + 1int, r.1 as int, next as int, r.1 as int);
        } else {
            lemma_rules_numbered(t, next);
        }
    }
}

/// The nodes of the list items take their ids, each once, from `next` up
/// to the next free id.
proof fn lemma_items_numbered(items: Seq<DomV>, i: int, next: nat)
    requires
        items_v(items, i, next).1 <= u64::MAX,
    ensures
        fresh_in(forest_ids(items_v(items, i, next).0), next as int, items_v(items, i, next).1 as int),
    decreases sizes_v(items.subrange(i, items.len() as int)),
{
    if 0 <= i < items.len() {
        lemma_sizes_step(items, i);
        let n = items[i];
        if has_tag(n, "dt"@) {
            match entry_v(n.children, 0) {
                Some(k) => if has_tag(n.children[k], "h3"@) {
                    let inner = match sub_list_v(items, i) {
                        Some(d) => {
                            lemma_sub_list_smaller(items, i);
                            lemma_flat_sizes(d.children);
                            assert(flat_v(d.children).subrange(0, flat_v(d.children).len() as int) =~= flat_v(
                                d.children,
                            ));
                            lemma_items_grow(flat_v(d.children), 0, next);
                            let inn = items_v(flat_v(d.children), 0, next);
                            lemma_items_grow(items, i + 1, inn.1 + 1);
                            lemma_items_numbered(flat_v(d.children), 0, next);
                            inn
                        },
                        None => {
                            assert(forest_ids(Seq::<NodeV>::empty()) =~= Seq::<NodeId>::empty());
                            (Seq::empty(), next)
                        },
                    };
                    let rest = items_v(items, i + 1, inner.1 + 1);
                    lemma_items_grow(items, i + 1, inner.1 + 1);
                    lemma_items_numbered(items, i + 1, inner.1 + 1);
                    let x = NodeV::Folder(folder_item_v(n.children[k], inner.0, inner.1));
                    lemma_fresh_one(inner.1 as u64);
                    lemma_fresh_join(seq![inner.1 as u64], forest_ids(inner.0), inner.1 as int, inner.1 + 1int, next as int, inner.1 as int, next as int, inner.1 + 1int);
                    assert(node_ids(x) == seq![inner.1 as u64] + forest_ids(inner.0));
                    lemma_forest_cons(x, rest.0);
                    lemma_fresh_join(node_ids(x), forest_ids(rest.0), next as int, inner.1 + 1int, inner.1 + 1int, rest.1 as int, next as int, rest.1 as int);
                } else {
                    let seps = rules_v(n.children, next + 1);
                    let rest = items_v(items, i + 1, seps.1);
                    lemma_rules_grow(n.children, next + 1);
                    lemma_items_grow(items, i + 1, seps.1);
                    lemma_rules_numbered(n.children, next + 1);
                    lemma_items_numbered(items, i + 1, seps.1);
                    let x = NodeV::Bookmark(bookmark_item_v(n.children[k], desc_v(items, i), next));
                    lemma_forest_cons(x, seps.0);
                    lemma_fresh_one(next as u64);
                    lemma_fresh_join(node_ids(x), forest_ids(seps.0), next as int, next + 1int, next + 1int, seps.1 as int, next as int, seps.1 as int);
                    lemma_forest_concat(seq![x] + seps.0, rest.0);
                    lemma_fresh_join(forest_ids(seq![x] + seps.0), forest_ids(rest.0), next as int, seps.1 as int, seps.1 as int, rest.1 as int, next as int, rest.1 as int);
                },
                None => {
                    lemma_items_numbered(items, i + 1, next);
                },
            }
        } else if has_tag(n, "hr"@) {
            let rest = items_v(items, i + 1, next + 1);
            lemma_items_grow(items, i + 1, next + 1);
            lemma_items_numbered(items, i + 1, next + 1);
            let x = NodeV::Separator(next as u64);
            lemma_forest_cons(x, rest.0);
            lemma_fresh_one(next as u64);
            lemma_fresh_join(node_ids(x), forest_ids(rest.0), next as int, next + 1int, next + 1int, rest.1 as int, next as int, rest.1 as int);
        } else {
            lemma_items_numbered(items, i + 1, next);
        }
    } else {
        assert(forest_ids(Seq::<NodeV>::empty()) =~= Seq::<NodeId>::empty());
    }
}

/// A list item `<DT>` whose entry is an anchor `<A>` becomes, first, a
/// bookmark with the next id, the URL that its `HREF` gives, and as favicon
/// its `ICON` attribute when that is present and not empty (no favicon
/// otherwise).
pub proof fn anchor_item_keeps_its_icon(items: Seq<DomV>, i: int, next: nat)
    requires
        0 <= i < items.len(),
        has_tag(items[i], "dt"@),
        entry_v(items[i].children, 0) matches Some(k) && !has_tag(items[i].children[k], "h3"@),
    ensures
        ({
            let a = items[i].children[entry_v(items[i].children, 0)->0];
            let out = items_v(items, i, next).0;
            &&& out.len() > 0
            &&& out[0] matches NodeV::Bookmark(b) && {
                &&& b.id == next as u64
                &&& b.url == url_from_text(
                    match attr_v(attrs_v(a), "href"@) {
                        Some(h) => h,
                        None => Seq::empty(),
                    },
                )
                &&& b.icon_blob == (match attr_v(attrs_v(a), "icon"@) {
                    Some(v) => if v.len() > 0 {
                        Some(v)
                    } else {
                        None
                    },
                    None => None,
                })
            }
        }),
{
    lemma_sizes_step(items, i);
    let k = entry_v(items[i].children, 0)->0;
    let b = NodeV::Bookmark(bookmark_item_v(items[i].children[k], desc_v(items, i), next));
    let seps = rules_v(items[i].children, next + 1);
    let rest = items_v(items, i + 1, seps.1);
    assert(items_v(items, i, next).0 == seq![b] + seps.0 + rest.0);
    assert((seq![b] + seps.0 + rest.0)[0] == b);
}

/// The list that holds the contents of the folder in item `i`.
fn sub_list<'a>(items: &Vec<&'a DomNode>, i: usize) -> (r: Option<&'a DomNode>)
    requires
        i < items.len(),
    ensures
        match r {
            Some(d) => sub_list_v(refs_v(items@), i as int) == Some(d@),
            None => sub_list_v(refs_v(items@), i as int) is None,
        },
{
    let n: &'a DomNode = items[i];
    proof {
        assert(refs_v(items@)[i as int] == n@);
    }
    match child_index(n, "dl") {
        Some(c) => {
            proof {
                lemma_index_bounds(n@.children, "dl"@, 0, n@.children.len() as int);
                assert(n@.children == doms_v(n.children@));
                lemma_doms_v(n.children@);
            }
            Some(&n.children[c])
        },
        None => match index_of(items, "dl", i + 1, items.len()) {
            Some(j) => {
                proof {
                    lemma_index_bounds(refs_v(items@), "dl"@, i + 1, items.len() as int);
                }
                Some(items[j])
            },
            None => None,
        },
    }
}

/// Push the separators for the `<HR>`s among the children of `n`.
fn push_rules(n: &DomNode, out: &mut Vec<Node>, gen: &mut NodeIdAllocator) -> (ok: bool)
    ensures
        ({
            let t = rules_v(n@.children, old(gen).next_id() as nat);
            if ok {
                nodes_v(final(out)@) == nodes_v(old(out)@) + t.0 && final(gen).next_id() == t.1
            } else {
                t.1 > u64::MAX
            }
        }),
{
    let ghost ch = n@.children;
    let ghost s0 = gen.next_id() as nat;
    let ghost base = nodes_v(out@);
    proof {
        assert(ch == doms_v(n.children@));
        assert(ch.subrange(0, ch.len() as int) =~= ch);
        lemma_nodes_v(out@);
    }
    let mut j: usize = 0;
    while j < n.children.len()
        invariant
            j <= n.children.len(),
            ch == n@.children,
            ch == doms_v(n.children@),
            ch.len() == n.children.len(),
            s0 == old(gen).next_id() as nat,
            base == nodes_v(old(out)@),
            nodes_v(out@) + rules_v(ch.subrange(j as int, ch.len() as int), gen.next_id() as nat).0 == base
                + rules_v(ch, s0).0,
            rules_v(ch.subrange(j as int, ch.len() as int), gen.next_id() as nat).1 == rules_v(ch, s0).1,
        decreases n.children.len() - j,
    {
        let ghost rest = ch.subrange(j as int, ch.len() as int);
        let ghost cur = gen.next_id() as nat;
        proof {
            lemma_doms_v(n.children@);
            assert(rest[0] == n.children@[j as int]@);
            assert(rest.subrange(1, rest.len() as int) =~= ch.subrange(j + 1, ch.len() as int));
        }
        if tag_is(&n.children[j], "hr") {
            match take_id(gen) {
                Some(id) => {
                    let ghost prev = out@;
                    out.push(Node::Separator(Separator { id }));
                    proof {
                        lemma_nodes_v(prev);
                        lemma_nodes_v(out@);
                        assert(nodes_v(out@) =~= nodes_v(prev).push(NodeV::Separator(id)));
                        let r1 = rules_v(ch.subrange(j + 1, ch.len() as int), cur + 1);
                        assert(rules_v(rest, cur).0 == seq![NodeV::Separator(cur as u64)] + r1.0);
                        assert(nodes_v(out@) + r1.0 =~= nodes_v(prev) + (seq![NodeV::Separator(cur as u64)] + r1.0));
                    }
                },
                None => {
                    proof {
                        lemma_rules_grow(ch.subrange(j + 1, ch.len() as int), cur + 1);
                        assert(rules_v(rest, cur).1 == rules_v(ch.subrange(j + 1, ch.len() as int), cur + 1).1);
                        assert(cur == u64::MAX);
                        assert(rules_v(ch, s0).1 > u64::MAX);
                    }
                    return false;
                },
            }
        }
        j += 1;
    }
    proof {
        assert(ch.subrange(ch.len() as int, ch.len() as int) =~= Seq::<DomV>::empty());
        assert(nodes_v(out@) + Seq::<NodeV>::empty() =~= nodes_v(out@));
    }
    true
}

/// The nodes that the list items `items` hold, numbered by `gen`; `None`
/// when the ids run out.
fn parse_items(items: &Vec<&DomNode>, gen: &mut NodeIdAllocator) -> (r: Option<Vec<Node>>)
    ensures
        ({
            let t = items_v(refs_v(items@), 0, old(gen).next_id() as nat);
            match r {
                Some(v) => nodes_v(v@) == t.0 && final(gen).next_id() == t.1 && nodes_settled(t.0),
                None => t.1 > u64::MAX,
            }
        }),
    decreases sizes_v(refs_v(items@)),
{
    let ghost sib = refs_v(items@);
    let ghost n0 = gen.next_id() as nat;
    let mut out: Vec<Node> = Vec::new();
    let mut i: usize = 0;
    proof {
        assert(sib.subrange(0, sib.len() as int) =~= sib);
        assert(nodes_v(out@) =~= Seq::<NodeV>::empty());
        assert(nodes_settled(nodes_v(out@)));
    }
    while i < items.len()
        invariant
            sib == refs_v(items@),
            sib.len() == items.len(),
            i <= items.len(),
            n0 == old(gen).next_id() as nat,
            items_v(sib, 0, n0).0 == nodes_v(out@) + items_v(sib, i as int, gen.next_id() as nat).0,
            items_v(sib, 0, n0).1 == items_v(sib, i as int, gen.next_id() as nat).1,
            sizes_v(sib.subrange(i as int, sib.len() as int)) <= sizes_v(sib),
            nodes_settled(nodes_v(out@)),
        decreases items.len() - i,
    {
        let n = items[i];
        let ghost cur = gen.next_id() as nat;
        let ghost total = items_v(sib, i as int, cur);
        let ghost prev = nodes_v(out@);
        proof {
            assert(sib[i as int] == n@);
            lemma_sizes_step(sib, i as int);
            lemma_nodes_v(out@);
        }
        if tag_is(n, "dt") {
            match entry_index(n) {
                Some(k) => {
                    proof {
                        lemma_entry_bounds(n@.children, 0);
                        assert(n@.children == doms_v(n.children@));
                        lemma_doms_v(n.children@);
                        assert(n@.children[k as int] == n.children@[k as int]@);
                    }
                    let entry = &n.children[k];
                    if tag_is(entry, "h3") {
                        let kids: Vec<Node> = match sub_list(items, i) {
                            Some(d) => {
                                let li = list_items(d);
                                proof {
                                    lemma_sub_list_smaller(sib, i as int);
                                    lemma_flat_sizes(d@.children);
                                }
                                match parse_items(&li, gen) {
                                    Some(v) => v,
                                    None => {
                                        proof {
                                            let inner = items_v(flat_v(d@.children), 0, cur);
                                            lemma_items_grow(sib, i + 1, inner.1 + 1);
                                        }
                                        return None;
                                    },
                                }
                            },
                            None => Vec::new(),
                        };
                        proof {
                            lemma_nodes_v(kids@);
                            if kids@.len() == 0 {
                                assert(nodes_v(kids@) =~= Seq::<NodeV>::empty());
                            }
                        }
                        let ghost inner_next = gen.next_id() as nat;
                        match take_id(gen) {
                            Some(id) => {
                                let f = folder_item(entry, kids, id);
                                out.push(Node::Folder(f));
                                proof {
                                    lemma_nodes_v(out@);
                                    let rest = items_v(sib, i + 1, inner_next + 1);
                                    assert(nodes_v(out@) =~= prev.push(NodeV::Folder(folder_item_v(n@.children[k as int], nodes_v(kids@), inner_next))));
                                    lemma_push_settled(prev, NodeV::Folder(folder_item_v(n@.children[k as int], nodes_v(kids@), inner_next)));
                                    assert(total.0 == seq![NodeV::Folder(folder_item_v(n@.children[k as int], nodes_v(kids@), inner_next))] + rest.0);
                                    assert(prev + total.0 =~= nodes_v(out@) + rest.0);
                                }
                            },
                            None => {
                                proof {
                                    lemma_items_grow(sib, i + 1, inner_next + 1);
                                }
                                return None;
                            },
                        }
                    } else {
                        let desc = description(items, i);
                        match take_id(gen) {
                            Some(id) => {
                                let b = bookmark_item(entry, desc, id);
                                out.push(Node::Bookmark(b));
                                let ghost with_b = nodes_v(out@);
                                proof {
                                    lemma_nodes_v(out@);
                                    assert(with_b =~= prev.push(NodeV::Bookmark(bookmark_item_v(n@.children[k as int], desc_v(sib, i as int), cur))));
                                    lemma_push_settled(prev, NodeV::Bookmark(bookmark_item_v(n@.children[k as int], desc_v(sib, i as int), cur)));
                                }
                                if !push_rules(n, &mut out, gen) {
                                    proof {
                                        lemma_items_grow(sib, i + 1, rules_v(n@.children, cur + 1).1);
                                    }
                                    return None;
                                }
                                proof {
                                    let seps = rules_v(n@.children, cur + 1);
                                    lemma_rules_settled(n@.children, cur + 1);
                                    lemma_concat_settled(with_b, seps.0);
                                    let rest = items_v(sib, i + 1, seps.1);
                                    assert(total.0 == seq![NodeV::Bookmark(bookmark_item_v(n@.children[k as int], desc_v(sib, i as int), cur))] + seps.0 + rest.0);
                                    assert(prev + total.0 =~= nodes_v(out@) + rest.0);
                                }
                            },
                            None => {
                                proof {
                                    lemma_rules_grow(n@.children, cur + 1);
                                    lemma_items_grow(sib, i + 1, rules_v(n@.children, cur + 1).1);
                                }
                                return None;
                            },
                        }
                    }
                },
                None => {},
            }
        } else if tag_is(n, "hr") {
            match take_id(gen) {
                Some(id) => {
                    out.push(Node::Separator(Separator { id }));
                    proof {
                        lemma_nodes_v(out@);
                        let rest = items_v(sib, i + 1, cur + 1);
                        assert(nodes_v(out@) =~= prev.push(NodeV::Separator(cur as u64)));
                        lemma_push_settled(prev, NodeV::Separator(cur as u64));
                        assert(prev + total.0 =~= nodes_v(out@) + rest.0);
                    }
                },
                None => {
                    proof {
                        lemma_items_grow(sib, i + 1, cur + 1);
                    }
                    return None;
                },
            }
        }
        i += 1;
    }
    proof {
        assert(items_v(sib, i as int, gen.next_id() as nat).0 =~= Seq::<NodeV>::empty());
        assert(nodes_v(out@) + Seq::<NodeV>::empty() =~= nodes_v(out@));
    }
    Some(out)
}

// ---------------------------------------------------------------------------
// The document
// ---------------------------------------------------------------------------

/// The header fields (charset, title) that the tree below `dom` sets.
pub open spec fn header_fields_v(dom: DomV) -> (Option<Seq<char>>, Option<Seq<char>>) {
    scan_v(dom, (None, None))
}

/// The bookmark list of a document tree: its first `<DL>`.
pub open spec fn root_list_v(dom: DomV) -> Option<DomV> {
    find_v(dom.children, "dl"@)
}

/// The top-level nodes of the list `d`, numbered from 1, and the next id.
pub open spec fn top_items_v(d: DomV) -> (Seq<NodeV>, nat) {
    items_v(flat_v(d.children), 0, 1)
}

/// The synthetic root folder (id `id`) that wraps the top-level nodes.
pub open spec fn root_folder_v(children: Seq<NodeV>, id: nat) -> FolderV {
    FolderV {
        id: id as u64,
        name: Seq::empty(),
        add_date: None,
        last_modified: None,
        is_toolbar: false,
        attrs: Seq::empty(),
        children,
    }
}

/// `e` is a parse failure at line 0, column 0 with `reason`.
pub open spec fn failed_with(e: CoreError, reason: Seq<char>) -> bool {
    e matches CoreError::ParseFailed { line, column, reason: m } && line == 0 && column == 0 && m@ == reason
}

/// `r` is what building a document (id `id`) from the tree `dom` gives:
/// a parse failure when the tree has no `<DL>` or the ids run out, and
/// otherwise a fresh, clean document whose root wraps the list's nodes.
pub open spec fn built_from(
    r: Result<Document, CoreError>,
    dom: DomV,
    has_bom: bool,
    line_ending: LineEnding,
    id: DocumentId,
) -> bool {
    match root_list_v(dom) {
        None => r matches Err(e) && failed_with(
            e,
            "no root <DL> element found; is this a Netscape bookmark HTML file?"@,
        ),
        Some(d) => {
            let t = top_items_v(d);
            if t.1 < u64::MAX {
                r matches Ok(doc) && {
                    &&& doc.id == id
                    &&& doc.path is None
                    &&& doc.root@ == root_folder_v(t.0, t.1)
                    &&& opt_str_v(doc.header.charset) == header_fields_v(dom).0
                    &&& opt_str_v(doc.header.title) == header_fields_v(dom).1
                    &&& doc.header.has_bom == has_bom
                    &&& doc.header.line_ending == line_ending
                    &&& doc.id_gen.next_id() == t.1 + 1
                    &&& doc.stats.counts(doc.root@)
                    &&& doc.undo_stack.len() == 0
                    &&& doc.redo_stack.len() == 0
                    &&& !doc.dirty
                    &&& doc.wf()
                }
            } else {
                r matches Err(e) && failed_with(e, "too many bookmarks to number"@)
            }
        },
    }
}

/// Build the bookmark document (id `id`) that the document tree `dom`
/// describes.
pub fn build_document(dom: &DomNode, has_bom: bool, line_ending: LineEnding, id: DocumentId) -> (r: Result<
    Document,
    CoreError,
>)
    ensures
        built_from(r, dom@, has_bom, line_ending, id),
{
    let mut charset: Option<String> = None;
    let mut title: Option<String> = None;
    scan(dom, &mut charset, &mut title);
    let root_dl = match find_element(&dom.children, "dl") {
        Some(d) => d,
        None => {
            proof {
                assert(dom@.children == doms_v(dom.children@));
            }
            return Err(
                CoreError::ParseFailed {
                    line: 0,
                    column: 0,
                    reason: "no root <DL> element found; is this a Netscape bookmark HTML file?".to_owned(),
                },
            );
        },
    };
    proof {
        assert(dom@.children == doms_v(dom.children@));
    }
    let mut gen = NodeIdAllocator::new();
    let items = list_items(root_dl);
    let children = match parse_items(&items, &mut gen) {
        Some(c) => c,
        None => {
            return Err(
                CoreError::ParseFailed { line: 0, column: 0, reason: "too many bookmarks to number".to_owned() },
            );
        },
    };
    let root_id = match take_id(&mut gen) {
        Some(x) => x,
        None => {
            return Err(
                CoreError::ParseFailed { line: 0, column: 0, reason: "too many bookmarks to number".to_owned() },
            );
        },
    };
    let root = Folder {
        id: root_id,
        name: String::new(),
        add_date: None,
        last_modified: None,
        is_toolbar: false,
        attrs: attr_map_new(),
        children,
    };
    proof {
        let t = top_items_v(root_dl@);
        assert(root@ =~= root_folder_v(t.0, t.1));
        let fl = flat_v(root_dl@.children);
        lemma_items_grow(fl, 0, 1);
        lemma_items_numbered(fl, 0, 1);
        let own = seq![t.1 as u64];
        lemma_fresh_one(t.1 as u64);
        lemma_fresh_join(own, forest_ids(t.0), t.1 as int, t.1 + 1int, 1, t.1 as int, 1, t.1 + 1int);
        assert(tree_ids(root@) == own + forest_ids(t.0));
        lemma_distinct_ids_unique(root@, t.1 + 1int);
    }
    let stats = DocumentStats::from_root(&root);
    let header = HeaderMetadata { charset, title, has_bom, line_ending };
    Ok(
        Document {
            id,
            path: None,
            root,
            header,
            id_gen: gen,
            stats,
            undo_stack: Vec::new(),
            redo_stack: Vec::new(),
            dirty: false,
            history_dropped: false,
        },
    )
}

} // verus!

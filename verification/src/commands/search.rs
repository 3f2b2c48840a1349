//! Searching a document's bookmarks by title and URL.
//!
//! A substring query matches when the lowercased query occurs in the
//! lowercased text; a glob matches the whole lowercased text; a regex is
//! built case-insensitive and matches anywhere.  Matching bookmarks that pass
//! the filter are listed in document order.
use vstd::prelude::*;
use crate::commands::browse::{item_of, items_v, node_to_item};
use crate::commands::filter::{item_passes_filter, passes_filter};
use crate::commands::glob::{glob_match, glob_match_keeps_grams, glob_matches, glob_tokens, parse_glob, GlobToken};
use crate::commands::types::{FolderItem, FolderItemV, SearchMode, SearchResults, SearchSpec};
use crate::error::UiError;
use crate::model::node::{lemma_folder_v, lemma_nodes_v, node_v, BookmarkV, Folder, FolderV, Node, NodeId, NodeV};
use crate::regexes::{regex_ci_error_of, regex_ci_match_of, CaseInsensitiveRegex};
use crate::sanitize::treatments::text::{trim_whitespace, trim_ws_v};
use crate::search::index::{
    bookmark_has_gram, candidates_include_every_match, candidates_include_gram_holders, has_gram, increasing,
    occurs_in, SearchIndex,
};
use crate::model::tree::bookmarks_in;
use crate::text::{chars_of, lowercase_of, to_lower};

verus! {

broadcast use {lemma_nodes_v, lemma_folder_v};

/// The text matches the query of `q`.
pub open spec fn query_hit(q: SearchSpec, s: Seq<char>) -> bool {
    match q.mode {
        SearchMode::Substring => occurs_in(lowercase_of(q.query@), lowercase_of(s)),
        SearchMode::Glob => glob_match(glob_tokens(lowercase_of(q.query@)), lowercase_of(s)),
        SearchMode::Regex => regex_ci_match_of(q.query@, s),
    }
}

/// The bookmark is found by `q`: through its title or its URL, as asked.
pub open spec fn bookmark_hit(q: SearchSpec, b: BookmarkV) -> bool {
    (q.search_titles && query_hit(q, b.title)) || (q.search_urls && query_hit(q, b.url.text()))
}

/// The rows of the bookmarks among `ns` and below them (at `depth` for
/// `ns`) that are candidates, are found by `q` and pass its filter, in
/// document order.
pub open spec fn search_hits(ns: Seq<NodeV>, depth: nat, q: SearchSpec, cands: Option<Seq<NodeId>>) -> Seq<FolderItemV>
    decreases ns,
{
    if ns.len() == 0 {
        Seq::empty()
    } else {
        let rest = search_hits(ns.subrange(0, ns.len() - 1), depth, q, cands);
        match ns[ns.len() - 1] {
            NodeV::Bookmark(b) => if (cands matches Some(c) && !c.contains(b.id)) {
                rest
            } else if bookmark_hit(q, b) && passes_filter(item_of(NodeV::Bookmark(b)), Some(depth as u32), q.filter) {
                rest.push(item_of(NodeV::Bookmark(b)))
            } else {
                rest
            },
            NodeV::Folder(f) => rest + search_hits(f.children, depth + 1, q, cands),
            NodeV::Separator(_) => rest,
        }
    }
}

/// How deep folders nest among `ns` (0 without folders).
pub open spec fn nesting(ns: Seq<NodeV>) -> nat
    decreases ns,
{
    if ns.len() == 0 {
        0
    } else {
        let rest = nesting(ns.subrange(0, ns.len() - 1));
        let own: nat = match ns[ns.len() - 1] {
            NodeV::Folder(f) => 1 + nesting(f.children),
            _ => 0,
        };
        if rest >= own { rest } else { own }
    }
}

proof fn lemma_nesting_prefix(ns: Seq<NodeV>, k: int)
    requires
        0 <= k <= ns.len(),
    ensures
        nesting(ns.subrange(0, k)) <= nesting(ns),
        k < ns.len() ==> (ns[k] matches NodeV::Folder(f) ==> 1 + nesting(f.children) <= nesting(ns)),
    decreases ns.len() - k,
{
    if k < ns.len() {
        lemma_nesting_prefix(ns, k + 1);
        assert(ns.subrange(0, k + 1).subrange(0, k) =~= ns.subrange(0, k));
        assert(ns.subrange(0, k + 1)[k] == ns[k]);
    } else {
        assert(ns.subrange(0, k) =~= ns);
    }
}

/// Whether `needle` occurs in `hay`.
pub fn occurs(hay: &str, needle: &str) -> (r: bool)
    ensures
        r == occurs_in(needle@, hay@),
{
    let h = chars_of(hay);
    let n = chars_of(needle);
    if n.len() > h.len() {
        proof {
            if occurs_in(needle@, hay@) {
                let o = choose|o: int| 0 <= o && o + needle@.len() <= hay@.len() && #[trigger] hay@.subrange(o, o + needle@.len()) == needle@;
            }
        }
        return false;
    }
    let mut o: usize = 0;
    while o <= h.len() - n.len()
        invariant
            h@ == hay@,
            n@ == needle@,
            n.len() <= h.len(),
            o <= h.len() - n.len() + 1,
            forall|p: int| 0 <= p < o ==> #[trigger] hay@.subrange(p, p + needle@.len()) != needle@,
        decreases h.len() - n.len() + 1 - o,
    {
        let mut k: usize = 0;
        while k < n.len() && h[o + k] == n[k]
            invariant
                h@ == hay@,
                n@ == needle@,
                o + n.len() <= h.len(),
                k <= n.len(),
                forall|j: int| 0 <= j < k ==> h@[o + j] == n@[j],
            decreases n.len() - k,
        {
            k += 1;
        }
        if k == n.len() {
            proof {
                assert(hay@.subrange(o as int, o + needle@.len()) =~= needle@);
            }
            return true;
        }
        proof {
            assert(hay@.subrange(o as int, o + needle@.len())[k as int] != needle@[k as int]);
        }
        o += 1;
    }
    proof {
        if occurs_in(needle@, hay@) {
            let p = choose|p: int| 0 <= p && p + needle@.len() <= hay@.len() && #[trigger] hay@.subrange(p, p + needle@.len()) == needle@;
            assert(p < o);
        }
    }
    false
}

/// Whether the increasing list holds `id`.
pub(crate) fn holds_id(v: &Vec<NodeId>, id: NodeId) -> (r: bool)
    requires
        increasing(v@),
    ensures
        r == v@.contains(id),
{
    let mut lo: usize = 0;
    let mut hi: usize = v.len();
    while lo < hi
        invariant
            increasing(v@),
            lo <= hi <= v.len(),
            forall|a: int| 0 <= a < lo ==> v@[a] < id,
            forall|a: int| hi <= a < v.len() ==> v@[a] > id,
        decreases hi - lo,
    {
        let mid = lo + (hi - lo) / 2;
        if v[mid] == id {
            proof {
                assert(v@[mid as int] == id);
            }
            return true;
        } else if v[mid] < id {
            lo = mid + 1;
        } else {
            hi = mid;
        }
    }
    false
}

/// What a query is tested with: the lowercased query, the glob, or the
/// built regex.
enum Matcher {
    Substring(String),
    Glob(Vec<GlobToken>),
    Regex(CaseInsensitiveRegex),
}

spec fn matcher_for(m: Matcher, q: SearchSpec) -> bool {
    match m {
        Matcher::Substring(l) => q.mode == SearchMode::Substring && l@ == lowercase_of(q.query@),
        Matcher::Glob(t) => q.mode == SearchMode::Glob && t@ == glob_tokens(lowercase_of(q.query@)),
        Matcher::Regex(re) => q.mode == SearchMode::Regex && re.pattern_v() == q.query@,
    }
}

fn hit(m: &Matcher, s: &str, Ghost(q): Ghost<SearchSpec>) -> (r: bool)
    requires
        matcher_for(*m, q),
    ensures
        r == query_hit(q, s@),
{
    match m {
        Matcher::Substring(l) => {
            let low = to_lower(s);
            occurs(low.as_str(), l.as_str())
        },
        Matcher::Glob(t) => glob_matches(t.as_slice(), s),
        Matcher::Regex(re) => re.is_match(s),
    }
}

fn search_folder(
    folder: &Folder,
    depth: u32,
    m: &Matcher,
    q: &SearchSpec,
    cands: Option<&Vec<NodeId>>,
    out: &mut Vec<FolderItem>,
)
    requires
        matcher_for(*m, *q),
        depth + nesting(folder@.children) <= u32::MAX,
        cands matches Some(c) ==> increasing(c@),
    ensures
        items_v(final(out)@) == items_v(old(out)@) + search_hits(
            folder@.children,
            depth as nat,
            *q,
            match cands {
                Some(c) => Some(c@),
                None => None,
            },
        ),
    decreases folder,
{
    let ghost cs = folder@.children;
    let ghost cv = match cands {
        Some(c) => Some(c@),
        None => None,
    };
    let ghost start = items_v(out@);
    let mut i: usize = 0;
    proof {
        assert(cs.subrange(0, 0) =~= Seq::<NodeV>::empty());
        assert(start + search_hits(cs.subrange(0, 0), depth as nat, *q, cv) =~= start);
    }
    while i < folder.children.len()
        invariant
            cs == folder@.children,
            matcher_for(*m, *q),
            depth + nesting(cs) <= u32::MAX,
            cands matches Some(c) ==> increasing(c@),
            cv == (match cands {
                Some(c) => Some(c@),
                None => None,
            }),
            i <= folder.children.len(),
            items_v(out@) == start + search_hits(cs.subrange(0, i as int), depth as nat, *q, cv),
        decreases folder.children.len() - i,
    {
        proof {
            assert(cs.subrange(0, i + 1).subrange(0, i as int) =~= cs.subrange(0, i as int));
            assert(cs[i as int] == node_v(folder.children@[i as int]));
            lemma_nesting_prefix(cs, i as int);
        }
        let ghost before = items_v(out@);
        match &folder.children[i] {
            Node::Bookmark(b) => {
                let skip = match cands {
                    Some(c) => !holds_id(c, b.id),
                    None => false,
                };
                if !skip {
                    let found = (q.search_titles && hit(m, b.title.as_str(), Ghost(*q))) || (q.search_urls && hit(
                        m,
                        b.url.as_str(),
                        Ghost(*q),
                    ));
                    if found {
                        let item = node_to_item(&folder.children[i]);
                        if item_passes_filter(&item, Some(depth), &q.filter) {
                            out.push(item);
                            proof {
                                assert(items_v(out@) =~= before.push(item_of(cs[i as int])));
                            }
                        }
                    }
                }
            },
            Node::Folder(f) => {
                proof {
                    assert(decreases_to!(folder => folder.children));
                    assert(decreases_to!(folder.children => folder.children@));
                    assert(decreases_to!(folder.children@ => folder.children@[i as int]));
                }
                search_folder(f, depth + 1, m, q, cands, out);
            },
            Node::Separator(_) => {},
        }
        proof {
            assert(items_v(out@) =~= start + search_hits(cs.subrange(0, i + 1), depth as nat, *q, cv));
        }
        i += 1;
    }
    proof {
        assert(cs.subrange(0, cs.len() as int) =~= cs);
    }
}

/// The message of a regex that does not build.
pub open spec fn invalid_regex_v(e: Seq<char>) -> Seq<char> {
    "invalid regex: "@ + e
}

/// Search the bookmarks below `root` (the root's children at depth 0).  A
/// blank query finds nothing; a regex that does not build is refused.  When
/// `cands` is given, only those bookmark ids are tested.
pub fn search_document(root: &Folder, q: &SearchSpec, cands: Option<&Vec<NodeId>>) -> (r: Result<SearchResults, UiError>)
    requires
        nesting(root@.children) <= u32::MAX,
        cands matches Some(c) ==> increasing(c@),
    ensures
        trim_ws_v(q.query@).len() == 0 ==> (r matches Ok(res) && res.items@.len() == 0 && res.total == 0),
        trim_ws_v(q.query@).len() > 0 && q.mode == SearchMode::Regex && regex_ci_error_of(q.query@) is Some ==> (r matches Err(
            e,
        ) && e matches UiError::InvalidOperation(m) && m@ == invalid_regex_v(regex_ci_error_of(q.query@)->0)),
        trim_ws_v(q.query@).len() > 0 && !(q.mode == SearchMode::Regex && regex_ci_error_of(q.query@) is Some) ==> (r matches Ok(
            res,
        ) && items_v(res.items@) == search_hits(
            root@.children,
            0,
            *q,
            match cands {
                Some(c) => Some(c@),
                None => None,
            },
        ) && res.total == res.items@.len()),
{
    let t = trim_whitespace(q.query.as_str());
    if chars_of(t.as_str()).len() == 0 {
        return Ok(SearchResults { items: Vec::new(), total: 0 });
    }
    let m = match q.mode {
        SearchMode::Substring => Matcher::Substring(to_lower(q.query.as_str())),
        SearchMode::Glob => Matcher::Glob(parse_glob(q.query.as_str())),
        SearchMode::Regex => match CaseInsensitiveRegex::build(q.query.as_str()) {
            Ok(re) => Matcher::Regex(re),
            Err(e) => {
                let mut msg = "invalid regex: ".to_owned();
                msg.append(e.as_str());
                return Err(UiError::InvalidOperation(msg));
            },
        },
    };
    let mut items: Vec<FolderItem> = Vec::new();
    proof {
        assert(items_v(items@) =~= Seq::<FolderItemV>::empty());
    }
    search_folder(root, 0, &m, q, cands, &mut items);
    proof {
        assert(items_v(items@) =~= search_hits(
            root@.children,
            0,
            *q,
            match cands {
                Some(c) => Some(c@),
                None => None,
            },
        ));
    }
    let total = items.len();
    Ok(SearchResults { items, total })
}

/// For a substring or glob query, testing only the candidates an index
/// covering the tree gives changes nothing: narrowing never hides a hit.
pub proof fn narrowing_keeps_hits(
    ns: Seq<NodeV>,
    depth: nat,
    q: SearchSpec,
    cands: Seq<NodeId>,
    root: FolderV,
    idx: SearchIndex,
)
    requires
        q.mode == SearchMode::Substring || q.mode == SearchMode::Glob,
        idx.covers(root),
        idx.narrows_to(q.query@, cands),
        forall|b: BookmarkV| #[trigger] bookmarks_in(ns).contains(b) ==> bookmarks_in(root.children).contains(b),
    ensures
        search_hits(ns, depth, q, Some(cands)) == search_hits(ns, depth, q, None),
    decreases ns,
{
    if ns.len() > 0 {
        let pre = ns.subrange(0, ns.len() - 1);
        let whole = bookmarks_in(ns);
        let head = bookmarks_in(pre);
        assert(head.len() <= whole.len() && forall|k: int| 0 <= k < head.len() ==> whole[k] == #[trigger] head[k]) by {
            match ns[ns.len() - 1] {
                NodeV::Bookmark(b) => assert(whole == head.push(b)),
                NodeV::Folder(f) => assert(whole == head + bookmarks_in(f.children)),
                NodeV::Separator(_) => assert(whole == head),
            }
        }
        assert forall|b: BookmarkV| #[trigger] head.contains(b) implies bookmarks_in(root.children).contains(b) by {
            let k = choose|k: int| 0 <= k < head.len() && head[k] == b;
            assert(whole[k] == b);
            assert(whole.contains(b));
        }
        narrowing_keeps_hits(pre, depth, q, cands, root, idx);
        match ns[ns.len() - 1] {
            NodeV::Bookmark(b) => {
                if bookmark_hit(q, b) {
                    assert(bookmarks_in(ns) == bookmarks_in(pre).push(b));
                    assert(bookmarks_in(ns)[bookmarks_in(pre).len() as int] == b);
                    assert(bookmarks_in(ns).contains(b));
                    if q.mode == SearchMode::Substring {
                        candidates_include_every_match(idx, root, q.query@, b, cands);
                    } else {
                        let p = lowercase_of(q.query@);
                        assert forall|g: int| #[trigger] has_gram(p, g) implies bookmark_has_gram(b, g) by {
                            if q.search_titles && query_hit(q, b.title) {
                                glob_match_keeps_grams(p, lowercase_of(b.title), g);
                            } else {
                                glob_match_keeps_grams(p, lowercase_of(b.url.text()), g);
                            }
                        }
                        candidates_include_gram_holders(idx, root, q.query@, b, cands);
                    }
                }
            },
            NodeV::Folder(f) => {
                assert(bookmarks_in(ns) == bookmarks_in(pre) + bookmarks_in(f.children));
                assert forall|b: BookmarkV| #[trigger] bookmarks_in(f.children).contains(b) implies bookmarks_in(root.children).contains(b) by {
                    let k = choose|k: int| 0 <= k < bookmarks_in(f.children).len() && bookmarks_in(f.children)[k] == b;
                    assert(whole[head.len() + k] == b);
                    assert(whole.contains(b));
                }
                narrowing_keeps_hits(f.children, depth + 1, q, cands, root, idx);
            },
            NodeV::Separator(_) => {},
        }
    }
}

/// Search with the index narrowing substring and glob queries first (see
/// [`search_document`]); regex queries test every bookmark.  For a substring
/// or glob query over an index of the tree, the hits are those of a search
/// without the index.
pub fn search_with_index(root: &Folder, q: &SearchSpec, index: &SearchIndex) -> (r: Result<SearchResults, UiError>)
    requires
        nesting(root@.children) <= u32::MAX,
    ensures
        trim_ws_v(q.query@).len() == 0 ==> (r matches Ok(res) && res.items@.len() == 0 && res.total == 0),
        trim_ws_v(q.query@).len() > 0 && q.mode == SearchMode::Regex ==> (match r {
            Ok(res) => regex_ci_error_of(q.query@) is None && items_v(res.items@) == search_hits(root@.children, 0, *q, None)
                && res.total == res.items@.len(),
            Err(e) => regex_ci_error_of(q.query@) is Some && (e matches UiError::InvalidOperation(m) && m@ == invalid_regex_v(
                regex_ci_error_of(q.query@)->0,
            )),
        }),
        trim_ws_v(q.query@).len() > 0 && q.mode == SearchMode::Substring && index.covers(root@) ==> (r matches Ok(res)
            && items_v(res.items@) == search_hits(root@.children, 0, *q, None) && res.total == res.items@.len()),
        trim_ws_v(q.query@).len() > 0 && q.mode == SearchMode::Glob && index.covers(root@) ==> (r matches Ok(res)
            && items_v(res.items@) == search_hits(root@.children, 0, *q, None) && res.total == res.items@.len()),
{
    let cands = match q.mode {
        SearchMode::Regex => None,
        _ => index.candidates(q.query.as_str()),
    };
    match &cands {
        Some(c) => {
            proof {
                if (q.mode == SearchMode::Substring || q.mode == SearchMode::Glob) && index.covers(root@) {
                    narrowing_keeps_hits(root@.children, 0, *q, c@, root@, *index);
                }
            }
            search_document(root, q, Some(c))
        },
        None => search_document(root, q, None),
    }
}

} // verus!

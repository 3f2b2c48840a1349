//! Duplicate bookmarks.
//!
//! Both treatments group the bookmarks of a document by a URL key and
//! propose deleting every bookmark of a group but its keeper: the one with
//! the oldest add date where both dates are known, otherwise the first in
//! document order.  The deletions are destructive and unapproved.
//!
//! - exact key: the URL with a trailing slash on a path other than `/`
//!   removed; query and fragment count.
//! - near key: also `http` as `https`, a leading `www.` dropped, no
//!   fragment, no tracking parameters, the remaining parameters sorted.
use vstd::prelude::*;
use crate::model::document::Document;
use crate::model::node::{lemma_folder_v, lemma_nodes_v, node_v, Bookmark, BookmarkUrl, BookmarkV, Folder, FolderV, Node, NodeV, UrlV};
use crate::model::tree::bookmarks_in;
use crate::sanitize::treatment::{changes_v, Change, ChangeKindV, ChangeV, PassContext, TreatmentCategory};
use crate::sanitize::treatments::text::{trim_whitespace, trim_ws_v};
use crate::sanitize::treatments::url_qp::{is_tracking_param, is_tracking_param_v};
use crate::text::{chars_of, has_prefix, same_text, starts_with, string_of, text_less, text_lt};
use crate::urls::{
    fragment_of, host_of, opt_view, pairs_view, parses, path_of, query_of, query_pairs_of, scheme_of,
    url_fragment_of, url_host_of, url_path_of, url_query_of, url_query_pairs_of, url_scheme_of,
    url_with_fragment, url_with_host, url_with_path, url_with_query_pairs, url_with_scheme,
    url_without_query, with_fragment, with_host, with_path, with_query_pairs, with_scheme, without_query,
};

verus! {

broadcast use {lemma_nodes_v, lemma_folder_v};

// ---------------------------------------------------------------------------
// URL keys
// ---------------------------------------------------------------------------

/// `p` without its trailing slashes.
pub open spec fn without_trailing_slashes(p: Seq<char>) -> Seq<char>
    decreases p.len(),
{
    if p.len() > 0 && p.last() == '/' { without_trailing_slashes(p.drop_last()) } else { p }
}

/// The URL with a trailing slash on a path longer than `/` removed.
pub open spec fn slash_trimmed(h: Seq<char>) -> Seq<char> {
    let p = url_path_of(h);
    if parses(h) && p.len() > 1 && p.last() == '/' {
        url_with_path(h, without_trailing_slashes(p))
    } else {
        h
    }
}

/// The key of the exact-URL grouping.
pub open spec fn exact_key(u: UrlV) -> Seq<char> {
    match u {
        UrlV::Valid(h) => slash_trimmed(h),
        UrlV::Malformed(raw) => raw,
    }
}

/// `http` turned into `https` (where the `url` crate accepts it).
pub open spec fn https_step(h: Seq<char>) -> Seq<char> {
    if parses(h) && url_scheme_of(h) == "http"@ {
        match url_with_scheme(h, "https"@) {
            Some(x) => x,
            None => h,
        }
    } else {
        h
    }
}

/// A leading `www.` dropped from the host (where accepted).
pub open spec fn www_step(h: Seq<char>) -> Seq<char> {
    if parses(h) {
        match url_host_of(h) {
            Some(host) => if has_prefix(host, "www."@) {
                match url_with_host(h, host.skip(4)) {
                    Some(x) => x,
                    None => h,
                }
            } else {
                h
            },
            None => h,
        }
    } else {
        h
    }
}

/// The fragment dropped.
pub open spec fn fragment_step(h: Seq<char>) -> Seq<char> {
    if parses(h) { url_with_fragment(h, None) } else { h }
}

/// The query pairs that are not tracking parameters, in order.
pub open spec fn untracked_pairs(ps: Seq<(Seq<char>, Seq<char>)>) -> Seq<(Seq<char>, Seq<char>)>
    decreases ps.len(),
{
    if ps.len() == 0 {
        Seq::empty()
    } else {
        let rest = untracked_pairs(ps.drop_last());
        if is_tracking_param_v(ps.last().0) { rest } else { rest.push(ps.last()) }
    }
}

/// Pairs ordered by key, then value.
pub open spec fn pair_lt(a: (Seq<char>, Seq<char>), b: (Seq<char>, Seq<char>)) -> bool {
    text_lt(a.0, b.0) || (a.0 == b.0 && text_lt(a.1, b.1))
}

/// `x` placed in the sorted `s` after every pair not greater than it.
pub open spec fn insert_pair(s: Seq<(Seq<char>, Seq<char>)>, x: (Seq<char>, Seq<char>)) -> Seq<(Seq<char>, Seq<char>)>
    decreases s.len(),
{
    if s.len() == 0 {
        seq![x]
    } else if pair_lt(x, s[0]) {
        seq![x] + s
    } else {
        seq![s[0]] + insert_pair(s.drop_first(), x)
    }
}

/// The pairs in increasing order (key, then value).
pub open spec fn sorted_pairs(ps: Seq<(Seq<char>, Seq<char>)>) -> Seq<(Seq<char>, Seq<char>)>
    decreases ps.len(),
{
    if ps.len() == 0 {
        Seq::empty()
    } else {
        insert_pair(sorted_pairs(ps.drop_last()), ps.last())
    }
}

/// Tracking parameters dropped and the others sorted (no query left when
/// none remain).
pub open spec fn query_step(h: Seq<char>) -> Seq<char> {
    if parses(h) {
        let ps = sorted_pairs(untracked_pairs(url_query_pairs_of(h)));
        if ps.len() == 0 { url_without_query(h) } else { url_with_query_pairs(h, ps) }
    } else {
        h
    }
}

/// The key of the near-duplicate grouping.
pub open spec fn near_key(u: UrlV) -> Seq<char> {
    match u {
        UrlV::Valid(h) => slash_trimmed(query_step(fragment_step(www_step(https_step(h))))),
        UrlV::Malformed(raw) => raw,
    }
}

fn trailing_slashes_removed(p: &str) -> (r: String)
    ensures
        r@ == without_trailing_slashes(p@),
{
    let cs = chars_of(p);
    let mut end: usize = cs.len();
    proof {
        assert(p@.take(p@.len() as int) =~= p@);
    }
    while end > 0 && cs[end - 1] == '/'
        invariant
            cs@ == p@,
            end <= cs.len(),
            without_trailing_slashes(p@) == without_trailing_slashes(p@.take(end as int)),
        decreases end,
    {
        proof {
            assert(p@.take(end as int).drop_last() =~= p@.take(end - 1));
        }
        end -= 1;
    }
    crate::text::string_between(&cs, 0, end)
}

fn trim_slash(h: String) -> (r: String)
    ensures
        r@ == slash_trimmed(h@),
{
    match path_of(h.as_str()) {
        Some(p) => {
            let pc = chars_of(p.as_str());
            if pc.len() > 1 && pc[pc.len() - 1] == '/' {
                let t = trailing_slashes_removed(p.as_str());
                match with_path(h.as_str(), t.as_str()) {
                    Some(x) => x,
                    None => h,
                }
            } else {
                h
            }
        },
        None => h,
    }
}

/// The exact-URL key of `url`.
pub fn exact_url_key(url: &BookmarkUrl) -> (r: String)
    ensures
        r@ == exact_key(url@),
{
    match url {
        BookmarkUrl::Valid(h) => trim_slash(h.clone()),
        BookmarkUrl::Malformed { raw } => raw.clone(),
    }
}

fn pair_less(a: &(String, String), b: &(String, String)) -> (r: bool)
    ensures
        r == pair_lt((a.0@, a.1@), (b.0@, b.1@)),
{
    text_less(a.0.as_str(), b.0.as_str()) || (same_text(a.0.as_str(), b.0.as_str()) && text_less(a.1.as_str(), b.1.as_str()))
}

proof fn lemma_insert_pair_at(s: Seq<(Seq<char>, Seq<char>)>, x: (Seq<char>, Seq<char>), k: int)
    requires
        0 <= k <= s.len(),
        forall|a: int| 0 <= a < k ==> !pair_lt(x, #[trigger] s[a]),
        k < s.len() ==> pair_lt(x, s[k]),
    ensures
        insert_pair(s, x) == s.insert(k, x),
    decreases s.len(),
{
    if s.len() == 0 {
        assert(s.insert(k, x) =~= seq![x]);
    } else if k == 0 {
        assert(s.insert(0, x) =~= seq![x] + s);
    } else {
        assert(!pair_lt(x, s[0]));
        assert forall|a: int| 0 <= a < k - 1 implies !pair_lt(x, #[trigger] s.drop_first()[a]) by {
            assert(s.drop_first()[a] == s[a + 1]);
        }
        lemma_insert_pair_at(s.drop_first(), x, k - 1);
        assert(seq![s[0]] + s.drop_first().insert(k - 1, x) =~= s.insert(k, x));
    }
}

/// The pairs in increasing order (key, then value).
fn sort_pairs(ps: &Vec<(String, String)>) -> (r: Vec<(String, String)>)
    ensures
        pairs_view(r@) == sorted_pairs(pairs_view(ps@)),
{
    let mut out: Vec<(String, String)> = Vec::new();
    let mut i: usize = 0;
    proof {
        assert(pairs_view(ps@).take(0) =~= Seq::<(Seq<char>, Seq<char>)>::empty());
        assert(pairs_view(out@) =~= Seq::<(Seq<char>, Seq<char>)>::empty());
    }
    while i < ps.len()
        invariant
            i <= ps.len(),
            pairs_view(out@) == sorted_pairs(pairs_view(ps@).take(i as int)),
        decreases ps.len() - i,
    {
        let x = (ps[i].0.clone(), ps[i].1.clone());
        let ghost ov = pairs_view(out@);
        let mut k: usize = 0;
        while k < out.len() && !pair_less(&x, &out[k])
            invariant
                ov == pairs_view(out@),
                k <= out.len(),
                forall|a: int| 0 <= a < k ==> !pair_lt((x.0@, x.1@), #[trigger] ov[a]),
            decreases out.len() - k,
        {
            k += 1;
        }
        proof {
            lemma_insert_pair_at(ov, (x.0@, x.1@), k as int);
            assert(pairs_view(ps@).take(i + 1).drop_last() =~= pairs_view(ps@).take(i as int));
            assert(pairs_view(ps@).take(i + 1).last() == (x.0@, x.1@));
        }
        out.insert(k, x);
        proof {
            assert(pairs_view(out@) =~= ov.insert(k as int, (x.0@, x.1@)));
        }
        i += 1;
    }
    proof {
        assert(pairs_view(ps@).take(ps.len() as int) =~= pairs_view(ps@));
    }
    out
}

fn untracked(ps: &Vec<(String, String)>) -> (r: Vec<(String, String)>)
    ensures
        pairs_view(r@) == untracked_pairs(pairs_view(ps@)),
{
    let mut out: Vec<(String, String)> = Vec::new();
    let mut i: usize = 0;
    proof {
        assert(pairs_view(ps@).take(0) =~= Seq::<(Seq<char>, Seq<char>)>::empty());
        assert(pairs_view(out@) =~= Seq::<(Seq<char>, Seq<char>)>::empty());
    }
    while i < ps.len()
        invariant
            i <= ps.len(),
            pairs_view(out@) == untracked_pairs(pairs_view(ps@).take(i as int)),
        decreases ps.len() - i,
    {
        proof {
            assert(pairs_view(ps@).take(i + 1).drop_last() =~= pairs_view(ps@).take(i as int));
            assert(pairs_view(ps@).take(i + 1).last() == (ps@[i as int].0@, ps@[i as int].1@));
        }
        if !is_tracking_param(ps[i].0.as_str()) {
            let ghost ov = pairs_view(out@);
            out.push((ps[i].0.clone(), ps[i].1.clone()));
            proof {
                assert(pairs_view(out@) =~= ov.push((ps@[i as int].0@, ps@[i as int].1@)));
            }
        }
        i += 1;
    }
    proof {
        assert(pairs_view(ps@).take(ps.len() as int) =~= pairs_view(ps@));
    }
    out
}

/// The near-duplicate key of `url`.
pub fn near_url_key(url: &BookmarkUrl) -> (r: String)
    ensures
        r@ == near_key(url@),
{
    proof {
        reveal_strlit("http");
        reveal_strlit("www.");
    }
    let h = match url {
        BookmarkUrl::Valid(h) => h.clone(),
        BookmarkUrl::Malformed { raw } => {
            return raw.clone();
        },
    };
    let h1 = match scheme_of(h.as_str()) {
        Some(s) => if same_text(s.as_str(), "http") {
            match with_scheme(h.as_str(), "https") {
                Some(x) => x,
                None => h,
            }
        } else {
            h
        },
        None => h,
    };
    let h2 = match host_of(h1.as_str()) {
        Some(Some(host)) => if starts_with(host.as_str(), "www.") {
            let hc = chars_of(host.as_str());
            let rest = crate::text::string_between(&hc, 4, hc.len());
            proof {
                assert(host@.skip(4) =~= host@.subrange(4, host@.len() as int));
            }
            match with_host(h1.as_str(), rest.as_str()) {
                Some(x) => x,
                None => h1,
            }
        } else {
            h1
        },
        _ => h1,
    };
    let h3 = match with_fragment(h2.as_str(), None) {
        Some(x) => x,
        None => h2,
    };
    let h4 = match query_pairs_of(h3.as_str()) {
        Some(ps) => {
            let kept = untracked(&ps);
            let sorted = sort_pairs(&kept);
            if sorted.len() == 0 {
                match without_query(h3.as_str()) {
                    Some(x) => x,
                    None => h3,
                }
            } else {
                match with_query_pairs(h3.as_str(), &sorted) {
                    Some(x) => x,
                    None => h3,
                }
            }
        },
        None => h3,
    };
    trim_slash(h4)
}

// ---------------------------------------------------------------------------
// The rationale shown in the review
// ---------------------------------------------------------------------------

/// `s` starts with `www.`.
pub open spec fn has_www(s: Seq<char>) -> bool {
    s.len() >= 4 && s[0] == 'w' && s[1] == 'w' && s[2] == 'w' && s[3] == '.'
}

/// `s` with every leading `www.` removed.
pub open spec fn www_stripped(s: Seq<char>) -> Seq<char>
    decreases s.len(),
{
    if has_www(s) { www_stripped(s.skip(4)) } else { s }
}

/// Some query parameter of `h` is a tracking parameter.
pub open spec fn has_tracking(h: Seq<char>) -> bool {
    exists|i: int| 0 <= i < url_query_pairs_of(h).len() && is_tracking_param_v(#[trigger] url_query_pairs_of(h)[i].0)
}

pub open spec fn host_or_empty(h: Seq<char>) -> Seq<char> {
    match url_host_of(h) {
        Some(x) => x,
        None => Seq::empty(),
    }
}

/// The ways the URLs `a` and `b` differ, as the review names them.
pub open spec fn differences_v(a: Seq<char>, b: Seq<char>) -> Seq<Seq<char>> {
    if !(parses(a) && parses(b)) {
        Seq::empty()
    } else {
        let s1 = if url_scheme_of(a) != url_scheme_of(b) { seq!["http vs https"@] } else { Seq::empty() };
        let ha = host_or_empty(a);
        let hb = host_or_empty(b);
        let s2 = if ha != hb && www_stripped(ha) == www_stripped(hb) { s1.push("www."@) } else { s1 };
        let pa = url_path_of(a);
        let pb = url_path_of(b);
        let s3 = if pa != pb && without_trailing_slashes(pa) == without_trailing_slashes(pb) {
            s2.push("trailing slash"@)
        } else {
            s2
        };
        let s4 = if url_query_of(a) != url_query_of(b) {
            s3.push(if has_tracking(a) || has_tracking(b) { "tracking parameters"@ } else { "parameter order"@ })
        } else {
            s3
        };
        if url_fragment_of(a) != url_fragment_of(b) { s4.push("#fragment"@) } else { s4 }
    }
}

/// The texts joined with `, `.
pub open spec fn comma_joined(ds: Seq<Seq<char>>) -> Seq<char>
    decreases ds.len(),
{
    if ds.len() == 0 {
        Seq::empty()
    } else if ds.len() == 1 {
        ds[0]
    } else {
        comma_joined(ds.drop_last()) + ", "@ + ds.last()
    }
}

/// Why bookmark `b` is proposed for deletion in favour of `k`.
pub open spec fn rationale_v(b: BookmarkV, k: BookmarkV) -> Seq<char> {
    let t = trim_ws_v(k.title);
    let title = if t.len() == 0 { k.url.text() } else { t };
    let why = if b.add_date is Some && k.add_date is Some { "older"@ } else { "first in the document"@ };
    let ds = match (b.url, k.url) {
        (UrlV::Valid(x), UrlV::Valid(y)) => differences_v(x, y),
        _ => Seq::empty(),
    };
    if ds.len() == 0 {
        "Same URL as \u{201c}"@ + title + "\u{201d}, which is kept ("@ + why + ")"@
    } else {
        "Same page as \u{201c}"@ + title + "\u{201d}, which is kept ("@ + why + "); differs only in "@ + comma_joined(ds)
    }
}

pub(crate) fn www_strip(s: &str) -> (r: String)
    ensures
        r@ == www_stripped(s@),
{
    let cs = chars_of(s);
    let mut k: usize = 0;
    proof {
        assert(s@.skip(0) =~= s@);
    }
    while cs.len() >= 4 && k <= cs.len() - 4 && cs[k] == 'w' && cs[k + 1] == 'w' && cs[k + 2] == 'w' && cs[k + 3] == '.'
        invariant
            cs@ == s@,
            k <= cs.len(),
            www_stripped(s@) == www_stripped(s@.skip(k as int)),
        decreases cs.len() - k,
    {
        proof {
            assert(s@.skip(k as int).skip(4) =~= s@.skip(k + 4));
        }
        k += 4;
    }
    proof {
        assert(!has_www(s@.skip(k as int)));
        assert(s@.skip(k as int) =~= cs@.subrange(k as int, cs.len() as int));
    }
    crate::text::string_between(&cs, k, cs.len())
}

fn any_tracking(ps: &Vec<(String, String)>) -> (r: bool)
    ensures
        r == exists|i: int| 0 <= i < ps.len() && is_tracking_param_v(#[trigger] pairs_view(ps@)[i].0),
{
    let mut i: usize = 0;
    while i < ps.len()
        invariant
            i <= ps.len(),
            forall|j: int| 0 <= j < i ==> !is_tracking_param_v(#[trigger] pairs_view(ps@)[j].0),
        decreases ps.len() - i,
    {
        if is_tracking_param(ps[i].0.as_str()) {
            proof {
                assert(pairs_view(ps@)[i as int].0 == ps@[i as int].0@);
            }
            return true;
        }
        i += 1;
    }
    false
}

fn same_opt(a: &Option<String>, b: &Option<String>) -> (r: bool)
    ensures
        r == (opt_view(*a) == opt_view(*b)),
{
    match (a, b) {
        (Some(x), Some(y)) => same_text(x.as_str(), y.as_str()),
        (None, None) => true,
        _ => false,
    }
}

fn differences(a: &str, b: &str) -> (r: Vec<&'static str>)
    ensures
        r@.map_values(|d: &'static str| d@) == differences_v(a@, b@),
{
    let ghost want = differences_v(a@, b@);
    let (sa, sb) = match (scheme_of(a), scheme_of(b)) {
        (Some(x), Some(y)) => (x, y),
        _ => {
            let none: Vec<&'static str> = Vec::new();
            proof {
                assert(none@.map_values(|d: &'static str| d@) =~= want);
            }
            return none;
        },
    };
    let ha = host_of(a).unwrap();
    let hb = host_of(b).unwrap();
    let pa = path_of(a).unwrap();
    let pb = path_of(b).unwrap();
    let qa = query_of(a).unwrap();
    let qb = query_of(b).unwrap();
    let fa = fragment_of(a).unwrap();
    let fb = fragment_of(b).unwrap();
    let mut out: Vec<&'static str> = Vec::new();
    if !same_text(sa.as_str(), sb.as_str()) {
        out.push("http vs https");
    }
    let ha = match ha {
        Some(x) => x,
        None => String::new(),
    };
    let hb = match hb {
        Some(x) => x,
        None => String::new(),
    };
    if !same_text(ha.as_str(), hb.as_str()) && same_text(www_strip(ha.as_str()).as_str(), www_strip(hb.as_str()).as_str()) {
        out.push("www.");
    }
    if !same_text(pa.as_str(), pb.as_str()) && same_text(
        trailing_slashes_removed(pa.as_str()).as_str(),
        trailing_slashes_removed(pb.as_str()).as_str(),
    ) {
        out.push("trailing slash");
    }
    if !same_opt(&qa, &qb) {
        let ta = any_tracking(&query_pairs_of(a).unwrap());
        let tb = any_tracking(&query_pairs_of(b).unwrap());
        if ta || tb {
            out.push("tracking parameters");
        } else {
            out.push("parameter order");
        }
    }
    if !same_opt(&fa, &fb) {
        out.push("#fragment");
    }
    proof {
        assert(out@.map_values(|d: &'static str| d@) =~= want);
    }
    out
}

fn joined_with_commas(ds: &Vec<&'static str>) -> (r: String)
    ensures
        r@ == comma_joined(ds@.map_values(|d: &'static str| d@)),
{
    let ghost dv = ds@.map_values(|d: &'static str| d@);
    let mut out = String::new();
    let mut i: usize = 0;
    proof {
        assert(dv.take(0) =~= Seq::<Seq<char>>::empty());
    }
    while i < ds.len()
        invariant
            dv == ds@.map_values(|d: &'static str| d@),
            i <= ds.len(),
            out@ == comma_joined(dv.take(i as int)),
        decreases ds.len() - i,
    {
        proof {
            assert(dv.take(i + 1).drop_last() =~= dv.take(i as int));
            assert(dv.take(i + 1).last() == ds@[i as int]@);
        }
        if i > 0 {
            out.append(", ");
        }
        out.append(ds[i]);
        proof {
            if i == 0 {
                assert(out@ =~= comma_joined(dv.take(1)));
            }
        }
        i += 1;
    }
    proof {
        assert(dv.take(ds.len() as int) =~= dv);
    }
    out
}

fn rationale(b: &Bookmark, k: &Bookmark) -> (r: String)
    ensures
        r@ == rationale_v(b@, k@),
{
    let t = trim_whitespace(k.title.as_str());
    let title: String = if chars_of(t.as_str()).len() == 0 { k.url.as_str().to_owned() } else { t };
    let why = if b.add_date.is_some() && k.add_date.is_some() { "older" } else { "first in the document" };
    let ds: Vec<&'static str> = match (&b.url, &k.url) {
        (BookmarkUrl::Valid(x), BookmarkUrl::Valid(y)) => differences(x.as_str(), y.as_str()),
        _ => Vec::new(),
    };
    let mut out: String;
    if ds.len() == 0 {
        out = "Same URL as \u{201c}".to_owned();
        out.append(title.as_str());
        out.append("\u{201d}, which is kept (");
        out.append(why);
        out.append(")");
    } else {
        out = "Same page as \u{201c}".to_owned();
        out.append(title.as_str());
        out.append("\u{201d}, which is kept (");
        out.append(why);
        out.append("); differs only in ");
        let j = joined_with_commas(&ds);
        out.append(j.as_str());
    }
    out
}

// ---------------------------------------------------------------------------
// Grouping and proposals
// ---------------------------------------------------------------------------

/// `a` was added strictly before `b` (both dates known).
pub open spec fn older(a: BookmarkV, b: BookmarkV) -> bool {
    a.add_date is Some && b.add_date is Some && a.add_date->0 < b.add_date->0
}

/// For each key among the first `n` bookmarks, the position of its keeper:
/// the first bookmark with the key, replaced by any later one that is older.
pub open spec fn keepers(bs: Seq<BookmarkV>, ks: Seq<Seq<char>>, n: nat) -> Map<Seq<char>, int>
    decreases n,
{
    if n == 0 {
        Map::empty()
    } else {
        let m = keepers(bs, ks, (n - 1) as nat);
        let i = n - 1;
        if m.dom().contains(ks[i]) {
            if older(bs[i], bs[m[ks[i]]]) { m.insert(ks[i], i) } else { m }
        } else {
            m.insert(ks[i], i)
        }
    }
}

/// The proposal to delete bookmark `id` as a duplicate.
pub open spec fn duplicate_delete(id: crate::model::node::NodeId, tid: Seq<char>, why: Seq<char>) -> ChangeV {
    ChangeV { node_id: id, kind: ChangeKindV::DeleteNode, treatment_id: tid, rationale: why, destructive: true, approved: false }
}

/// In document order, the deletions of the first `n` bookmarks that are not
/// their group's keeper (compared by id).
pub open spec fn deletes_upto(bs: Seq<BookmarkV>, ks: Seq<Seq<char>>, tid: Seq<char>, n: nat) -> Seq<ChangeV>
    decreases n,
{
    if n == 0 {
        Seq::empty()
    } else {
        let rest = deletes_upto(bs, ks, tid, (n - 1) as nat);
        let i = n - 1;
        let j = keepers(bs, ks, bs.len())[ks[i]];
        if bs[j].id != bs[i].id { rest.push(duplicate_delete(bs[i].id, tid, rationale_v(bs[i], bs[j]))) } else { rest }
    }
}

/// The key of each bookmark.
pub open spec fn keys_of(bs: Seq<BookmarkV>, near: bool) -> Seq<Seq<char>> {
    bs.map_values(|b: BookmarkV| if near { near_key(b.url) } else { exact_key(b.url) })
}

/// What a duplicate treatment proposes for the tree.
pub open spec fn duplicate_deletes(root: FolderV, near: bool, tid: Seq<char>) -> Seq<ChangeV> {
    let bs = bookmarks_in(root.children);
    deletes_upto(bs, keys_of(bs, near), tid, bs.len())
}

proof fn lemma_keepers(bs: Seq<BookmarkV>, ks: Seq<Seq<char>>, n: nat)
    requires
        n <= ks.len(),
    ensures
        forall|u: Seq<char>| #[trigger] keepers(bs, ks, n).dom().contains(u) ==> 0 <= keepers(bs, ks, n)[u] < n && ks[keepers(bs, ks, n)[u]] == u,
        forall|i: int| 0 <= i < n ==> keepers(bs, ks, n).dom().contains(#[trigger] ks[i]),
    decreases n,
{
    if n > 0 {
        lemma_keepers(bs, ks, (n - 1) as nat);
        let m = keepers(bs, ks, (n - 1) as nat);
        let m2 = keepers(bs, ks, n);
        assert forall|u: Seq<char>| #[trigger] m2.dom().contains(u) implies 0 <= m2[u] < n && ks[m2[u]] == u by {
            if u != ks[n - 1] {
                assert(m.dom().contains(u));
                assert(m2[u] == m[u]);
            }
        }
        assert forall|i: int| 0 <= i < n implies m2.dom().contains(#[trigger] ks[i]) by {
            if i < n - 1 {
                assert(m.dom().contains(ks[i]));
            }
        }
    }
}

/// The views of the bookmarks `v` refers to.
pub open spec fn refs_v(v: Seq<&Bookmark>) -> Seq<BookmarkV> {
    v.map_values(|b: &Bookmark| b@)
}

/// The views of a key listing.
pub open spec fn kv_v(v: Seq<(String, usize)>) -> Seq<(Seq<char>, int)> {
    v.map_values(|e: (String, usize)| (e.0@, e.1 as int))
}

fn collect_refs<'a>(folder: &'a Folder, out: &mut Vec<&'a Bookmark>)
    ensures
        refs_v(final(out)@) == refs_v(old(out)@) + bookmarks_in(folder@.children),
    decreases folder,
{
    let ghost cs = folder@.children;
    let ghost start = refs_v(out@);
    let mut i: usize = 0;
    proof {
        assert(cs.subrange(0, 0) =~= Seq::<NodeV>::empty());
        assert(start + bookmarks_in(cs.subrange(0, 0)) =~= start);
    }
    while i < folder.children.len()
        invariant
            cs == folder@.children,
            i <= folder.children.len(),
            refs_v(out@) == start + bookmarks_in(cs.subrange(0, i as int)),
        decreases folder.children.len() - i,
    {
        proof {
            assert(cs.subrange(0, i + 1).subrange(0, i as int) =~= cs.subrange(0, i as int));
            assert(cs[i as int] == node_v(folder.children@[i as int]));
        }
        let ghost before = refs_v(out@);
        match &folder.children[i] {
            Node::Bookmark(b) => {
                out.push(b);
                proof {
                    assert(refs_v(out@) =~= before.push(b@));
                    assert(bookmarks_in(cs.subrange(0, i + 1)) == bookmarks_in(cs.subrange(0, i as int)).push(b@));
                }
            },
            Node::Folder(f) => {
                proof {
                    assert(decreases_to!(folder => folder.children));
                    assert(decreases_to!(folder.children => folder.children@));
                    assert(decreases_to!(folder.children@ => folder.children@[i as int]));
                }
                collect_refs(f, out);
                proof {
                    assert(bookmarks_in(cs.subrange(0, i + 1)) == bookmarks_in(cs.subrange(0, i as int)) + bookmarks_in(f@.children));
                }
            },
            Node::Separator(_) => {
                proof {
                    assert(bookmarks_in(cs.subrange(0, i + 1)) == bookmarks_in(cs.subrange(0, i as int)));
                }
            },
        }
        i += 1;
    }
    proof {
        assert(cs.subrange(0, cs.len() as int) =~= cs);
    }
}

/// The first place in the sorted key listing `v` whose key does not sort
/// before `u`.
fn lower_bound_key(v: &Vec<(String, usize)>, u: &str) -> (k: usize)
    requires
        forall|i: int, j: int| 0 <= i < j < v.len() ==> text_lt(#[trigger] kv_v(v@)[i].0, #[trigger] kv_v(v@)[j].0),
    ensures
        k <= v.len(),
        forall|a: int| 0 <= a < k ==> text_lt(#[trigger] kv_v(v@)[a].0, u@),
        forall|a: int| k <= a < v.len() ==> !text_lt(#[trigger] kv_v(v@)[a].0, u@),
{
    let ghost kv = kv_v(v@);
    let mut lo: usize = 0;
    let mut hi: usize = v.len();
    while lo < hi
        invariant
            kv == kv_v(v@),
            lo <= hi <= v.len(),
            forall|i: int, j: int| 0 <= i < j < v.len() ==> text_lt(#[trigger] kv[i].0, #[trigger] kv[j].0),
            forall|a: int| 0 <= a < lo ==> text_lt(#[trigger] kv[a].0, u@),
            forall|a: int| hi <= a < v.len() ==> !text_lt(#[trigger] kv[a].0, u@),
        decreases hi - lo,
    {
        let mid = lo + (hi - lo) / 2;
        proof {
            assert(kv[mid as int].0 == v@[mid as int].0@);
        }
        if text_less(v[mid].0.as_str(), u) {
            proof {
                assert forall|a: int| 0 <= a < mid + 1 implies text_lt(#[trigger] kv[a].0, u@) by {
                    if a < mid {
                        crate::text::lemma_text_lt_trans(kv[a].0, kv[mid as int].0, u@);
                    }
                }
            }
            lo = mid + 1;
        } else {
            proof {
                assert forall|a: int| mid <= a < v.len() implies !text_lt(#[trigger] kv[a].0, u@) by {
                    if a > mid && text_lt(kv[a].0, u@) {
                        crate::text::lemma_text_lt_trans(kv[mid as int].0, kv[a].0, u@);
                    }
                }
            }
            hi = mid;
        }
    }
    lo
}

/// Where the lower bound `k` of `u` sits in a listing, `u` is listed
/// exactly when the entry there has key `u`.
proof fn lemma_at_bound(kv: Seq<(Seq<char>, int)>, m: Map<Seq<char>, int>, k: int, u: Seq<char>)
    requires
        crate::listing::lists(kv, m.dom(), m),
        0 <= k <= kv.len(),
        forall|a: int| 0 <= a < k ==> text_lt(#[trigger] kv[a].0, u),
        forall|a: int| k <= a < kv.len() ==> !text_lt(#[trigger] kv[a].0, u),
    ensures
        m.dom().contains(u) <==> (k < kv.len() && kv[k].0 == u),
        k < kv.len() && kv[k].0 != u ==> text_lt(u, kv[k].0),
{
    crate::text::lemma_text_lt_asym(u, u);
    if k < kv.len() {
        crate::text::lemma_text_lt_total(kv[k].0, u);
    }
    if m.dom().contains(u) {
        let a = choose|a: int| 0 <= a < kv.len() && #[trigger] kv[a].0 == u;
        if a > k {
            assert(text_lt(kv[k].0, kv[a].0));
        }
    }
}

fn key_of(url: &BookmarkUrl, near: bool) -> (r: String)
    ensures
        r@ == (if near { near_key(url@) } else { exact_key(url@) }),
{
    if near { near_url_key(url) } else { exact_url_key(url) }
}

fn is_older(a: &Bookmark, b: &Bookmark) -> (r: bool)
    ensures
        r == older(a@, b@),
{
    match (a.add_date, b.add_date) {
        (Some(x), Some(y)) => x < y,
        _ => false,
    }
}

/// Group the bookmarks of `doc` by their key and propose deleting every
/// one but its group's keeper, in document order.
fn propose_duplicates(doc: &Document, tid: &str, near: bool) -> (r: Vec<Change>)
    ensures
        changes_v(r@) == duplicate_deletes(doc.root@, near, tid@),
{
    let mut bs: Vec<&Bookmark> = Vec::new();
    collect_refs(&doc.root, &mut bs);
    let ghost bv = bookmarks_in(doc.root@.children);
    proof {
        assert(refs_v(bs@) =~= bv);
    }
    let ghost ks = keys_of(bv, near);
    let mut keys: Vec<String> = Vec::new();
    let mut i: usize = 0;
    while i < bs.len()
        invariant
            refs_v(bs@) == bv,
            ks == keys_of(bv, near),
            i <= bs.len(),
            keys@.len() == i,
            forall|t: int| 0 <= t < i ==> #[trigger] keys@[t]@ == ks[t],
        decreases bs.len() - i,
    {
        proof {
            assert(bv[i as int] == bs@[i as int]@);
        }
        keys.push(key_of(&bs[i].url, near));
        i += 1;
    }
    let mut kl: Vec<(String, usize)> = Vec::new();
    let mut i: usize = 0;
    proof {
        assert(kv_v(kl@) =~= Seq::<(Seq<char>, int)>::empty());
    }
    while i < bs.len()
        invariant
            refs_v(bs@) == bv,
            ks == keys_of(bv, near),
            i <= bs.len(),
            keys@.len() == bs.len(),
            forall|t: int| 0 <= t < bs.len() ==> #[trigger] keys@[t]@ == ks[t],
            crate::listing::lists(kv_v(kl@), keepers(bv, ks, i as nat).dom(), keepers(bv, ks, i as nat)),
        decreases bs.len() - i,
    {
        let ghost m = keepers(bv, ks, i as nat);
        let ghost kv = kv_v(kl@);
        proof {
            lemma_keepers(bv, ks, i as nat);
            assert forall|x: int, y: int| 0 <= x < y < kl.len() implies text_lt(#[trigger] kv_v(kl@)[x].0, #[trigger] kv_v(kl@)[y].0) by {
                assert(text_lt(kv[x].0, kv[y].0));
            }
        }
        let k = lower_bound_key(&kl, keys[i].as_str());
        proof {
            lemma_at_bound(kv, m, k as int, ks[i as int]);
        }
        if k < kl.len() && same_text(kl[k].0.as_str(), keys[i].as_str()) {
            let j = kl[k].1;
            proof {
                assert(kv[k as int] == (ks[i as int], m[ks[i as int]]));
                assert(bv[j as int] == bs@[j as int]@);
                assert(bv[i as int] == bs@[i as int]@);
            }
            if is_older(bs[i], bs[j]) {
                kl.set(k, (keys[i].clone(), i));
                proof {
                    crate::listing::lemma_lists_update(kv, m, k as int, i as int);
                    assert(kv_v(kl@) =~= kv.update(k as int, (kv[k as int].0, i as int)));
                }
            }
        } else {
            kl.insert(k, (keys[i].clone(), i));
            proof {
                crate::listing::lemma_lists_insert(kv, m, k as int, ks[i as int], i as int);
                assert(kv_v(kl@) =~= kv.insert(k as int, (ks[i as int], i as int)));
            }
        }
        i += 1;
    }
    let ghost m = keepers(bv, ks, bv.len());
    let ghost kv = kv_v(kl@);
    proof {
        lemma_keepers(bv, ks, bv.len());
    }
    let mut out: Vec<Change> = Vec::new();
    let mut i: usize = 0;
    while i < bs.len()
        invariant
            refs_v(bs@) == bv,
            ks == keys_of(bv, near),
            i <= bs.len(),
            keys@.len() == bs.len(),
            forall|t: int| 0 <= t < bs.len() ==> #[trigger] keys@[t]@ == ks[t],
            m == keepers(bv, ks, bv.len()),
            kv == kv_v(kl@),
            crate::listing::lists(kv, m.dom(), m),
            forall|u: Seq<char>| #[trigger] m.dom().contains(u) ==> 0 <= m[u] < bv.len(),
            forall|t: int| 0 <= t < bv.len() ==> m.dom().contains(#[trigger] ks[t]),
            changes_v(out@) == deletes_upto(bv, ks, tid@, i as nat),
        decreases bs.len() - i,
    {
        proof {
            assert forall|x: int, y: int| 0 <= x < y < kl.len() implies text_lt(#[trigger] kv_v(kl@)[x].0, #[trigger] kv_v(kl@)[y].0) by {
                assert(text_lt(kv[x].0, kv[y].0));
            }
        }
        let k = lower_bound_key(&kl, keys[i].as_str());
        proof {
            lemma_at_bound(kv, m, k as int, ks[i as int]);
            assert(m.dom().contains(ks[i as int]));
        }
        let j = kl[k].1;
        proof {
            assert(kv[k as int] == (ks[i as int], m[ks[i as int]]));
            assert(bv[j as int] == bs@[j as int]@);
            assert(bv[i as int] == bs@[i as int]@);
        }
        let ghost before = changes_v(out@);
        if bs[j].id != bs[i].id {
            let why = rationale(bs[i], bs[j]);
            out.push(Change::delete_node(bs[i].id, tid, why.as_str()));
            proof {
                assert(changes_v(out@) =~= before.push(duplicate_delete(bv[i as int].id, tid@, rationale_v(bv[i as int], bv[j as int]))));
            }
        }
        i += 1;
    }
    out
}

/// Finds bookmarks whose URLs are identical up to a trailing slash.
#[derive(Debug, Clone, Copy)]
pub struct ExactUrlDuplicatesTreatment;

/// Finds bookmarks that point at the same page: the exact duplicates plus
/// scheme, `www.`, fragment, tracking-parameter and parameter-order
/// differences.
#[derive(Debug, Clone, Copy)]
pub struct NearUrlDuplicatesTreatment;

impl ExactUrlDuplicatesTreatment {
    pub fn id(&self) -> (r: &'static str)
        ensures
            r@ == "structure.duplicates.exact_url"@,
    {
        "structure.duplicates.exact_url"
    }

    pub fn name(&self) -> (r: &'static str)
        ensures
            r@ == "Find exact-URL duplicate bookmarks"@,
    {
        "Find exact-URL duplicate bookmarks"
    }

    pub fn category(&self) -> (r: TreatmentCategory)
        ensures
            r == TreatmentCategory::CrossField,
    {
        TreatmentCategory::CrossField
    }

    pub fn is_destructive(&self) -> (r: bool)
        ensures
            r,
    {
        true
    }

    /// Per-node proposals: none; the work needs the whole document.
    pub fn propose(&self, node: &Node, ctx: &PassContext) -> (r: Vec<Change>)
        ensures
            r@.len() == 0,
    {
        Vec::new()
    }

    /// Delete every exact-URL duplicate but its group's keeper.
    pub fn propose_document(&self, doc: &Document, ctx: &PassContext) -> (r: Vec<Change>)
        ensures
            changes_v(r@) == duplicate_deletes(doc.root@, false, "structure.duplicates.exact_url"@),
    {
        propose_duplicates(doc, "structure.duplicates.exact_url", false)
    }
}

impl NearUrlDuplicatesTreatment {
    pub fn id(&self) -> (r: &'static str)
        ensures
            r@ == "structure.duplicates.near_url"@,
    {
        "structure.duplicates.near_url"
    }

    pub fn name(&self) -> (r: &'static str)
        ensures
            r@ == "Find near-duplicate bookmarks"@,
    {
        "Find near-duplicate bookmarks"
    }

    pub fn category(&self) -> (r: TreatmentCategory)
        ensures
            r == TreatmentCategory::CrossField,
    {
        TreatmentCategory::CrossField
    }

    pub fn is_destructive(&self) -> (r: bool)
        ensures
            r,
    {
        true
    }

    /// Per-node proposals: none; the work needs the whole document.
    pub fn propose(&self, node: &Node, ctx: &PassContext) -> (r: Vec<Change>)
        ensures
            r@.len() == 0,
    {
        Vec::new()
    }

    /// Delete every near duplicate but its group's keeper.
    pub fn propose_document(&self, doc: &Document, ctx: &PassContext) -> (r: Vec<Change>)
        ensures
            changes_v(r@) == duplicate_deletes(doc.root@, true, "structure.duplicates.near_url"@),
    {
        propose_duplicates(doc, "structure.duplicates.near_url", true)
    }
}

} // verus!

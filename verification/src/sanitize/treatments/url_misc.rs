//! Miscellaneous URL treatments.
//!
//! | ID                           | Name                                       |
//! |------------------------------|--------------------------------------------|
//! | `url.https_upgrade`          | Upgrade http → https                       |
//! | `url.strip_fragment`         | Strip URL fragment (#…)                    |
//! | `url.fragment.tracking`      | Strip tracking-only portions of a fragment |
//! | `url.path.user_segment`      | Strip user-identifying path segments       |
//! | `url.host.demobilize`        | Rewrite mobile hosts to canonical forms    |
//! | `url.host.unshorten.offline` | Flag URL-shortener hosts (detection only)  |
use vstd::prelude::*;
use crate::model::document::Field;
use crate::model::node::{BookmarkFlag, BookmarkUrl, Node, NodeId, NodeV, UrlV};
use crate::sanitize::treatment::{
    changes_v, propose_rewrite, rewrite, Change, ChangeKindV, ChangeV, PassContext, TreatmentCategory,
};
use crate::text::{
    chars_are, chars_of, eq_ic, eq_ignore_ascii_case, find_char, first_index, join_chars, join_on,
    parts_from, same_text, sub_chars,
    split_chars, split_on, split_once, string_of, vecs_v,
};
use crate::urls::{
    fragment_of, has_host, host_of, parses, path_of, scheme_of, url_fragment_of, url_has_host_of,
    url_host_of, url_path_of, url_scheme_of, url_with_fragment, url_with_host, url_with_path,
    url_with_scheme, with_fragment, with_host, with_path, with_scheme,
};

verus! {

/// The id and URL text of a bookmark whose URL parsed.
pub open spec fn valid_url(n: NodeV) -> Option<(NodeId, Seq<char>)> {
    match n {
        NodeV::Bookmark(b) => match b.url {
            UrlV::Valid(h) => Some((b.id, h)),
            UrlV::Malformed(_) => None,
        },
        _ => None,
    }
}

/// The id and URL text of `node` when it is a bookmark whose URL parsed.
pub fn valid_url_of(node: &Node) -> (r: Option<(NodeId, &str)>)
    ensures
        match valid_url(node@) {
            Some((id, h)) => r matches Some((i, x)) && i == id && x@ == h,
            None => r is None,
        },
{
    match node {
        Node::Bookmark(b) => match &b.url {
            BookmarkUrl::Valid(h) => Some((b.id, h.as_str())),
            BookmarkUrl::Malformed { .. } => None,
        },
        _ => None,
    }
}

// ---------------------------------------------------------------------------
// Upgrade http → https  (url.https_upgrade)
// ---------------------------------------------------------------------------

/// Rewrites `http://` URLs to `https://` where the scheme is the only
/// difference.  Marked destructive because a minority of sites serve
/// different content on HTTP and HTTPS.
#[derive(Debug, Clone, Copy)]
pub struct HttpsUpgradeTreatment;

/// What `HttpsUpgradeTreatment` proposes for a node.
pub open spec fn https_upgrade_v(n: NodeV) -> Seq<ChangeV> {
    match valid_url(n) {
        Some((id, h)) => if parses(h) && url_scheme_of(h) == "http"@ {
            match url_with_scheme(h, "https"@) {
                Some(a) => rewrite(id, Field::Url, h, a, "url.https_upgrade"@, "Upgraded HTTP scheme to HTTPS"@, true),
                None => Seq::empty(),
            }
        } else {
            Seq::empty()
        },
        None => Seq::empty(),
    }
}

impl HttpsUpgradeTreatment {
    pub fn id(&self) -> (r: &'static str)
        ensures
            r@ == "url.https_upgrade"@,
    {
        "url.https_upgrade"
    }

    pub fn name(&self) -> (r: &'static str)
        ensures
            r@ == "Upgrade HTTP → HTTPS"@,
    {
        "Upgrade HTTP → HTTPS"
    }

    pub fn category(&self) -> (r: TreatmentCategory)
        ensures
            r == TreatmentCategory::UrlHost,
    {
        TreatmentCategory::UrlHost
    }

    pub fn is_destructive(&self) -> (r: bool)
        ensures
            r,
    {
        true
    }

    pub fn propose(&self, node: &Node, ctx: &PassContext) -> (r: Vec<Change>)
        ensures
            changes_v(r@) == https_upgrade_v(node@),
    {
        let (id, href) = match valid_url_of(node) {
            Some(t) => t,
            None => return Vec::new(),
        };
        let scheme = match scheme_of(href) {
            Some(s) => s,
            None => return Vec::new(),
        };
        if !same_text(scheme.as_str(), "http") {
            return Vec::new();
        }
        match with_scheme(href, "https") {
            Some(after) => propose_rewrite(id, Field::Url, href, after.as_str(), "url.https_upgrade", "Upgraded HTTP scheme to HTTPS", true),
            None => Vec::new(),
        }
    }
}

// ---------------------------------------------------------------------------
// Strip URL fragment  (url.strip_fragment)
// ---------------------------------------------------------------------------

/// Removes the fragment (`#…`) component from bookmark URLs.
/// Non-destructive.
#[derive(Debug, Clone, Copy)]
pub struct StripFragmentTreatment;

/// What `StripFragmentTreatment` proposes for a node.
pub open spec fn strip_fragment_v(n: NodeV) -> Seq<ChangeV> {
    match valid_url(n) {
        Some((id, h)) => if parses(h) && url_fragment_of(h) is Some {
            rewrite(id, Field::Url, h, url_with_fragment(h, None), "url.strip_fragment"@,
                "Stripped fragment (#\u{2026}) from URL"@, false)
        } else {
            Seq::empty()
        },
        None => Seq::empty(),
    }
}

impl StripFragmentTreatment {
    pub fn id(&self) -> (r: &'static str)
        ensures
            r@ == "url.strip_fragment"@,
    {
        "url.strip_fragment"
    }

    pub fn name(&self) -> (r: &'static str)
        ensures
            r@ == "Strip URL fragment"@,
    {
        "Strip URL fragment"
    }

    pub fn category(&self) -> (r: TreatmentCategory)
        ensures
            r == TreatmentCategory::UrlFragment,
    {
        TreatmentCategory::UrlFragment
    }

    pub fn is_destructive(&self) -> (r: bool)
        ensures
            !r,
    {
        false
    }

    pub fn propose(&self, node: &Node, ctx: &PassContext) -> (r: Vec<Change>)
        ensures
            changes_v(r@) == strip_fragment_v(node@),
    {
        let (id, href) = match valid_url_of(node) {
            Some(t) => t,
            None => return Vec::new(),
        };
        match fragment_of(href) {
            Some(Some(_)) => {},
            _ => return Vec::new(),
        }
        match with_fragment(href, None) {
            Some(after) => propose_rewrite(id, Field::Url, href, after.as_str(), "url.strip_fragment",
                "Stripped fragment (#\u{2026}) from URL", false),
            None => Vec::new(),
        }
    }
}

// ---------------------------------------------------------------------------
// Flag URL-shortener hosts  (url.host.unshorten.offline)
// ---------------------------------------------------------------------------

/// Detects bookmarks whose host is a well-known URL shortener and proposes
/// flagging them.
#[derive(Debug, Clone, Copy)]
pub struct UnshortenOfflineTreatment;

/// The host is one of the known URL-shortener services (exact match, ASCII
/// case ignored).
pub open spec fn is_shortener(h: Seq<char>) -> bool {
    ||| eq_ic(h, "bit.ly"@)
    ||| eq_ic(h, "buff.ly"@)
    ||| eq_ic(h, "goo.gl"@)
    ||| eq_ic(h, "is.gd"@)
    ||| eq_ic(h, "ow.ly"@)
    ||| eq_ic(h, "rebrand.ly"@)
    ||| eq_ic(h, "rb.gy"@)
    ||| eq_ic(h, "shorturl.at"@)
    ||| eq_ic(h, "t.co"@)
    ||| eq_ic(h, "t.ly"@)
    ||| eq_ic(h, "tiny.cc"@)
    ||| eq_ic(h, "tinyurl.com"@)
    ||| eq_ic(h, "tr.im"@)
    ||| eq_ic(h, "v.gd"@)
    ||| eq_ic(h, "x.co"@)
}

/// Returns true when `host` is a known URL shortener.
///
/// Matching is exact (no subdomain stripping) and case-insensitive: a host
/// of `BIT.LY` is recognised the same as `bit.ly`.
pub fn is_known_shortener_host(host: &str) -> (r: bool)
    ensures
        r == is_shortener(host@),
{
    eq_ignore_ascii_case(host, "bit.ly") || eq_ignore_ascii_case(host, "buff.ly") || eq_ignore_ascii_case(
        host,
        "goo.gl",
    ) || eq_ignore_ascii_case(host, "is.gd") || eq_ignore_ascii_case(host, "ow.ly") || eq_ignore_ascii_case(
        host,
        "rebrand.ly",
    ) || eq_ignore_ascii_case(host, "rb.gy") || eq_ignore_ascii_case(host, "shorturl.at")
        || eq_ignore_ascii_case(host, "t.co") || eq_ignore_ascii_case(host, "t.ly") || eq_ignore_ascii_case(
        host,
        "tiny.cc",
    ) || eq_ignore_ascii_case(host, "tinyurl.com") || eq_ignore_ascii_case(host, "tr.im")
        || eq_ignore_ascii_case(host, "v.gd") || eq_ignore_ascii_case(host, "x.co")
}

/// What `UnshortenOfflineTreatment` proposes for a node.
pub open spec fn unshorten_v(n: NodeV) -> Seq<ChangeV> {
    match n {
        NodeV::Bookmark(b) => if b.is_shortener {
            Seq::empty()
        } else {
            match b.url {
                UrlV::Valid(h) => if parses(h) && (url_host_of(h) matches Some(host) && is_shortener(host)) {
                    seq![ChangeV {
                        node_id: b.id,
                        kind: ChangeKindV::SetFlag { flag: BookmarkFlag::IsShortener, before: false, after: true },
                        treatment_id: "url.host.unshorten.offline"@,
                        rationale: "Flagged as URL-shortener host"@,
                        destructive: false,
                        approved: true,
                    }]
                } else {
                    Seq::empty()
                },
                UrlV::Malformed(_) => Seq::empty(),
            }
        },
        _ => Seq::empty(),
    }
}

impl UnshortenOfflineTreatment {
    pub fn id(&self) -> (r: &'static str)
        ensures
            r@ == "url.host.unshorten.offline"@,
    {
        "url.host.unshorten.offline"
    }

    pub fn name(&self) -> (r: &'static str)
        ensures
            r@ == "Flag URL-shortener hosts"@,
    {
        "Flag URL-shortener hosts"
    }

    pub fn category(&self) -> (r: TreatmentCategory)
        ensures
            r == TreatmentCategory::UrlHost,
    {
        TreatmentCategory::UrlHost
    }

    pub fn is_destructive(&self) -> (r: bool)
        ensures
            !r,
    {
        false
    }

    pub fn propose(&self, node: &Node, ctx: &PassContext) -> (r: Vec<Change>)
        ensures
            changes_v(r@) == unshorten_v(node@),
    {
        let b = match node {
            Node::Bookmark(b) => b,
            _ => return Vec::new(),
        };
        if b.flags.is_shortener {
            return Vec::new();
        }
        let href = match &b.url {
            BookmarkUrl::Valid(h) => h.as_str(),
            BookmarkUrl::Malformed { .. } => return Vec::new(),
        };
        let known = match host_of(href) {
            Some(Some(host)) => is_known_shortener_host(host.as_str()),
            _ => false,
        };
        let mut out: Vec<Change> = Vec::new();
        if known {
            out.push(Change::set_flag(
                b.id,
                BookmarkFlag::IsShortener,
                false,
                true,
                "url.host.unshorten.offline",
                "Flagged as URL-shortener host",
            ));
        }
        proof {
            assert(changes_v(out@) =~= unshorten_v(node@));
        }
        out
    }
}

// ---------------------------------------------------------------------------
// Strip user-identifying path segments  (url.path.user_segment)
// ---------------------------------------------------------------------------

/// Strips well-known user-identifying prefixes from a URL path: `/u/<x>`,
/// `/user/<x>`, `/users/<x>` and `/@<handle>` as the first non-empty
/// segments.  Destructive: some sites need the user in their canonical URL.
#[derive(Debug, Clone, Copy)]
pub struct UserSegmentTreatment;

/// The non-empty pieces, in order.
pub open spec fn non_empty(parts: Seq<Seq<char>>) -> Seq<Seq<char>>
    decreases parts.len(),
{
    if parts.len() == 0 {
        Seq::empty()
    } else {
        let r = non_empty(parts.drop_last());
        if parts.last().len() > 0 { r.push(parts.last()) } else { r }
    }
}

/// `/` followed by the segments joined with `/`, and a trailing `/` when
/// asked; just `/` when there are no segments.
pub open spec fn rebuilt_path(segments: Seq<Seq<char>>, trailing: bool) -> Seq<char> {
    if segments.len() == 0 {
        seq!['/']
    } else {
        let body = seq!['/'] + join_on(segments, '/');
        if trailing { body.push('/') } else { body }
    }
}

/// The path without its user prefix, when it has one.
pub open spec fn strip_user_prefix_v(path: Seq<char>) -> Option<Seq<char>> {
    let segs = non_empty(split_on(path, '/'));
    let trailing = path.len() > 0 && path.last() == '/';
    if segs.len() == 0 {
        None
    } else if segs[0][0] == '@' {
        if segs[0].len() == 1 { None } else { Some(rebuilt_path(segs.skip(1), trailing)) }
    } else if (segs[0] == "u"@ || segs[0] == "user"@ || segs[0] == "users"@) && segs.len() >= 2 {
        Some(rebuilt_path(segs.skip(2), trailing))
    } else {
        None
    }
}

/// The path without its user prefix, when it has one.
fn strip_user_prefix(path: &str) -> (r: Option<String>)
    ensures
        crate::urls::opt_view(r) == strip_user_prefix_v(path@),
{
    let cs = chars_of(path);
    let parts = split_chars(&cs, '/');
    let segs = non_empty_parts(&parts);
    if segs.len() == 0 {
        return None;
    }
    let trailing = cs.len() > 0 && cs[cs.len() - 1] == '/';
    proof {
        assert(vecs_v(segs@)[0] == segs@[0]@);
        assert(segs@[0]@.len() > 0) by {
            lemma_non_empty_parts(vecs_v(parts@));
        }
    }
    let first = &segs[0];
    if first[0] == '@' {
        if first.len() == 1 {
            return None;
        }
        return Some(rebuild_path(&segs, 1, trailing));
    }
    if (chars_are(first, "u") || chars_are(first, "user") || chars_are(first, "users")) && segs.len() >= 2 {
        return Some(rebuild_path(&segs, 2, trailing));
    }
    None
}

proof fn lemma_non_empty_parts(parts: Seq<Seq<char>>)
    ensures
        forall|k: int| 0 <= k < non_empty(parts).len() ==> #[trigger] non_empty(parts)[k].len() > 0,
    decreases parts.len(),
{
    if parts.len() > 0 {
        lemma_non_empty_parts(parts.drop_last());
        let r = non_empty(parts.drop_last());
        assert forall|k: int| 0 <= k < non_empty(parts).len() implies #[trigger] non_empty(parts)[k].len() > 0 by {
            if k < r.len() {
                assert(non_empty(parts)[k] == r[k]);
            }
        }
    }
}

/// `/` followed by `segs[from..]` joined with `/`, and a trailing `/` when
/// asked; just `/` when there is nothing from `from`.
fn rebuild_path(segs: &Vec<Vec<char>>, from: usize, trailing: bool) -> (r: String)
    requires
        from <= segs.len(),
    ensures
        r@ == rebuilt_path(vecs_v(segs@).skip(from as int), trailing),
{
    let tail = parts_from(segs, from);
    let mut out: Vec<char> = Vec::new();
    out.push('/');
    if tail.len() == 0 {
        proof {
            assert(out@ =~= seq!['/']);
        }
        return string_of(out.as_slice());
    }
    let body = join_chars(&tail, '/');
    let mut k: usize = 0;
    while k < body.len()
        invariant
            k <= body.len(),
            out@ == seq!['/'] + body@.take(k as int),
        decreases body.len() - k,
    {
        out.push(body[k]);
        k += 1;
        proof {
            assert(out@ =~= seq!['/'] + body@.take(k as int));
        }
    }
    proof {
        assert(body@.take(body.len() as int) =~= body@);
    }
    if trailing {
        out.push('/');
    }
    string_of(out.as_slice())
}

fn non_empty_parts(parts: &Vec<Vec<char>>) -> (r: Vec<Vec<char>>)
    ensures
        vecs_v(r@) == non_empty(vecs_v(parts@)),
{
    let mut out: Vec<Vec<char>> = Vec::new();
    let mut k: usize = 0;
    while k < parts.len()
        invariant
            k <= parts.len(),
            vecs_v(out@) == non_empty(vecs_v(parts@).take(k as int)),
        decreases parts.len() - k,
    {
        proof {
            assert(vecs_v(parts@).take(k + 1).drop_last() =~= vecs_v(parts@).take(k as int));
        }
        if parts[k].len() > 0 {
            out.push(copy_chars(&parts[k]));
            proof {
                assert(vecs_v(out@) =~= non_empty(vecs_v(parts@).take(k as int)).push(parts@[k as int]@));
            }
        }
        k += 1;
    }
    proof {
        assert(vecs_v(parts@).take(parts.len() as int) =~= vecs_v(parts@));
    }
    out
}

/// A copy of the characters.
pub fn copy_chars(v: &Vec<char>) -> (r: Vec<char>)
    ensures
        r@ == v@,
{
    let mut out: Vec<char> = Vec::new();
    let mut k: usize = 0;
    while k < v.len()
        invariant
            k <= v.len(),
            out@ == v@.take(k as int),
        decreases v.len() - k,
    {
        out.push(v[k]);
        k += 1;
        proof {
            assert(out@ =~= v@.take(k as int));
        }
    }
    proof {
        assert(v@.take(v.len() as int) =~= v@);
    }
    out
}

/// What `UserSegmentTreatment` proposes for a node.
pub open spec fn user_segment_v(n: NodeV) -> Seq<ChangeV> {
    match valid_url(n) {
        Some((id, h)) => if parses(h) && url_has_host_of(h) {
            match strip_user_prefix_v(url_path_of(h)) {
                Some(p) => rewrite(id, Field::Url, h, url_with_path(h, p), "url.path.user_segment"@,
                    "Stripped user-identifying path segment"@, true),
                None => Seq::empty(),
            }
        } else {
            Seq::empty()
        },
        None => Seq::empty(),
    }
}

impl UserSegmentTreatment {
    pub fn id(&self) -> (r: &'static str)
        ensures
            r@ == "url.path.user_segment"@,
    {
        "url.path.user_segment"
    }

    pub fn name(&self) -> (r: &'static str)
        ensures
            r@ == "Strip user path segment"@,
    {
        "Strip user path segment"
    }

    pub fn category(&self) -> (r: TreatmentCategory)
        ensures
            r == TreatmentCategory::UrlPath,
    {
        TreatmentCategory::UrlPath
    }

    pub fn is_destructive(&self) -> (r: bool)
        ensures
            r,
    {
        true
    }

    pub fn propose(&self, node: &Node, ctx: &PassContext) -> (r: Vec<Change>)
        ensures
            changes_v(r@) == user_segment_v(node@),
    {
        let (id, href) = match valid_url_of(node) {
            Some(t) => t,
            None => return Vec::new(),
        };
        match has_host(href) {
            Some(true) => {},
            _ => return Vec::new(),
        }
        let path = match path_of(href) {
            Some(p) => p,
            None => return Vec::new(),
        };
        let trimmed = match strip_user_prefix(path.as_str()) {
            Some(p) => p,
            None => return Vec::new(),
        };
        match with_path(href, trimmed.as_str()) {
            Some(after) => propose_rewrite(id, Field::Url, href, after.as_str(), "url.path.user_segment",
                "Stripped user-identifying path segment", true),
            None => Vec::new(),
        }
    }
}

// ---------------------------------------------------------------------------
// Demobilize host  (url.host.demobilize)
// ---------------------------------------------------------------------------

/// Rewrites hosts that point at a mobile-specific subdomain to their
/// canonical desktop host: every `m`, `mobile` or `touch` label (ASCII case
/// ignored) below the last two labels is dropped, so `m.example.com` and
/// `de.m.wikipedia.org` become `example.com` and `de.wikipedia.org`; hosts
/// with fewer than three labels are left alone.  Destructive: the rewritten
/// host may serve different content.
#[derive(Debug, Clone, Copy)]
pub struct DemobilizeTreatment;

/// A label that names a mobile site.
pub open spec fn is_mobile_label(l: Seq<char>) -> bool {
    eq_ic(l, "m"@) || eq_ic(l, "mobile"@) || eq_ic(l, "touch"@)
}

/// The labels of `ls` that are not mobile ones, in order.
pub open spec fn drop_mobile(ls: Seq<Seq<char>>) -> Seq<Seq<char>>
    decreases ls.len(),
{
    if ls.len() == 0 {
        Seq::empty()
    } else {
        let head = drop_mobile(ls.drop_last());
        if is_mobile_label(ls.last()) {
            head
        } else {
            head.push(ls.last())
        }
    }
}

/// The desktop form of a host: its mobile labels below the last two
/// dropped, when there is one to drop.
pub open spec fn demobilize_v(host: Seq<char>) -> Option<Seq<char>> {
    let labels = split_on(host, '.');
    if labels.len() < 3 {
        None
    } else {
        let sub = labels.take(labels.len() - 2);
        let kept = drop_mobile(sub);
        if kept.len() == sub.len() {
            None
        } else {
            Some(join_on(kept + labels.skip(labels.len() - 2), '.'))
        }
    }
}

proof fn lemma_drop_mobile_len(ls: Seq<Seq<char>>)
    ensures
        drop_mobile(ls).len() <= ls.len(),
    decreases ls.len(),
{
    if ls.len() > 0 {
        lemma_drop_mobile_len(ls.drop_last());
    }
}

/// The desktop form of `host`, or `None` if there is no mobile label to
/// strip.
pub fn demobilize_host(host: &str) -> (r: Option<String>)
    ensures
        crate::urls::opt_view(r) == demobilize_v(host@),
{
    let cs = chars_of(host);
    let labels = split_chars(&cs, '.');
    let ghost lv = vecs_v(labels@);
    if labels.len() < 3 {
        return None;
    }
    let n = labels.len() - 2;
    let mut kept: Vec<Vec<char>> = Vec::new();
    let mut i: usize = 0;
    while i < n
        invariant
            n == labels.len() - 2,
            labels.len() >= 3,
            lv == vecs_v(labels@),
            i <= n,
            vecs_v(kept@) == drop_mobile(lv.take(i as int)),
        decreases n - i,
    {
        let l = string_of(labels[i].as_slice());
        proof {
            assert(lv[i as int] == labels@[i as int]@);
            assert(lv.take(i + 1).drop_last() =~= lv.take(i as int));
            assert(lv.take(i + 1).last() == lv[i as int]);
        }
        if !(eq_ignore_ascii_case(l.as_str(), "m") || eq_ignore_ascii_case(l.as_str(), "mobile")
            || eq_ignore_ascii_case(l.as_str(), "touch")) {
            let ghost before = kept@;
            let copy = sub_chars(&labels[i], 0, labels[i].len());
            kept.push(copy);
            proof {
                assert(labels@[i as int]@.subrange(0, labels@[i as int]@.len() as int) =~= labels@[i as int]@);
                assert(vecs_v(kept@) =~= vecs_v(before).push(lv[i as int]));
            }
        }
        i += 1;
    }
    proof {
        lemma_drop_mobile_len(lv.take(n as int));
    }
    if kept.len() == n {
        return None;
    }
    let ghost mid = kept@;
    let a = sub_chars(&labels[n], 0, labels[n].len());
    kept.push(a);
    let b = sub_chars(&labels[n + 1], 0, labels[n + 1].len());
    kept.push(b);
    proof {
        assert(labels@[n as int]@.subrange(0, labels@[n as int]@.len() as int) =~= labels@[n as int]@);
        assert(labels@[n + 1]@.subrange(0, labels@[n + 1]@.len() as int) =~= labels@[n + 1]@);
        assert(lv.skip(n as int) =~= seq![lv[n as int], lv[n + 1]]);
        assert(vecs_v(kept@) =~= vecs_v(mid) + lv.skip(lv.len() - 2));
    }
    let joined = join_chars(&kept, '.');
    Some(string_of(joined.as_slice()))
}

/// What `DemobilizeTreatment` proposes for a node.
pub open spec fn demobilize_treatment_v(n: NodeV) -> Seq<ChangeV> {
    match valid_url(n) {
        Some((id, h)) => if parses(h) && (url_host_of(h) matches Some(host) && demobilize_v(host) is Some) {
            match url_with_host(h, demobilize_v(url_host_of(h)->0)->0) {
                Some(a) => rewrite(id, Field::Url, h, a, "url.host.demobilize"@,
                    "Rewrote mobile-specific host to canonical form"@, true),
                None => Seq::empty(),
            }
        } else {
            Seq::empty()
        },
        None => Seq::empty(),
    }
}

impl DemobilizeTreatment {
    pub fn id(&self) -> (r: &'static str)
        ensures
            r@ == "url.host.demobilize"@,
    {
        "url.host.demobilize"
    }

    pub fn name(&self) -> (r: &'static str)
        ensures
            r@ == "Demobilize host"@,
    {
        "Demobilize host"
    }

    pub fn category(&self) -> (r: TreatmentCategory)
        ensures
            r == TreatmentCategory::UrlHost,
    {
        TreatmentCategory::UrlHost
    }

    pub fn is_destructive(&self) -> (r: bool)
        ensures
            r,
    {
        true
    }

    pub fn propose(&self, node: &Node, ctx: &PassContext) -> (r: Vec<Change>)
        ensures
            changes_v(r@) == demobilize_treatment_v(node@),
    {
        let (id, href) = match valid_url_of(node) {
            Some(t) => t,
            None => return Vec::new(),
        };
        let host = match host_of(href) {
            Some(Some(h)) => h,
            _ => return Vec::new(),
        };
        let new_host = match demobilize_host(host.as_str()) {
            Some(h) => h,
            None => return Vec::new(),
        };
        match with_host(href, new_host.as_str()) {
            Some(after) => propose_rewrite(id, Field::Url, href, after.as_str(), "url.host.demobilize",
                "Rewrote mobile-specific host to canonical form", true),
            None => Vec::new(),
        }
    }
}

// ---------------------------------------------------------------------------
// Strip tracking fragment  (url.fragment.tracking)
// ---------------------------------------------------------------------------

/// Strips tracking-style `key=value` pairs from a URL fragment while
/// leaving genuine anchor fragments alone: when the entire fragment is
/// tracking it is removed, otherwise only the tracking pairs are dropped.
#[derive(Debug, Clone, Copy)]
pub struct FragmentTrackingTreatment;

/// Fragment keys considered pure tracking: the `utm_` namespace, the
/// cross-platform click ids and generic referral keys.
pub open spec fn is_tracking_key(k: Seq<char>) -> bool {
    ||| (k.len() >= 4 && k[0] == 'u' && k[1] == 't' && k[2] == 'm' && k[3] == '_')
    ||| k == "fbclid"@
    ||| k == "gclid"@
    ||| k == "dclid"@
    ||| k == "msclkid"@
    ||| k == "yclid"@
    ||| k == "ttclid"@
    ||| k == "twclid"@
    ||| k == "igshid"@
    ||| k == "mc_eid"@
    ||| k == "mc_cid"@
    ||| k == "wbraid"@
    ||| k == "gbraid"@
    ||| k == "referrer"@
    ||| k == "referral"@
}

/// The `key=value` pieces (split at their first `=`), in order; pieces
/// without `=` are left out.
pub open spec fn kv_pairs(parts: Seq<Seq<char>>) -> Seq<(Seq<char>, Seq<char>)>
    decreases parts.len(),
{
    if parts.len() == 0 {
        Seq::empty()
    } else {
        let r = kv_pairs(parts.drop_last());
        match split_once(parts.last(), '=') {
            Some(p) => r.push(p),
            None => r,
        }
    }
}

/// The pairs whose key is not a tracking key, in order.
pub open spec fn untracked(ps: Seq<(Seq<char>, Seq<char>)>) -> Seq<(Seq<char>, Seq<char>)>
    decreases ps.len(),
{
    if ps.len() == 0 {
        Seq::empty()
    } else {
        let r = untracked(ps.drop_last());
        if is_tracking_key(ps.last().0) { r } else { r.push(ps.last()) }
    }
}

/// Each pair written as `key=value`.
pub open spec fn pair_texts(ps: Seq<(Seq<char>, Seq<char>)>) -> Seq<Seq<char>> {
    ps.map_values(|p: (Seq<char>, Seq<char>)| p.0.push('=') + p.1)
}

/// The fragment with its tracking pairs removed (`None`: no fragment left),
/// or `None` at the outer level when there is nothing to remove.
pub open spec fn untracked_fragment(f: Seq<char>) -> Option<Option<Seq<char>>> {
    let pairs = kv_pairs(split_on(f, '&'));
    let kept = untracked(pairs);
    if f.len() == 0 || pairs.len() == 0 || kept.len() == pairs.len() {
        None
    } else if kept.len() == 0 {
        Some(None)
    } else {
        Some(Some(join_on(pair_texts(kept), '&')))
    }
}

/// What `FragmentTrackingTreatment` proposes for a node.
pub open spec fn fragment_tracking_v(n: NodeV) -> Seq<ChangeV> {
    match valid_url(n) {
        Some((id, h)) => if parses(h) && (url_fragment_of(h) matches Some(f) && untracked_fragment(f) is Some) {
            rewrite(id, Field::Url, h, url_with_fragment(h, untracked_fragment(url_fragment_of(h)->0)->0),
                "url.fragment.tracking"@, "Stripped tracking parameters from URL fragment"@, false)
        } else {
            Seq::empty()
        },
        None => Seq::empty(),
    }
}

/// Whether `k` is a tracking key.
fn is_tracking_fragment_key(k: &Vec<char>) -> (r: bool)
    ensures
        r == is_tracking_key(k@),
{
    (k.len() >= 4 && k[0] == 'u' && k[1] == 't' && k[2] == 'm' && k[3] == '_') || chars_are(k, "fbclid")
        || chars_are(k, "gclid") || chars_are(k, "dclid") || chars_are(k, "msclkid") || chars_are(k, "yclid")
        || chars_are(k, "ttclid") || chars_are(k, "twclid") || chars_are(k, "igshid") || chars_are(k, "mc_eid")
        || chars_are(k, "mc_cid") || chars_are(k, "wbraid") || chars_are(k, "gbraid") || chars_are(k, "referrer")
        || chars_are(k, "referral")
}

/// The view of a list of character-vector pairs.
pub open spec fn kv_v(v: Seq<(Vec<char>, Vec<char>)>) -> Seq<(Seq<char>, Seq<char>)> {
    v.map_values(|p: (Vec<char>, Vec<char>)| (p.0@, p.1@))
}

/// The fragment `f` with its tracking pairs removed; see
/// [`untracked_fragment`].
fn strip_tracking_pairs(f: &str) -> (r: Option<Option<String>>)
    ensures
        match untracked_fragment(f@) {
            None => r is None,
            Some(None) => r matches Some(None),
            Some(Some(t)) => r matches Some(Some(x)) && x@ == t,
        },
{
    let cs = chars_of(f);
    if cs.len() == 0 {
        return None;
    }
    let parts = split_chars(&cs, '&');
    let ghost pv = vecs_v(parts@);
    let mut pairs: Vec<(Vec<char>, Vec<char>)> = Vec::new();
    let mut k: usize = 0;
    while k < parts.len()
        invariant
            pv == vecs_v(parts@),
            k <= parts.len(),
            kv_v(pairs@) == kv_pairs(pv.take(k as int)),
        decreases parts.len() - k,
    {
        let part = &parts[k];
        proof {
            assert(pv[k as int] == parts@[k as int]@);
            assert(pv.take(k + 1).drop_last() =~= pv.take(k as int));
            assert(pv.take(k + 1).last() == part@);
        }
        match find_char(part, '=') {
            Some(i) => {
                let key = sub_chars(part, 0, i);
                let value = sub_chars(part, i + 1, part.len());
                let ghost before = kv_v(pairs@);
                pairs.push((key, value));
                proof {
                    assert(part@.take(i as int) =~= part@.subrange(0, i as int));
                    assert(part@.skip(i + 1) =~= part@.subrange(i + 1, part@.len() as int));
                    assert(kv_v(pairs@) =~= before.push((part@.take(i as int), part@.skip(i + 1))));
                    assert(kv_v(pairs@) == kv_pairs(pv.take(k + 1)));
                }
            },
            None => {
                proof {
                    assert(kv_v(pairs@) == kv_pairs(pv.take(k + 1)));
                }
            },
        }
        k += 1;
    }
    proof {
        assert(pv.take(parts.len() as int) =~= pv);
    }
    if pairs.len() == 0 {
        return None;
    }
    let mut kept: Vec<Vec<char>> = Vec::new();
    let ghost pvv = kv_v(pairs@);
    let mut k: usize = 0;
    while k < pairs.len()
        invariant
            pvv == kv_v(pairs@),
            k <= pairs.len(),
            vecs_v(kept@) == pair_texts(untracked(pvv.take(k as int))),
            kept.len() == untracked(pvv.take(k as int)).len(),
        decreases pairs.len() - k,
    {
        let (key, value) = (&pairs[k].0, &pairs[k].1);
        proof {
            assert(pvv.take(k + 1).drop_last() =~= pvv.take(k as int));
            assert(pvv.take(k + 1).last() == (key@, value@));
        }
        if !is_tracking_fragment_key(key) {
            let mut text = sub_chars(key, 0, key.len());
            text.push('=');
            let mut j: usize = 0;
            let ghost head = text@;
            while j < value.len()
                invariant
                    j <= value.len(),
                    text@ == head + value@.take(j as int),
                decreases value.len() - j,
            {
                text.push(value[j]);
                j += 1;
                proof {
                    assert(text@ =~= head + value@.take(j as int));
                }
            }
            let ghost before = vecs_v(kept@);
            kept.push(text);
            proof {
                assert(key@.subrange(0, key@.len() as int) =~= key@);
                assert(value@.take(value.len() as int) =~= value@);
                let u = untracked(pvv.take(k as int));
                assert(pair_texts(u.push((key@, value@))) =~= pair_texts(u).push(key@.push('=') + value@));
                assert(vecs_v(kept@) =~= before.push(key@.push('=') + value@));
            }
        }
        k += 1;
    }
    proof {
        assert(pvv.take(pairs.len() as int) =~= pvv);
    }
    if kept.len() == pairs.len() {
        return None;
    }
    if kept.len() == 0 {
        return Some(None);
    }
    let joined = join_chars(&kept, '&');
    Some(Some(string_of(joined.as_slice())))
}

impl FragmentTrackingTreatment {
    pub fn id(&self) -> (r: &'static str)
        ensures
            r@ == "url.fragment.tracking"@,
    {
        "url.fragment.tracking"
    }

    pub fn name(&self) -> (r: &'static str)
        ensures
            r@ == "Strip tracking from fragment"@,
    {
        "Strip tracking from fragment"
    }

    pub fn category(&self) -> (r: TreatmentCategory)
        ensures
            r == TreatmentCategory::UrlFragment,
    {
        TreatmentCategory::UrlFragment
    }

    pub fn is_destructive(&self) -> (r: bool)
        ensures
            !r,
    {
        false
    }

    pub fn propose(&self, node: &Node, ctx: &PassContext) -> (r: Vec<Change>)
        ensures
            changes_v(r@) == fragment_tracking_v(node@),
    {
        let (id, href) = match valid_url_of(node) {
            Some(t) => t,
            None => return Vec::new(),
        };
        let fragment = match fragment_of(href) {
            Some(Some(f)) => f,
            _ => return Vec::new(),
        };
        let updated = match strip_tracking_pairs(fragment.as_str()) {
            Some(u) => u,
            None => return Vec::new(),
        };
        let after = match &updated {
            Some(t) => with_fragment(href, Some(t.as_str())),
            None => with_fragment(href, None),
        };
        match after {
            Some(a) => propose_rewrite(id, Field::Url, href, a.as_str(), "url.fragment.tracking",
                "Stripped tracking parameters from URL fragment", false),
            None => Vec::new(),
        }
    }
}

} // verus!

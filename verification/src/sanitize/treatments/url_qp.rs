//! URL query-parameter treatments.
//!
//! | ID                     | Name                              |
//! |------------------------|-----------------------------------|
//! | `url.qp.utm`           | Strip UTM params                  |
//! | `url.qp.click_ids`     | Strip click IDs                   |
//! | `url.qp.session`       | Strip generic session params      |
//! | `url.qp.affiliate`     | Strip affiliate-network params    |
//! | `url.qp.search_tokens` | Strip search-engine noise params  |
//! | `url.qp.custom`        | Strip user-supplied params        |
//!
//! All of these are non-destructive (they only remove tracking and session
//! noise) and are therefore auto-approved in the preview panel.
use vstd::prelude::*;
use crate::model::document::Field;
use crate::model::node::{Node, NodeV};
use crate::sanitize::treatment::{changes_v, propose_rewrite, rewrite, Change, ChangeV, PassContext, TreatmentCategory};
use crate::sanitize::treatments::url_misc::{valid_url, valid_url_of};
use crate::text::{
    chars_of, eq_ic, eq_ignore_ascii_case, has_prefix, join_chars, same_text, split_chars, split_on,
    starts_with, string_of, vecs_v,
};
use crate::urls::{
    host_of, pairs_view, parses, query_pairs_of, url_host_of, url_query_pairs_of, url_with_query_pairs,
    url_without_query, with_query_pairs, without_query,
};

verus! {

// ---------------------------------------------------------------------------
// Parameter lists
// ---------------------------------------------------------------------------

/// A cross-platform click-id parameter.
pub open spec fn is_click_id(n: Seq<char>) -> bool {
    ||| n == "fbclid"@ ||| n == "gclid"@ ||| n == "dclid"@ ||| n == "msclkid"@
    ||| n == "yclid"@ ||| n == "ttclid"@ ||| n == "twclid"@ ||| n == "igshid"@
    ||| n == "mc_eid"@ ||| n == "mc_cid"@ ||| n == "wbraid"@ ||| n == "gbraid"@
}

/// A tracking parameter (`utm_*` or a known click id): removing it never
/// changes which page a URL points at.
pub open spec fn is_tracking_param_v(n: Seq<char>) -> bool {
    has_prefix(n, "utm_"@) || is_click_id(n)
}

/// A generic server-side session parameter.
pub open spec fn is_session_param(n: Seq<char>) -> bool {
    ||| n == "sid"@ ||| n == "session"@ ||| n == "sessionid"@ ||| n == "phpsessid"@
    ||| n == "jsessionid"@ ||| has_prefix(n, "aspsessionid"@)
}

/// An Amazon affiliate / tracking parameter.
pub open spec fn is_amazon_param(n: Seq<char>) -> bool {
    ||| n == "tag"@ ||| n == "linkCode"@ ||| n == "camp"@ ||| n == "creative"@
    ||| n == "creativeASIN"@ ||| n == "ascsubtag"@ ||| n == "asc_campaign"@ ||| n == "asc_refurl"@
    ||| n == "asc_source"@ ||| n == "smid"@ ||| n == "psc"@ ||| n == "ref_"@
    ||| n == "pd_rd_r"@ ||| n == "pd_rd_w"@ ||| n == "pd_rd_wg"@ ||| n == "pf_rd_i"@
    ||| n == "pf_rd_m"@ ||| n == "pf_rd_p"@ ||| n == "pf_rd_r"@ ||| n == "pf_rd_s"@
    ||| n == "pf_rd_t"@ ||| n == "_encoding"@
}

/// An eBay affiliate / tracking parameter.
pub open spec fn is_ebay_param(n: Seq<char>) -> bool {
    ||| n == "mkcid"@ ||| n == "mkrid"@ ||| n == "campid"@ ||| n == "toolid"@
    ||| n == "customid"@ ||| n == "mkevt"@ ||| n == "_trksid"@ ||| n == "_trkparms"@
}

/// A generic affiliate parameter used by smaller networks.
pub open spec fn is_generic_affiliate_param(n: Seq<char>) -> bool {
    ||| n == "affid"@ ||| n == "affiliate"@ ||| n == "affiliate_id"@ ||| n == "affiliateid"@
    ||| n == "aff"@ ||| n == "aff_id"@ ||| n == "partner"@ ||| n == "partner_id"@
    ||| n == "partnerid"@ ||| n == "referrer"@ ||| n == "referral"@ ||| n == "refsrc"@
    ||| n == "ref_src"@ ||| n == "irclickid"@ ||| n == "irgwc"@ ||| n == "impactradius"@
    ||| n == "skimlinks"@ ||| n == "skim"@ ||| n == "sscid"@
}

/// A Google result-tracking parameter (`q` is not one).
pub open spec fn is_google_param(n: Seq<char>) -> bool {
    ||| n == "ved"@ ||| n == "ei"@ ||| n == "oq"@ ||| n == "gs_lcp"@ ||| n == "gs_rn"@
    ||| n == "sourceid"@ ||| n == "rlz"@ ||| n == "aqs"@ ||| n == "biw"@ ||| n == "bih"@
    ||| n == "bvm"@ ||| n == "source"@ ||| n == "sa"@ ||| n == "sca_esv"@ ||| n == "sxsrf"@
    ||| n == "usg"@ ||| n == "uact"@ ||| n == "cd"@ ||| n == "cad"@ ||| n == "iflsig"@
    ||| n == "hl"@
}

/// A Bing result-tracking parameter.
pub open spec fn is_bing_param(n: Seq<char>) -> bool {
    ||| n == "qs"@ ||| n == "form"@ ||| n == "sp"@ ||| n == "pq"@ ||| n == "sc"@ ||| n == "sk"@
    ||| n == "cvid"@ ||| n == "ghsh"@ ||| n == "ghacc"@ ||| n == "ghpl"@ ||| n == "first"@
    ||| n == "FORM"@
}

/// A DuckDuckGo result-tracking parameter.
pub open spec fn is_ddg_param(n: Seq<char>) -> bool {
    ||| n == "atb"@ ||| n == "t"@ ||| n == "ia"@ ||| n == "iax"@ ||| n == "iar"@
    ||| n == "iaxm"@ ||| n == "ko"@ ||| n == "kl"@ ||| n == "kd"@ ||| n == "kp"@
}

/// Some dot-separated label of `host` is `label`, ASCII case ignored.
pub open spec fn has_label(host: Seq<char>, label: Seq<char>) -> bool {
    exists|i: int| 0 <= i < split_on(host, '.').len() && eq_ic(#[trigger] split_on(host, '.')[i], label)
}

fn is_click_id_param(n: &str) -> (r: bool)
    ensures
        r == is_click_id(n@),
{
    same_text(n, "fbclid") || same_text(n, "gclid") || same_text(n, "dclid") || same_text(n, "msclkid")
        || same_text(n, "yclid") || same_text(n, "ttclid") || same_text(n, "twclid") || same_text(n, "igshid")
        || same_text(n, "mc_eid") || same_text(n, "mc_cid") || same_text(n, "wbraid") || same_text(n, "gbraid")
}

/// Whether `name` is a tracking parameter (`utm_*` or a known click id).
pub fn is_tracking_param(name: &str) -> (r: bool)
    ensures
        r == is_tracking_param_v(name@),
{
    starts_with(name, "utm_") || is_click_id_param(name)
}

fn session_param(n: &str) -> (r: bool)
    ensures
        r == is_session_param(n@),
{
    same_text(n, "sid") || same_text(n, "session") || same_text(n, "sessionid") || same_text(n, "phpsessid")
        || same_text(n, "jsessionid") || starts_with(n, "aspsessionid")
}

fn amazon_param(n: &str) -> (r: bool)
    ensures
        r == is_amazon_param(n@),
{
    same_text(n, "tag") || same_text(n, "linkCode") || same_text(n, "camp") || same_text(n, "creative")
        || same_text(n, "creativeASIN") || same_text(n, "ascsubtag") || same_text(n, "asc_campaign")
        || same_text(n, "asc_refurl") || same_text(n, "asc_source") || same_text(n, "smid") || same_text(n, "psc")
        || same_text(n, "ref_") || same_text(n, "pd_rd_r") || same_text(n, "pd_rd_w") || same_text(n, "pd_rd_wg")
        || same_text(n, "pf_rd_i") || same_text(n, "pf_rd_m") || same_text(n, "pf_rd_p") || same_text(n, "pf_rd_r")
        || same_text(n, "pf_rd_s") || same_text(n, "pf_rd_t") || same_text(n, "_encoding")
}

fn ebay_param(n: &str) -> (r: bool)
    ensures
        r == is_ebay_param(n@),
{
    same_text(n, "mkcid") || same_text(n, "mkrid") || same_text(n, "campid") || same_text(n, "toolid")
        || same_text(n, "customid") || same_text(n, "mkevt") || same_text(n, "_trksid") || same_text(n, "_trkparms")
}

fn generic_affiliate_param(n: &str) -> (r: bool)
    ensures
        r == is_generic_affiliate_param(n@),
{
    same_text(n, "affid") || same_text(n, "affiliate") || same_text(n, "affiliate_id") || same_text(n, "affiliateid")
        || same_text(n, "aff") || same_text(n, "aff_id") || same_text(n, "partner") || same_text(n, "partner_id")
        || same_text(n, "partnerid") || same_text(n, "referrer") || same_text(n, "referral") || same_text(n, "refsrc")
        || same_text(n, "ref_src") || same_text(n, "irclickid") || same_text(n, "irgwc") || same_text(n, "impactradius")
        || same_text(n, "skimlinks") || same_text(n, "skim") || same_text(n, "sscid")
}

fn google_param(n: &str) -> (r: bool)
    ensures
        r == is_google_param(n@),
{
    same_text(n, "ved") || same_text(n, "ei") || same_text(n, "oq") || same_text(n, "gs_lcp") || same_text(n, "gs_rn")
        || same_text(n, "sourceid") || same_text(n, "rlz") || same_text(n, "aqs") || same_text(n, "biw")
        || same_text(n, "bih") || same_text(n, "bvm") || same_text(n, "source") || same_text(n, "sa")
        || same_text(n, "sca_esv") || same_text(n, "sxsrf") || same_text(n, "usg") || same_text(n, "uact")
        || same_text(n, "cd") || same_text(n, "cad") || same_text(n, "iflsig") || same_text(n, "hl")
}

fn bing_param(n: &str) -> (r: bool)
    ensures
        r == is_bing_param(n@),
{
    same_text(n, "qs") || same_text(n, "form") || same_text(n, "sp") || same_text(n, "pq") || same_text(n, "sc")
        || same_text(n, "sk") || same_text(n, "cvid") || same_text(n, "ghsh") || same_text(n, "ghacc")
        || same_text(n, "ghpl") || same_text(n, "first") || same_text(n, "FORM")
}

fn ddg_param(n: &str) -> (r: bool)
    ensures
        r == is_ddg_param(n@),
{
    same_text(n, "atb") || same_text(n, "t") || same_text(n, "ia") || same_text(n, "iax") || same_text(n, "iar")
        || same_text(n, "iaxm") || same_text(n, "ko") || same_text(n, "kl") || same_text(n, "kd") || same_text(n, "kp")
}

/// Whether some dot-separated label of `host` is `label`, ASCII case
/// ignored.
fn host_has_label(host: &str, label: &str) -> (r: bool)
    ensures
        r == has_label(host@, label@),
{
    let cs = chars_of(host);
    let labels = split_chars(&cs, '.');
    let mut i: usize = 0;
    while i < labels.len()
        invariant
            cs@ == host@,
            vecs_v(labels@) == split_on(host@, '.'),
            i <= labels.len(),
            forall|k: int| 0 <= k < i ==> !eq_ic(#[trigger] split_on(host@, '.')[k], label@),
        decreases labels.len() - i,
    {
        let l = string_of(labels[i].as_slice());
        proof {
            assert(vecs_v(labels@)[i as int] == labels@[i as int]@);
        }
        if eq_ignore_ascii_case(l.as_str(), label) {
            return true;
        }
        i += 1;
    }
    false
}

// ---------------------------------------------------------------------------
// The stripping engine
// ---------------------------------------------------------------------------

/// Which parameters a query-parameter treatment removes.
#[derive(Debug, Clone, Copy, PartialEq, Eq, Structural)]
pub enum QpRule {
    Utm,
    ClickIds,
    Session,
    Affiliate,
    SearchTokens,
    Custom,
}

/// Whether `rule` removes parameter `name` on a URL whose host is `host`
/// (empty when it has none); `names` is the custom list.
pub open spec fn strips(rule: QpRule, names: Seq<String>, host: Seq<char>, name: Seq<char>) -> bool {
    match rule {
        QpRule::Utm => has_prefix(name, "utm_"@),
        QpRule::ClickIds => is_click_id(name),
        QpRule::Session => is_session_param(name),
        QpRule::Affiliate => (has_label(host, "amazon"@) && is_amazon_param(name)) || (has_label(host, "ebay"@)
            && is_ebay_param(name)) || is_generic_affiliate_param(name),
        QpRule::SearchTokens => (has_label(host, "google"@) && is_google_param(name)) || (has_label(host, "bing"@)
            && is_bing_param(name)) || (has_label(host, "duckduckgo"@) && is_ddg_param(name)),
        QpRule::Custom => exists|k: int| 0 <= k < names.len() && #[trigger] names[k]@ == name,
    }
}

/// The pairs `rule` keeps, in order.
pub open spec fn kept_pairs(
    ps: Seq<(Seq<char>, Seq<char>)>,
    rule: QpRule,
    names: Seq<String>,
    host: Seq<char>,
) -> Seq<(Seq<char>, Seq<char>)>
    decreases ps.len(),
{
    if ps.len() == 0 {
        Seq::empty()
    } else {
        let r = kept_pairs(ps.drop_last(), rule, names, host);
        if strips(rule, names, host, ps.last().0) { r } else { r.push(ps.last()) }
    }
}

/// The host of a URL text, empty when it has none.
pub open spec fn host_or_empty(h: Seq<char>) -> Seq<char> {
    match url_host_of(h) {
        Some(x) => x,
        None => Seq::empty(),
    }
}

/// What a query-parameter treatment proposes for a node: when `rule`
/// removes some parameter, the URL with only the kept pairs (re-serialized
/// in order), or without a query when none is kept.
pub open spec fn strip_v(n: NodeV, rule: QpRule, names: Seq<String>, tid: Seq<char>, why: Seq<char>) -> Seq<ChangeV> {
    match valid_url(n) {
        Some((id, h)) => if parses(h) {
            let ps = url_query_pairs_of(h);
            let kept = kept_pairs(ps, rule, names, host_or_empty(h));
            if kept.len() == ps.len() {
                Seq::empty()
            } else if kept.len() == 0 {
                rewrite(id, Field::Url, h, url_without_query(h), tid, why, false)
            } else {
                rewrite(id, Field::Url, h, url_with_query_pairs(h, kept), tid, why, false)
            }
        } else {
            Seq::empty()
        },
        None => Seq::empty(),
    }
}

fn in_names(names: &Vec<String>, name: &str) -> (r: bool)
    ensures
        r == exists|k: int| 0 <= k < names.len() && #[trigger] names@[k]@ == name@,
{
    let mut i: usize = 0;
    while i < names.len()
        invariant
            i <= names.len(),
            forall|k: int| 0 <= k < i ==> #[trigger] names@[k]@ != name@,
        decreases names.len() - i,
    {
        if same_text(names[i].as_str(), name) {
            return true;
        }
        i += 1;
    }
    false
}

/// Whether `rule` removes `name` on a URL with host `host`.
fn should_strip(rule: QpRule, names: &Vec<String>, host: &str, name: &str) -> (r: bool)
    ensures
        r == strips(rule, names@, host@, name@),
{
    match rule {
        QpRule::Utm => starts_with(name, "utm_"),
        QpRule::ClickIds => is_click_id_param(name),
        QpRule::Session => session_param(name),
        QpRule::Affiliate => (host_has_label(host, "amazon") && amazon_param(name)) || (host_has_label(host, "ebay")
            && ebay_param(name)) || generic_affiliate_param(name),
        QpRule::SearchTokens => (host_has_label(host, "google") && google_param(name)) || (host_has_label(
            host,
            "bing",
        ) && bing_param(name)) || (host_has_label(host, "duckduckgo") && ddg_param(name)),
        QpRule::Custom => in_names(names, name),
    }
}

/// Propose removing the query parameters `rule` matches from `node`'s URL.
fn strip_matching(node: &Node, rule: QpRule, names: &Vec<String>, tid: &str, why: &str) -> (r: Vec<Change>)
    ensures
        changes_v(r@) == strip_v(node@, rule, names@, tid@, why@),
{
    let (id, href) = match valid_url_of(node) {
        Some(t) => t,
        None => return Vec::new(),
    };
    let pairs = match query_pairs_of(href) {
        Some(p) => p,
        None => return Vec::new(),
    };
    let host = match host_of(href) {
        Some(Some(h)) => h,
        _ => String::new(),
    };
    let ghost ps = pairs_view(pairs@);
    let mut kept: Vec<(String, String)> = Vec::new();
    let mut k: usize = 0;
    while k < pairs.len()
        invariant
            ps == pairs_view(pairs@),
            host@ == host_or_empty(href@),
            k <= pairs.len(),
            pairs_view(kept@) == kept_pairs(ps.take(k as int), rule, names@, host@),
        decreases pairs.len() - k,
    {
        proof {
            assert(ps.take(k + 1).drop_last() =~= ps.take(k as int));
            assert(ps.take(k + 1).last() == (pairs@[k as int].0@, pairs@[k as int].1@));
        }
        let strip = should_strip(rule, names, host.as_str(), pairs[k].0.as_str());
        if !strip {
            let ghost before = pairs_view(kept@);
            let key = pairs[k].0.clone();
            let value = pairs[k].1.clone();
            kept.push((key, value));
            proof {
                assert(pairs_view(kept@) =~= before.push((pairs@[k as int].0@, pairs@[k as int].1@)));
            }
        }
        k += 1;
    }
    proof {
        assert(ps.take(pairs.len() as int) =~= ps);
    }
    if kept.len() == pairs.len() {
        return Vec::new();
    }
    let after = if kept.len() == 0 {
        without_query(href)
    } else {
        with_query_pairs(href, &kept)
    };
    match after {
        Some(a) => propose_rewrite(id, Field::Url, href, a.as_str(), tid, why, false),
        None => Vec::new(),
    }
}

// ---------------------------------------------------------------------------
// The treatments
// ---------------------------------------------------------------------------

/// Removes every query parameter whose name starts with `utm_`.
#[derive(Debug, Clone, Copy)]
pub struct UtmTreatment;

impl UtmTreatment {
    pub fn id(&self) -> (r: &'static str)
        ensures
            r@ == "url.qp.utm"@,
    {
        "url.qp.utm"
    }

    pub fn name(&self) -> (r: &'static str)
        ensures
            r@ == "Strip UTM params"@,
    {
        "Strip UTM params"
    }

    pub fn category(&self) -> (r: TreatmentCategory)
        ensures
            r == TreatmentCategory::UrlQueryParam,
    {
        TreatmentCategory::UrlQueryParam
    }

    pub fn is_destructive(&self) -> (r: bool)
        ensures
            !r,
    {
        false
    }

    pub fn propose(&self, node: &Node, ctx: &PassContext) -> (r: Vec<Change>)
        ensures
            changes_v(r@) == strip_v(node@, QpRule::Utm, Seq::empty(), "url.qp.utm"@, "Stripped UTM tracking parameters"@),
    {
        let none: Vec<String> = Vec::new();
        strip_matching(node, QpRule::Utm, &none, "url.qp.utm", "Stripped UTM tracking parameters")
    }
}

/// Removes well-known cross-platform click-id parameters.
#[derive(Debug, Clone, Copy)]
pub struct ClickIdsTreatment;

impl ClickIdsTreatment {
    pub fn id(&self) -> (r: &'static str)
        ensures
            r@ == "url.qp.click_ids"@,
    {
        "url.qp.click_ids"
    }

    pub fn name(&self) -> (r: &'static str)
        ensures
            r@ == "Strip click IDs"@,
    {
        "Strip click IDs"
    }

    pub fn category(&self) -> (r: TreatmentCategory)
        ensures
            r == TreatmentCategory::UrlQueryParam,
    {
        TreatmentCategory::UrlQueryParam
    }

    pub fn is_destructive(&self) -> (r: bool)
        ensures
            !r,
    {
        false
    }

    pub fn propose(&self, node: &Node, ctx: &PassContext) -> (r: Vec<Change>)
        ensures
            changes_v(r@) == strip_v(node@, QpRule::ClickIds, Seq::empty(), "url.qp.click_ids"@,
                "Stripped ad-network click-ID parameter"@),
    {
        let none: Vec<String> = Vec::new();
        strip_matching(node, QpRule::ClickIds, &none, "url.qp.click_ids", "Stripped ad-network click-ID parameter")
    }
}

/// Removes generic server-side session identifier parameters.
#[derive(Debug, Clone, Copy)]
pub struct SessionTreatment;

impl SessionTreatment {
    pub fn id(&self) -> (r: &'static str)
        ensures
            r@ == "url.qp.session"@,
    {
        "url.qp.session"
    }

    pub fn name(&self) -> (r: &'static str)
        ensures
            r@ == "Strip generic session params"@,
    {
        "Strip generic session params"
    }

    pub fn category(&self) -> (r: TreatmentCategory)
        ensures
            r == TreatmentCategory::UrlQueryParam,
    {
        TreatmentCategory::UrlQueryParam
    }

    pub fn is_destructive(&self) -> (r: bool)
        ensures
            !r,
    {
        false
    }

    pub fn propose(&self, node: &Node, ctx: &PassContext) -> (r: Vec<Change>)
        ensures
            changes_v(r@) == strip_v(node@, QpRule::Session, Seq::empty(), "url.qp.session"@,
                "Stripped session identifier parameter"@),
    {
        let none: Vec<String> = Vec::new();
        strip_matching(node, QpRule::Session, &none, "url.qp.session", "Stripped session identifier parameter")
    }
}

/// Removes affiliate-tracking parameters: Amazon's and eBay's own on their
/// hosts, the generic list everywhere.
#[derive(Debug, Clone, Copy)]
pub struct AffiliateTreatment;

impl AffiliateTreatment {
    pub fn id(&self) -> (r: &'static str)
        ensures
            r@ == "url.qp.affiliate"@,
    {
        "url.qp.affiliate"
    }

    pub fn name(&self) -> (r: &'static str)
        ensures
            r@ == "Strip affiliate params"@,
    {
        "Strip affiliate params"
    }

    pub fn category(&self) -> (r: TreatmentCategory)
        ensures
            r == TreatmentCategory::UrlQueryParam,
    {
        TreatmentCategory::UrlQueryParam
    }

    pub fn is_destructive(&self) -> (r: bool)
        ensures
            !r,
    {
        false
    }

    pub fn propose(&self, node: &Node, ctx: &PassContext) -> (r: Vec<Change>)
        ensures
            changes_v(r@) == strip_v(node@, QpRule::Affiliate, Seq::empty(), "url.qp.affiliate"@,
                "Stripped affiliate-network tracking parameter"@),
    {
        let none: Vec<String> = Vec::new();
        strip_matching(node, QpRule::Affiliate, &none, "url.qp.affiliate",
            "Stripped affiliate-network tracking parameter")
    }
}

/// Removes the result-tracking parameters that Google, Bing and DuckDuckGo
/// append; the query itself (`q`) is kept.
#[derive(Debug, Clone, Copy)]
pub struct SearchTokensTreatment;

impl SearchTokensTreatment {
    pub fn id(&self) -> (r: &'static str)
        ensures
            r@ == "url.qp.search_tokens"@,
    {
        "url.qp.search_tokens"
    }

    pub fn name(&self) -> (r: &'static str)
        ensures
            r@ == "Strip search-engine noise"@,
    {
        "Strip search-engine noise"
    }

    pub fn category(&self) -> (r: TreatmentCategory)
        ensures
            r == TreatmentCategory::UrlQueryParam,
    {
        TreatmentCategory::UrlQueryParam
    }

    pub fn is_destructive(&self) -> (r: bool)
        ensures
            !r,
    {
        false
    }

    pub fn propose(&self, node: &Node, ctx: &PassContext) -> (r: Vec<Change>)
        ensures
            changes_v(r@) == strip_v(node@, QpRule::SearchTokens, Seq::empty(), "url.qp.search_tokens"@,
                "Stripped search-engine result-tracking parameter"@),
    {
        let none: Vec<String> = Vec::new();
        strip_matching(node, QpRule::SearchTokens, &none, "url.qp.search_tokens",
            "Stripped search-engine result-tracking parameter")
    }
}

/// Removes a user-supplied list of query parameter names (exact,
/// case-sensitive match).  The empty list is a valid no-op.
#[derive(Debug)]
pub struct CustomQpTreatment {
    names: Vec<String>,
    rationale: String,
}

impl CustomQpTreatment {
    /// The parameter names this treatment removes.
    pub closed spec fn names_v(self) -> Seq<String> {
        self.names@
    }

    /// The rationale its changes carry.
    pub closed spec fn rationale_v(self) -> Seq<char> {
        self.rationale@
    }

    /// Create a treatment that strips the listed parameter names on every
    /// URL.
    pub fn new(names: Vec<String>) -> (r: Self)
        ensures
            r.names_v() == names@,
            r.rationale_v() == "Stripped user-configured query parameter"@,
    {
        CustomQpTreatment { names, rationale: "Stripped user-configured query parameter".to_owned() }
    }

    /// Empty list: registers the treatment with no active rules.
    pub fn empty() -> (r: Self)
        ensures
            r.names_v().len() == 0,
            r.rationale_v() == "Stripped user-configured query parameter"@,
    {
        Self::new(Vec::new())
    }

    /// Replace the parameter list; the rationale then names the parameters.
    pub fn set_params(&mut self, names: Vec<String>)
        ensures
            final(self).names_v() == names@,
            names@.len() == 0 ==> final(self).rationale_v() == "Stripped user-configured query parameter"@,
            names@.len() > 0 ==> final(self).rationale_v() == "Stripped custom query parameters: "@
                + comma_joined(names@),
    {
        let rationale = if names.len() == 0 {
            "Stripped user-configured query parameter".to_owned()
        } else {
            let mut s = "Stripped custom query parameters: ".to_owned();
            let mut i: usize = 0;
            while i < names.len()
                invariant
                    i <= names.len(),
                    s@ == "Stripped custom query parameters: "@ + comma_joined(names@.take(i as int)),
                decreases names.len() - i,
            {
                proof {
                    assert(names@.take(i + 1).drop_last() =~= names@.take(i as int));
                }
                if i > 0 {
                    s.append(", ");
                }
                s.append(names[i].as_str());
                proof {
                    if i == 0 {
                        assert(comma_joined(names@.take(1)) == names@[0]@);
                    }
                    assert(s@ =~= "Stripped custom query parameters: "@ + comma_joined(names@.take(i + 1)));
                }
                i += 1;
            }
            proof {
                assert(names@.take(names.len() as int) =~= names@);
            }
            s
        };
        self.names = names;
        self.rationale = rationale;
    }

    /// The parameter names, in order.
    pub fn params(&self) -> (r: &Vec<String>)
        ensures
            r@ == self.names_v(),
    {
        &self.names
    }

    pub fn id(&self) -> (r: &'static str)
        ensures
            r@ == "url.qp.custom"@,
    {
        "url.qp.custom"
    }

    pub fn name(&self) -> (r: &'static str)
        ensures
            r@ == "Strip custom query params"@,
    {
        "Strip custom query params"
    }

    pub fn category(&self) -> (r: TreatmentCategory)
        ensures
            r == TreatmentCategory::UrlQueryParam,
    {
        TreatmentCategory::UrlQueryParam
    }

    pub fn is_destructive(&self) -> (r: bool)
        ensures
            !r,
    {
        false
    }

    pub fn propose(&self, node: &Node, ctx: &PassContext) -> (r: Vec<Change>)
        ensures
            changes_v(r@) == (if self.names_v().len() == 0 {
                Seq::empty()
            } else {
                strip_v(node@, QpRule::Custom, self.names_v(), "url.qp.custom"@, self.rationale_v())
            }),
    {
        if self.names.len() == 0 {
            return Vec::new();
        }
        strip_matching(node, QpRule::Custom, &self.names, "url.qp.custom", self.rationale.as_str())
    }
}

/// The names joined with `, `.
pub open spec fn comma_joined(names: Seq<String>) -> Seq<char>
    decreases names.len(),
{
    if names.len() == 0 {
        Seq::empty()
    } else if names.len() == 1 {
        names[0]@
    } else {
        comma_joined(names.drop_last()) + ", "@ + names.last()@
    }
}

/// The click ids that the click-id treatment removes: Facebook, Google
/// Ads (`gclid`, `dclid`, `wbraid`, `gbraid`), Microsoft, Yandex, TikTok,
/// Twitter, Instagram and Mailchimp (`mc_eid`, `mc_cid`).
pub open spec fn click_id_names() -> Seq<Seq<char>> {
    seq!["fbclid"@, "gclid"@, "dclid"@, "msclkid"@, "yclid"@, "ttclid"@, "twclid"@, "igshid"@, "mc_eid"@, "mc_cid"@, "wbraid"@, "gbraid"@]
}

/// The click-id treatment strips a parameter exactly when its name is one
/// of the listed click ids, whatever the host and custom names.
pub proof fn click_ids_stripped(names: Seq<String>, host: Seq<char>, n: Seq<char>)
    ensures
        strips(QpRule::ClickIds, names, host, n) == click_id_names().contains(n),
{
    let l = click_id_names();
    if click_id_names().contains(n) {
        let k = choose|k: int| 0 <= k < l.len() && l[k] == n;
        assert(l[k] == n);
    }
    if is_click_id(n) {
        assert(l[0] == "fbclid"@);
        assert(l[1] == "gclid"@);
        assert(l[2] == "dclid"@);
        assert(l[3] == "msclkid"@);
        assert(l[4] == "yclid"@);
        assert(l[5] == "ttclid"@);
        assert(l[6] == "twclid"@);
        assert(l[7] == "igshid"@);
        assert(l[8] == "mc_eid"@);
        assert(l[9] == "mc_cid"@);
        assert(l[10] == "wbraid"@);
        assert(l[11] == "gbraid"@);
    }
}

/// No pair that the click-id treatment keeps is named as a click id, and
/// every other pair is kept.
pub proof fn click_id_pairs_removed(ps: Seq<(Seq<char>, Seq<char>)>, names: Seq<String>, host: Seq<char>)
    ensures
        forall|p: (Seq<char>, Seq<char>)|
            #[trigger] kept_pairs(ps, QpRule::ClickIds, names, host).contains(p) <==> ps.contains(p)
                && !click_id_names().contains(p.0),
    decreases ps.len(),
{
    if ps.len() > 0 {
        let init = ps.drop_last();
        click_id_pairs_removed(init, names, host);
        click_ids_stripped(names, host, ps.last().0);
        let r = kept_pairs(init, QpRule::ClickIds, names, host);
        assert forall|p: (Seq<char>, Seq<char>)|
            #[trigger] kept_pairs(ps, QpRule::ClickIds, names, host).contains(p) <==> ps.contains(p)
                && !click_id_names().contains(p.0) by {
            assert(ps =~= init.push(ps.last()));
            if ps.contains(p) {
                let j = choose|j: int| 0 <= j < ps.len() && ps[j] == p;
                if j < init.len() {
                    assert(init[j] == p);
                }
            }
            if init.contains(p) {
                let j = choose|j: int| 0 <= j < init.len() && init[j] == p;
                assert(ps[j] == p);
            }
            if r.push(ps.last()).contains(p) && !r.contains(p) {
                let j = choose|j: int| 0 <= j < r.len() + 1 && r.push(ps.last())[j] == p;
            }
            if r.contains(p) {
                let j = choose|j: int| 0 <= j < r.len() && r[j] == p;
                assert(r.push(ps.last())[j] == p);
            }
            assert(r.push(ps.last())[r.len() as int] == ps.last());
        }
    }
}

} // verus!

//! Structured filter shared by list browsing and search.
use vstd::prelude::*;
use crate::commands::types::{DateRange, DepthFilter, FilterSpec, FolderItem, FolderItemV, ItemKind};
use crate::text::{chars_of, eq_ic, eq_ignore_ascii_case, string_between};
use crate::urls::{parses, scheme_of, url_scheme_of};

verus! {

/// An allowlist axis is active when present and non-empty.
pub open spec fn active<T>(axis: Option<Vec<T>>) -> bool {
    axis is Some && axis->0.len() > 0
}

/// Some entry of the list equals `s`, ASCII case ignored.
pub open spec fn listed(list: Seq<String>, s: Seq<char>) -> bool {
    exists|k: int| 0 <= k < list.len() && eq_ic(#[trigger] list[k]@, s)
}

/// `s` without its leading dots.
pub open spec fn strip_dots(s: Seq<char>) -> Seq<char>
    decreases s.len(),
{
    if s.len() > 0 && s[0] == '.' { strip_dots(s.drop_first()) } else { s }
}

/// Some entry of the list, leading dots removed, equals `s`, ASCII case
/// ignored.
pub open spec fn listed_tld(list: Seq<String>, s: Seq<char>) -> bool {
    exists|k: int| 0 <= k < list.len() && eq_ic(strip_dots(#[trigger] list[k]@), s)
}

/// What follows the last `.` of `d`, if it has one.
pub open spec fn last_label(d: Seq<char>) -> Option<Seq<char>>
    decreases d.len(),
{
    if d.len() == 0 {
        None
    } else if d.last() == '.' {
        Some(Seq::empty())
    } else {
        match last_label(d.drop_last()) {
            Some(t) => Some(t.push(d.last())),
            None => None,
        }
    }
}

/// The depth axis: applies only when the depth is known.
pub open spec fn depth_ok(depth: Option<u32>, df: Option<DepthFilter>) -> bool {
    match (depth, df) {
        (Some(d), Some(f)) => !(f.min matches Some(min) && d < min) && !(f.max matches Some(max) && d > max),
        _ => true,
    }
}

/// The date axis: once a bound is set, undated bookmarks are excluded and
/// the bounds are inclusive.
pub open spec fn date_ok(add_date: Option<i64>, dr: Option<DateRange>) -> bool {
    match dr {
        Some(r) => if r.since is Some || r.until is Some {
            match add_date {
                None => false,
                Some(ts) => !(r.since matches Some(s) && ts < s) && !(r.until matches Some(u) && ts > u),
            }
        } else {
            true
        },
        None => true,
    }
}

/// The scheme of a URL text, when it parses.
pub open spec fn scheme_of_text(u: Seq<char>) -> Option<Seq<char>> {
    if parses(u) { Some(url_scheme_of(u)) } else { None }
}

/// Whether `item` survives `filter`: the active axes compose with AND.  The
/// date, domain, TLD and scheme axes test bookmarks only.
pub open spec fn passes_filter(item: FolderItemV, depth: Option<u32>, f: FilterSpec) -> bool {
    &&& depth_ok(depth, f.depth)
    &&& active(f.kinds) ==> f.kinds->0@.contains(item.kind)
    &&& item.kind == ItemKind::Bookmark ==> {
        &&& date_ok(item.add_date, f.date_range)
        &&& active(f.domains) ==> item.domain is Some && listed(f.domains->0@, item.domain->0)
        &&& active(f.tlds) ==> item.domain is Some && last_label(item.domain->0) is Some
            && listed_tld(f.tlds->0@, last_label(item.domain->0)->0)
        &&& active(f.schemes) ==> item.url is Some && scheme_of_text(item.url->0) is Some
            && listed(f.schemes->0@, scheme_of_text(item.url->0)->0)
    }
}

fn list_has_kind(kinds: &Vec<ItemKind>, k: ItemKind) -> (r: bool)
    ensures
        r == kinds@.contains(k),
{
    let mut i: usize = 0;
    while i < kinds.len()
        invariant
            i <= kinds.len(),
            forall|x: int| 0 <= x < i ==> kinds@[x] != k,
        decreases kinds.len() - i,
    {
        if kinds[i] == k {
            proof {
                assert(kinds@[i as int] == k);
            }
            return true;
        }
        i += 1;
    }
    false
}

fn list_has(list: &Vec<String>, s: &str) -> (r: bool)
    ensures
        r == listed(list@, s@),
{
    let mut i: usize = 0;
    while i < list.len()
        invariant
            i <= list.len(),
            forall|x: int| 0 <= x < i ==> !eq_ic(#[trigger] list@[x]@, s@),
        decreases list.len() - i,
    {
        if eq_ignore_ascii_case(list[i].as_str(), s) {
            return true;
        }
        i += 1;
    }
    false
}

/// `s` without its leading dots.
fn trim_dots(s: &str) -> (r: String)
    ensures
        r@ == strip_dots(s@),
{
    let cs = chars_of(s);
    let mut i: usize = 0;
    proof {
        assert(s@.skip(0) =~= s@);
    }
    while i < cs.len() && cs[i] == '.'
        invariant
            cs@ == s@,
            i <= cs.len(),
            strip_dots(s@) == strip_dots(s@.skip(i as int)),
        decreases cs.len() - i,
    {
        proof {
            assert(s@.skip(i as int).drop_first() =~= s@.skip(i + 1));
        }
        i += 1;
    }
    proof {
        assert(strip_dots(s@.skip(i as int)) == s@.skip(i as int));
        assert(cs@.subrange(i as int, cs.len() as int) =~= s@.skip(i as int));
    }
    string_between(&cs, i, cs.len())
}

fn list_has_tld(list: &Vec<String>, tld: &str) -> (r: bool)
    ensures
        r == listed_tld(list@, tld@),
{
    let mut i: usize = 0;
    while i < list.len()
        invariant
            i <= list.len(),
            forall|x: int| 0 <= x < i ==> !eq_ic(strip_dots(#[trigger] list@[x]@), tld@),
        decreases list.len() - i,
    {
        let t = trim_dots(list[i].as_str());
        if eq_ignore_ascii_case(t.as_str(), tld) {
            return true;
        }
        i += 1;
    }
    false
}

/// What follows the last `.` of `d` (`str::rsplit_once('.')`).
fn last_label_of(d: &str) -> (r: Option<String>)
    ensures
        crate::urls::opt_view(r) == last_label(d@),
{
    let cs = chars_of(d);
    let mut i = cs.len();
    while i > 0 && cs[i - 1] != '.'
        invariant
            cs@ == d@,
            i <= cs.len(),
            forall|x: int| i <= x < cs.len() ==> cs@[x] != '.',
        decreases i,
    {
        i -= 1;
    }
    proof {
        lemma_last_label(d@, i as int);
    }
    if i == 0 {
        None
    } else {
        Some(string_between(&cs, i, cs.len()))
    }
}

proof fn lemma_last_label(d: Seq<char>, i: int)
    requires
        0 <= i <= d.len(),
        forall|x: int| i <= x < d.len() ==> d[x] != '.',
        i > 0 ==> d[i - 1] == '.',
    ensures
        i == 0 ==> last_label(d) is None,
        i > 0 ==> last_label(d) == Some(d.subrange(i, d.len() as int)),
    decreases d.len(),
{
    if d.len() > 0 && i < d.len() {
        let d2 = d.drop_last();
        lemma_last_label(d2, i);
        if i > 0 {
            assert(d.subrange(i, d.len() as int) =~= d2.subrange(i, d2.len() as int).push(d.last()));
        }
    } else if d.len() > 0 {
        assert(d.subrange(i, d.len() as int) =~= Seq::<char>::empty());
    }
}

/// Whether `item` survives `filter`.  Active axes compose with AND.
///
/// `depth` is the item's distance from the document root; pass `None` when
/// it is unknown (browsing a single folder) to skip the depth axis.  The
/// date, domain, TLD and scheme axes only test bookmarks and let folders and
/// separators through.
pub fn item_passes_filter(item: &FolderItem, depth: Option<u32>, filter: &FilterSpec) -> (r: bool)
    ensures
        r == passes_filter(item@, depth, *filter),
{
    if let (Some(d), Some(df)) = (depth, &filter.depth) {
        let below = match df.min {
            Some(min) => d < min,
            None => false,
        };
        let above = match df.max {
            Some(max) => d > max,
            None => false,
        };
        if below || above {
            return false;
        }
    }
    if let Some(kinds) = &filter.kinds {
        if kinds.len() > 0 && !list_has_kind(kinds, item.kind) {
            return false;
        }
    }
    if item.kind != ItemKind::Bookmark {
        return true;
    }
    if let Some(dr) = &filter.date_range {
        if dr.since.is_some() || dr.until.is_some() {
            let ts = match item.add_date {
                Some(ts) => ts,
                None => return false,
            };
            let early = match dr.since {
                Some(since) => ts < since,
                None => false,
            };
            let late = match dr.until {
                Some(until) => ts > until,
                None => false,
            };
            if early || late {
                return false;
            }
        }
    }
    if let Some(domains) = &filter.domains {
        if domains.len() > 0 {
            let domain = match &item.domain {
                Some(d) => d,
                None => return false,
            };
            if !list_has(domains, domain.as_str()) {
                return false;
            }
        }
    }
    if let Some(tlds) = &filter.tlds {
        if tlds.len() > 0 {
            let domain = match &item.domain {
                Some(d) => d,
                None => return false,
            };
            let tld = match last_label_of(domain.as_str()) {
                Some(t) => t,
                None => return false,
            };
            if !list_has_tld(tlds, tld.as_str()) {
                return false;
            }
        }
    }
    if let Some(schemes) = &filter.schemes {
        if schemes.len() > 0 {
            let url = match &item.url {
                Some(u) => u,
                None => return false,
            };
            let scheme = match scheme_of(url.as_str()) {
                Some(s) => s,
                None => return false,
            };
            if !list_has(schemes, scheme.as_str()) {
                return false;
            }
        }
    }
    true
}

} // verus!

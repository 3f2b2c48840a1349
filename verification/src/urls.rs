//! URL parsing and editing, delegated to the `url` crate.
//!
//! A valid bookmark URL is held as the `url` crate's serialization of the
//! parsed URL (its `href`).  Every operation below parses the text it is
//! given, asks the `url` crate for the component or edit, and hands back
//! plain strings (`None` when the text does not parse).  WHATWG URL parsing
//! takes pages to state, so each result is named by an uninterpreted
//! function of the text.
use vstd::prelude::*;

verus! {

/// The view of an optional string.
pub open spec fn opt_view(o: Option<String>) -> Option<Seq<char>> {
    match o {
        Some(s) => Some(s@),
        None => None,
    }
}

/// The view of a list of string pairs.
pub open spec fn pairs_view(ps: Seq<(String, String)>) -> Seq<(Seq<char>, Seq<char>)> {
    ps.map_values(|p: (String, String)| (p.0@, p.1@))
}

/// Serialization of `Url::parse(input)`, or `None` when parsing fails.
pub uninterp spec fn url_parse_result(input: Seq<char>) -> Option<Seq<char>>;

/// `Url::scheme` of `Url::parse(href)` (when it parses).
pub uninterp spec fn url_scheme_of(href: Seq<char>) -> Seq<char>;

/// `Url::host_str` of `Url::parse(href)` (when it parses).
pub uninterp spec fn url_host_of(href: Seq<char>) -> Option<Seq<char>>;

/// `Url::has_host` of `Url::parse(href)` (when it parses).
pub uninterp spec fn url_has_host_of(href: Seq<char>) -> bool;

/// `Url::path` of `Url::parse(href)` (when it parses).
pub uninterp spec fn url_path_of(href: Seq<char>) -> Seq<char>;

/// `Url::query` of `Url::parse(href)` (when it parses).
pub uninterp spec fn url_query_of(href: Seq<char>) -> Option<Seq<char>>;

/// `Url::fragment` of `Url::parse(href)` (when it parses).
pub uninterp spec fn url_fragment_of(href: Seq<char>) -> Option<Seq<char>>;

/// The percent-decoded `Url::query_pairs` of `Url::parse(href)` (when it parses).
pub uninterp spec fn url_query_pairs_of(href: Seq<char>) -> Seq<(Seq<char>, Seq<char>)>;

/// Serialization of `Url::parse(href)` after `set_query(None)`.
pub uninterp spec fn url_without_query(href: Seq<char>) -> Seq<char>;

/// Serialization of `Url::parse(href)` after `query_pairs_mut().clear().extend_pairs(pairs)`.
pub uninterp spec fn url_with_query_pairs(
    href: Seq<char>,
    pairs: Seq<(Seq<char>, Seq<char>)>,
) -> Seq<char>;

/// Serialization of `Url::parse(href)` after `set_scheme(scheme)`, or `None` when the `url` crate
/// refuses the change.
pub uninterp spec fn url_with_scheme(href: Seq<char>, scheme: Seq<char>) -> Option<Seq<char>>;

/// Serialization of `Url::parse(href)` after `set_host(Some(host))`, or `None` when refused.
pub uninterp spec fn url_with_host(href: Seq<char>, host: Seq<char>) -> Option<Seq<char>>;

/// Serialization of `Url::parse(href)` after `set_path(path)`.
pub uninterp spec fn url_with_path(href: Seq<char>, path: Seq<char>) -> Seq<char>;

/// Serialization of `Url::parse(href)` after `set_fragment(fragment)`.
pub uninterp spec fn url_with_fragment(href: Seq<char>, fragment: Option<Seq<char>>) -> Seq<char>;

/// True when `href` is text that the `url` crate parses.
pub open spec fn parses(href: Seq<char>) -> bool {
    url_parse_result(href) is Some
}

/// Calls `url::Url::parse` and returns the serialization (`as_str`) of the
/// parsed URL.  Claims that the result is the named function of the input,
/// and that a serialization parses back to itself (the `url` crate holds
/// every `Url` to that invariant and checks it in `check_invariants`).
#[verifier::external_body]
pub fn parse_url(input: &str) -> (r: Option<String>)
    ensures
        opt_view(r) == url_parse_result(input@),
        r matches Some(s) ==> url_parse_result(s@) == Some(s@),
{
    url::Url::parse(input).ok().map(|u| u.as_str().to_owned())
}

/// `url::Url::parse(href)` followed by `Url::scheme`; `None` when `href`
/// does not parse.
#[verifier::external_body]
pub fn scheme_of(href: &str) -> (r: Option<String>)
    ensures
        r is Some == parses(href@),
        r matches Some(x) ==> x@ == url_scheme_of(href@),
{
    url::Url::parse(href).ok().map(|u| u.scheme().to_owned())
}

/// `url::Url::parse(href)` followed by `Url::host_str`; `None` when `href`
/// does not parse.
#[verifier::external_body]
pub fn host_of(href: &str) -> (r: Option<Option<String>>)
    ensures
        r is Some == parses(href@),
        r matches Some(x) ==> opt_view(x) == url_host_of(href@),
{
    url::Url::parse(href).ok().map(|u| u.host_str().map(|h| h.to_owned()))
}

/// `url::Url::parse(href)` followed by `Url::has_host`; `None` when `href`
/// does not parse.
#[verifier::external_body]
pub fn has_host(href: &str) -> (r: Option<bool>)
    ensures
        r is Some == parses(href@),
        r matches Some(x) ==> x == url_has_host_of(href@),
{
    url::Url::parse(href).ok().map(|u| u.has_host())
}

/// `url::Url::parse(href)` followed by `Url::path`; `None` when `href` does
/// not parse.
#[verifier::external_body]
pub fn path_of(href: &str) -> (r: Option<String>)
    ensures
        r is Some == parses(href@),
        r matches Some(x) ==> x@ == url_path_of(href@),
{
    url::Url::parse(href).ok().map(|u| u.path().to_owned())
}

/// `url::Url::parse(href)` followed by `Url::query`; `None` when `href`
/// does not parse.
#[verifier::external_body]
pub fn query_of(href: &str) -> (r: Option<Option<String>>)
    ensures
        r is Some == parses(href@),
        r matches Some(x) ==> opt_view(x) == url_query_of(href@),
{
    url::Url::parse(href).ok().map(|u| u.query().map(|q| q.to_owned()))
}

/// `url::Url::parse(href)` followed by `Url::fragment`; `None` when `href`
/// does not parse.
#[verifier::external_body]
pub fn fragment_of(href: &str) -> (r: Option<Option<String>>)
    ensures
        r is Some == parses(href@),
        r matches Some(x) ==> opt_view(x) == url_fragment_of(href@),
{
    url::Url::parse(href).ok().map(|u| u.fragment().map(|f| f.to_owned()))
}

/// `url::Url::parse(href)` followed by `Url::query_pairs`, each pair
/// decoded into owned strings; `None` when `href` does not parse.
#[verifier::external_body]
pub fn query_pairs_of(href: &str) -> (r: Option<Vec<(String, String)>>)
    ensures
        r is Some == parses(href@),
        r matches Some(x) ==> pairs_view(x@) == url_query_pairs_of(href@),
{
    url::Url::parse(href).ok().map(|u| u.query_pairs().map(|(k, v)| (k.into_owned(), v.into_owned())).collect())
}

/// `url::Url::parse(href)`, then `set_query(None)`, then the serialization;
/// `None` when `href` does not parse.
#[verifier::external_body]
pub fn without_query(href: &str) -> (r: Option<String>)
    ensures
        r is Some == parses(href@),
        r matches Some(x) ==> x@ == url_without_query(href@),
{
    let mut u = url::Url::parse(href).ok()?;
    u.set_query(None);
    Some(u.as_str().to_owned())
}

/// `url::Url::parse(href)`, then `query_pairs_mut().clear().extend_pairs`
/// with `pairs` in order, then the serialization; `None` when `href` does
/// not parse.
#[verifier::external_body]
pub fn with_query_pairs(href: &str, pairs: &Vec<(String, String)>) -> (r: Option<String>)
    ensures
        r is Some == parses(href@),
        r matches Some(x) ==> x@ == url_with_query_pairs(href@, pairs_view(pairs@)),
{
    let mut u = url::Url::parse(href).ok()?;
    u.query_pairs_mut().clear().extend_pairs(pairs.iter());
    Some(u.as_str().to_owned())
}

/// `url::Url::parse(href)`, then `set_scheme(scheme)`, then the
/// serialization; `None` when `href` does not parse or the `url` crate
/// refuses the scheme.
#[verifier::external_body]
pub fn with_scheme(href: &str, scheme: &str) -> (r: Option<String>)
    ensures
        !parses(href@) ==> r is None,
        parses(href@) ==> opt_view(r) == url_with_scheme(href@, scheme@),
{
    let mut u = url::Url::parse(href).ok()?;
    u.set_scheme(scheme).ok().map(|_| u.as_str().to_owned())
}

/// `url::Url::parse(href)`, then `set_host(Some(host))`, then the
/// serialization; `None` when `href` does not parse or the `url` crate
/// refuses the host.
#[verifier::external_body]
pub fn with_host(href: &str, host: &str) -> (r: Option<String>)
    ensures
        !parses(href@) ==> r is None,
        parses(href@) ==> opt_view(r) == url_with_host(href@, host@),
{
    let mut u = url::Url::parse(href).ok()?;
    u.set_host(Some(host)).ok().map(|_| u.as_str().to_owned())
}

/// `url::Url::parse(href)`, then `set_path(path)`, then the serialization;
/// `None` when `href` does not parse.
#[verifier::external_body]
pub fn with_path(href: &str, path: &str) -> (r: Option<String>)
    ensures
        r is Some == parses(href@),
        r matches Some(x) ==> x@ == url_with_path(href@, path@),
{
    let mut u = url::Url::parse(href).ok()?;
    u.set_path(path);
    Some(u.as_str().to_owned())
}

/// `url::Url::parse(href)`, then `set_fragment(fragment)`, then the
/// serialization; `None` when `href` does not parse.
#[verifier::external_body]
pub fn with_fragment(href: &str, fragment: Option<&str>) -> (r: Option<String>)
    ensures
        r is Some == parses(href@),
        r matches Some(x) ==> x@ == url_with_fragment(href@, match fragment { Some(f) => Some(f@), None => None }),
{
    let mut u = url::Url::parse(href).ok()?;
    u.set_fragment(fragment);
    Some(u.as_str().to_owned())
}

} // verus!

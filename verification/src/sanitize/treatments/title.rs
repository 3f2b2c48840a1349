//! Title treatments: whitespace, HTML entities, email addresses, social
//! handles, author bylines and a user-configured regex.
use vstd::prelude::*;
use crate::model::document::Field;
use crate::model::node::{Node, NodeV};
use crate::regexes::{regex_compiles, regex_is_valid, regex_replace_all, regex_replace_all_of, regex_replace_first, regex_replace_first_of};
use crate::sanitize::treatment::{changes_v, propose_rewrite, rewrite, Change, ChangeV, PassContext, TreatmentCategory};
use crate::sanitize::treatments::text::{
    decode_html_entities, decode_v, join_spaced, normalize_whitespace, trim_dangling_punct, trim_dangling_v, words,
};

verus! {

/// A rewrite of a bookmark's title to `after_of` its title; nothing for
/// other nodes or when the title stays the same.
pub open spec fn title_change(
    n: NodeV,
    after_of: spec_fn(Seq<char>) -> Seq<char>,
    tid: Seq<char>,
    why: Seq<char>,
    destructive: bool,
) -> Seq<ChangeV> {
    match n {
        NodeV::Bookmark(b) => rewrite(b.id, Field::Title, b.title, after_of(b.title), tid, why, destructive),
        _ => Seq::empty(),
    }
}

/// Whitespace trimmed and collapsed to single spaces.
pub open spec fn normalized(t: Seq<char>) -> Seq<char> {
    join_spaced(words(t))
}

/// The email-address pattern.
pub open spec fn email_pattern() -> Seq<char> {
    "[A-Za-z0-9._%+\\-]+@[A-Za-z0-9.\\-]+\\.[A-Za-z]{2,}"@
}

/// The social-handle pattern (a handle after a start or a separator,
/// optionally with an `@instance` suffix).
pub open spec fn handle_pattern() -> Seq<char> {
    "(^|[ \t\r\n\\(\\[<,:|])@[A-Za-z0-9_]{1,30}(?:@[A-Za-z0-9.\\-]+\\.[A-Za-z]{2,})?"@
}

/// The trailing author-byline pattern.
pub open spec fn author_pattern() -> Seq<char> {
    "[ \t]+[\\-|\u{2014}\u{2013}\u{00B7}][ \t]+(?:by[ \t]+)?[A-Z][A-Za-z'\\-]+(?:[ \t]+[A-Z][A-Za-z'\\-]+){0,3}[ \t]*$"@
}

/// A title without email addresses, dangling punctuation and extra
/// whitespace.
pub open spec fn email_stripped(t: Seq<char>) -> Seq<char> {
    match regex_replace_all_of(email_pattern(), t, ""@) {
        Some(x) => normalized(trim_dangling_v(x)),
        None => t,
    }
}

/// A title without social handles (the separator before each kept),
/// dangling punctuation and extra whitespace.
pub open spec fn handle_stripped(t: Seq<char>) -> Seq<char> {
    match regex_replace_all_of(handle_pattern(), t, "$1"@) {
        Some(x) => normalized(trim_dangling_v(x)),
        None => t,
    }
}

/// A title without its trailing author byline and extra whitespace.
pub open spec fn author_stripped(t: Seq<char>) -> Seq<char> {
    match regex_replace_first_of(author_pattern(), t, ""@) {
        Some(x) => normalized(x),
        None => t,
    }
}

/// Propose rewriting `node`'s title to `after`, when it is a bookmark.
fn title_rewrite(node: &Node, after: &str, tid: &str, why: &str, destructive: bool) -> (r: Vec<Change>)
    ensures
        changes_v(r@) == (match node@ {
            NodeV::Bookmark(b) => rewrite(b.id, Field::Title, b.title, after@, tid@, why@, destructive),
            _ => Seq::empty(),
        }),
{
    match node {
        Node::Bookmark(b) => propose_rewrite(b.id, Field::Title, b.title.as_str(), after, tid, why, destructive),
        _ => Vec::new(),
    }
}

/// The title of `node` when it is a bookmark.
fn title_of(node: &Node) -> (r: Option<&str>)
    ensures
        match node@ {
            NodeV::Bookmark(b) => r matches Some(t) && t@ == b.title,
            _ => r is None,
        },
{
    match node {
        Node::Bookmark(b) => Some(b.title.as_str()),
        _ => None,
    }
}

/// Trims and collapses whitespace in bookmark titles.
#[derive(Debug, Clone, Copy)]
pub struct WhitespaceTreatment;

impl WhitespaceTreatment {
    pub fn id(&self) -> (r: &'static str)
        ensures
            r@ == "title.whitespace"@,
    {
        "title.whitespace"
    }

    pub fn name(&self) -> (r: &'static str)
        ensures
            r@ == "Normalize whitespace"@,
    {
        "Normalize whitespace"
    }

    pub fn category(&self) -> (r: TreatmentCategory)
        ensures
            r == TreatmentCategory::Title,
    {
        TreatmentCategory::Title
    }

    pub fn is_destructive(&self) -> (r: bool)
        ensures
            !r,
    {
        false
    }

    pub fn propose(&self, node: &Node, ctx: &PassContext) -> (r: Vec<Change>)
        ensures
            changes_v(r@) == title_change(node@, |t: Seq<char>| normalized(t), "title.whitespace"@,
                "Collapsed whitespace in title"@, false),
    {
        match title_of(node) {
            Some(t) => {
                let after = normalize_whitespace(t);
                title_rewrite(node, after.as_str(), "title.whitespace", "Collapsed whitespace in title", false)
            },
            None => Vec::new(),
        }
    }
}

/// Decodes HTML entities in bookmark titles.
#[derive(Debug, Clone, Copy)]
pub struct HtmlEntitiesTreatment;

impl HtmlEntitiesTreatment {
    pub fn id(&self) -> (r: &'static str)
        ensures
            r@ == "title.html_entities"@,
    {
        "title.html_entities"
    }

    pub fn name(&self) -> (r: &'static str)
        ensures
            r@ == "Decode HTML entities"@,
    {
        "Decode HTML entities"
    }

    pub fn category(&self) -> (r: TreatmentCategory)
        ensures
            r == TreatmentCategory::Title,
    {
        TreatmentCategory::Title
    }

    pub fn is_destructive(&self) -> (r: bool)
        ensures
            !r,
    {
        false
    }

    pub fn propose(&self, node: &Node, ctx: &PassContext) -> (r: Vec<Change>)
        ensures
            changes_v(r@) == title_change(node@, |t: Seq<char>| decode_v(t), "title.html_entities"@,
                "Decoded HTML entities in title"@, false),
    {
        match title_of(node) {
            Some(t) => {
                let after = decode_html_entities(t);
                title_rewrite(node, after.as_str(), "title.html_entities", "Decoded HTML entities in title", false)
            },
            None => Vec::new(),
        }
    }
}

/// Removes email addresses from bookmark titles.
#[derive(Debug, Clone, Copy)]
pub struct EmailTreatment;

/// A title without email addresses (see [`email_stripped`]).
pub fn strip_emails(s: &str) -> (r: String)
    ensures
        r@ == email_stripped(s@),
{
    match regex_replace_all("[A-Za-z0-9._%+\\-]+@[A-Za-z0-9.\\-]+\\.[A-Za-z]{2,}", s, "") {
        Some(removed) => {
            let trimmed = trim_dangling_punct(removed.as_str());
            normalize_whitespace(trimmed.as_str())
        },
        None => s.to_owned(),
    }
}

impl EmailTreatment {
    pub fn id(&self) -> (r: &'static str)
        ensures
            r@ == "title.email"@,
    {
        "title.email"
    }

    pub fn name(&self) -> (r: &'static str)
        ensures
            r@ == "Strip email addresses"@,
    {
        "Strip email addresses"
    }

    pub fn category(&self) -> (r: TreatmentCategory)
        ensures
            r == TreatmentCategory::Title,
    {
        TreatmentCategory::Title
    }

    pub fn is_destructive(&self) -> (r: bool)
        ensures
            !r,
    {
        false
    }

    pub fn propose(&self, node: &Node, ctx: &PassContext) -> (r: Vec<Change>)
        ensures
            changes_v(r@) == title_change(node@, |t: Seq<char>| email_stripped(t), "title.email"@,
                "Removed email address from title"@, false),
    {
        match title_of(node) {
            Some(t) => {
                let after = strip_emails(t);
                title_rewrite(node, after.as_str(), "title.email", "Removed email address from title", false)
            },
            None => Vec::new(),
        }
    }
}

/// Removes social handles (`@name`, `@name@instance.tld`) from bookmark
/// titles.
#[derive(Debug, Clone, Copy)]
pub struct HandleTreatment;

/// A title without social handles (see [`handle_stripped`]).
pub fn strip_handles(s: &str) -> (r: String)
    ensures
        r@ == handle_stripped(s@),
{
    match regex_replace_all("(^|[ \t\r\n\\(\\[<,:|])@[A-Za-z0-9_]{1,30}(?:@[A-Za-z0-9.\\-]+\\.[A-Za-z]{2,})?", s, "$1") {
        Some(replaced) => {
            let trimmed = trim_dangling_punct(replaced.as_str());
            normalize_whitespace(trimmed.as_str())
        },
        None => s.to_owned(),
    }
}

impl HandleTreatment {
    pub fn id(&self) -> (r: &'static str)
        ensures
            r@ == "title.handle"@,
    {
        "title.handle"
    }

    pub fn name(&self) -> (r: &'static str)
        ensures
            r@ == "Strip social handles"@,
    {
        "Strip social handles"
    }

    pub fn category(&self) -> (r: TreatmentCategory)
        ensures
            r == TreatmentCategory::Title,
    {
        TreatmentCategory::Title
    }

    pub fn is_destructive(&self) -> (r: bool)
        ensures
            !r,
    {
        false
    }

    pub fn propose(&self, node: &Node, ctx: &PassContext) -> (r: Vec<Change>)
        ensures
            changes_v(r@) == title_change(node@, |t: Seq<char>| handle_stripped(t), "title.handle"@,
                "Removed social handle from title"@, false),
    {
        match title_of(node) {
            Some(t) => {
                let after = strip_handles(t);
                title_rewrite(node, after.as_str(), "title.handle", "Removed social handle from title", false)
            },
            None => Vec::new(),
        }
    }
}

/// Removes a trailing author byline (`Title - Jane Doe`, `Title | by John
/// Smith`).  Destructive: a real title can end like a byline.
#[derive(Debug, Clone, Copy)]
pub struct AuthorSuffixTreatment;

/// A title without its trailing byline (see [`author_stripped`]).
pub fn strip_author_suffix(s: &str) -> (r: String)
    ensures
        r@ == author_stripped(s@),
{
    match regex_replace_first(
        "[ \t]+[\\-|\u{2014}\u{2013}\u{00B7}][ \t]+(?:by[ \t]+)?[A-Z][A-Za-z'\\-]+(?:[ \t]+[A-Z][A-Za-z'\\-]+){0,3}[ \t]*$",
        s,
        "",
    ) {
        Some(stripped) => normalize_whitespace(stripped.as_str()),
        None => s.to_owned(),
    }
}

impl AuthorSuffixTreatment {
    pub fn id(&self) -> (r: &'static str)
        ensures
            r@ == "title.author_suffix"@,
    {
        "title.author_suffix"
    }

    pub fn name(&self) -> (r: &'static str)
        ensures
            r@ == "Strip author suffix"@,
    {
        "Strip author suffix"
    }

    pub fn category(&self) -> (r: TreatmentCategory)
        ensures
            r == TreatmentCategory::Title,
    {
        TreatmentCategory::Title
    }

    pub fn is_destructive(&self) -> (r: bool)
        ensures
            r,
    {
        true
    }

    pub fn propose(&self, node: &Node, ctx: &PassContext) -> (r: Vec<Change>)
        ensures
            changes_v(r@) == title_change(node@, |t: Seq<char>| author_stripped(t), "title.author_suffix"@,
                "Removed trailing author byline from title"@, true),
    {
        match title_of(node) {
            Some(t) => {
                let after = strip_author_suffix(t);
                title_rewrite(node, after.as_str(), "title.author_suffix", "Removed trailing author byline from title", true)
            },
            None => Vec::new(),
        }
    }
}

/// A regex rule: the pattern (known to compile) and its replacement.
#[derive(Debug)]
pub struct RegexRule {
    pub pattern: String,
    pub replacement: String,
}

/// `t` with every match of `pattern` replaced.
pub open spec fn regex_applied(pattern: Seq<char>, replacement: Seq<char>, t: Seq<char>) -> Seq<char> {
    match regex_replace_all_of(pattern, t, replacement) {
        Some(x) => x,
        None => t,
    }
}

/// Applies a user-configured regex replacement to bookmark titles.
/// Destructive.
#[derive(Debug)]
pub struct RegexTitleTreatment {
    rule: Option<RegexRule>,
}

impl RegexTitleTreatment {
    /// The configured pattern and replacement, if any.
    pub closed spec fn rule_v(self) -> Option<(Seq<char>, Seq<char>)> {
        match self.rule {
            Some(r) => Some((r.pattern@, r.replacement@)),
            None => None,
        }
    }

    /// A treatment with `pattern` and `replacement`; `None` when the pattern
    /// does not compile.
    pub fn new(pattern: &str, replacement: &str) -> (r: Option<Self>)
        ensures
            r is Some == regex_compiles(pattern@),
            r matches Some(t) ==> t.rule_v() == Some((pattern@, replacement@)),
    {
        if regex_is_valid(pattern) {
            Some(RegexTitleTreatment { rule: Some(RegexRule { pattern: pattern.to_owned(), replacement: replacement.to_owned() }) })
        } else {
            None
        }
    }

    /// A treatment with no rule: it proposes nothing.
    pub fn empty() -> (r: Self)
        ensures
            r.rule_v() is None,
    {
        RegexTitleTreatment { rule: None }
    }

    /// The configured pattern and replacement (empty when there is none).
    pub fn current_rule(&self) -> (r: (String, String))
        ensures
            match self.rule_v() {
                Some((p, x)) => r.0@ == p && r.1@ == x,
                None => r.0@.len() == 0 && r.1@.len() == 0,
            },
    {
        match &self.rule {
            Some(rule) => (rule.pattern.clone(), rule.replacement.clone()),
            None => (String::new(), String::new()),
        }
    }

    pub fn id(&self) -> (r: &'static str)
        ensures
            r@ == "title.regex"@,
    {
        "title.regex"
    }

    pub fn name(&self) -> (r: &'static str)
        ensures
            r@ == "Apply regex to title"@,
    {
        "Apply regex to title"
    }

    pub fn category(&self) -> (r: TreatmentCategory)
        ensures
            r == TreatmentCategory::Title,
    {
        TreatmentCategory::Title
    }

    pub fn is_destructive(&self) -> (r: bool)
        ensures
            r,
    {
        true
    }

    pub fn propose(&self, node: &Node, ctx: &PassContext) -> (r: Vec<Change>)
        ensures
            changes_v(r@) == (match self.rule_v() {
                Some((p, x)) => title_change(node@, |t: Seq<char>| regex_applied(p, x, t), "title.regex"@,
                    "Applied user-configured regex to title"@, true),
                None => Seq::empty(),
            }),
    {
        let rule = match &self.rule {
            Some(r) => r,
            None => return Vec::new(),
        };
        match title_of(node) {
            Some(t) => {
                let after = match regex_replace_all(rule.pattern.as_str(), t, rule.replacement.as_str()) {
                    Some(x) => x,
                    None => t.to_owned(),
                };
                title_rewrite(node, after.as_str(), "title.regex", "Applied user-configured regex to title", true)
            },
            None => Vec::new(),
        }
    }
}

} // verus!

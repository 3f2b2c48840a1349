//! Folder-name treatments: whitespace, HTML entities and a user-configured
//! regex.
use vstd::prelude::*;
use crate::model::document::Field;
use crate::model::node::{Node, NodeV};
use crate::regexes::{regex_compiles, regex_is_valid, regex_replace_all};
use crate::sanitize::treatment::{changes_v, propose_rewrite, rewrite, Change, ChangeV, PassContext, TreatmentCategory};
use crate::sanitize::treatments::text::{decode_html_entities, decode_v, normalize_whitespace};
use crate::sanitize::treatments::title::{normalized, regex_applied, RegexRule};

verus! {

/// A rewrite of a folder's name to `after_of` its name; nothing for other
/// nodes or when the name stays the same.
pub open spec fn folder_name_change(
    n: NodeV,
    after_of: spec_fn(Seq<char>) -> Seq<char>,
    tid: Seq<char>,
    why: Seq<char>,
    destructive: bool,
) -> Seq<ChangeV> {
    match n {
        NodeV::Folder(f) => rewrite(f.id, Field::FolderName, f.name, after_of(f.name), tid, why, destructive),
        _ => Seq::empty(),
    }
}

/// The name of `node` when it is a folder.
fn folder_name_of(node: &Node) -> (r: Option<&str>)
    ensures
        match node@ {
            NodeV::Folder(f) => r matches Some(t) && t@ == f.name,
            _ => r is None,
        },
{
    match node {
        Node::Folder(f) => Some(f.name.as_str()),
        _ => None,
    }
}

/// Propose renaming `node` to `after`, when it is a folder.
fn folder_rewrite(node: &Node, after: &str, tid: &str, why: &str, destructive: bool) -> (r: Vec<Change>)
    ensures
        changes_v(r@) == (match node@ {
            NodeV::Folder(f) => rewrite(f.id, Field::FolderName, f.name, after@, tid@, why@, destructive),
            _ => Seq::empty(),
        }),
{
    match node {
        Node::Folder(f) => propose_rewrite(f.id, Field::FolderName, f.name.as_str(), after, tid, why, destructive),
        _ => Vec::new(),
    }
}

/// Trims and collapses whitespace in folder names.
#[derive(Debug, Clone, Copy)]
pub struct FolderWhitespaceTreatment;

impl FolderWhitespaceTreatment {
    pub fn id(&self) -> (r: &'static str)
        ensures
            r@ == "folder.whitespace"@,
    {
        "folder.whitespace"
    }

    pub fn name(&self) -> (r: &'static str)
        ensures
            r@ == "Normalize folder-name whitespace"@,
    {
        "Normalize folder-name whitespace"
    }

    pub fn category(&self) -> (r: TreatmentCategory)
        ensures
            r == TreatmentCategory::FolderName,
    {
        TreatmentCategory::FolderName
    }

    pub fn is_destructive(&self) -> (r: bool)
        ensures
            !r,
    {
        false
    }

    pub fn propose(&self, node: &Node, ctx: &PassContext) -> (r: Vec<Change>)
        ensures
            changes_v(r@) == folder_name_change(node@, |t: Seq<char>| normalized(t), "folder.whitespace"@,
                "Collapsed whitespace in folder name"@, false),
    {
        match folder_name_of(node) {
            Some(t) => {
                let after = normalize_whitespace(t);
                folder_rewrite(node, after.as_str(), "folder.whitespace", "Collapsed whitespace in folder name", false)
            },
            None => Vec::new(),
        }
    }
}

/// Decodes HTML entities in folder names.
#[derive(Debug, Clone, Copy)]
pub struct FolderHtmlEntitiesTreatment;

impl FolderHtmlEntitiesTreatment {
    pub fn id(&self) -> (r: &'static str)
        ensures
            r@ == "folder.html_entities"@,
    {
        "folder.html_entities"
    }

    pub fn name(&self) -> (r: &'static str)
        ensures
            r@ == "Decode HTML entities in folder names"@,
    {
        "Decode HTML entities in folder names"
    }

    pub fn category(&self) -> (r: TreatmentCategory)
        ensures
            r == TreatmentCategory::FolderName,
    {
        TreatmentCategory::FolderName
    }

    pub fn is_destructive(&self) -> (r: bool)
        ensures
            !r,
    {
        false
    }

    pub fn propose(&self, node: &Node, ctx: &PassContext) -> (r: Vec<Change>)
        ensures
            changes_v(r@) == folder_name_change(node@, |t: Seq<char>| decode_v(t), "folder.html_entities"@,
                "Decoded HTML entities in folder name"@, false),
    {
        match folder_name_of(node) {
            Some(t) => {
                let after = decode_html_entities(t);
                folder_rewrite(node, after.as_str(), "folder.html_entities", "Decoded HTML entities in folder name", false)
            },
            None => Vec::new(),
        }
    }
}

/// Applies a user-configured regex replacement to folder names.
/// Destructive.
#[derive(Debug)]
pub struct RegexFolderTreatment {
    rule: Option<RegexRule>,
}

impl RegexFolderTreatment {
    /// The configured pattern and replacement, if any.
    pub closed spec fn rule_v(self) -> Option<(Seq<char>, Seq<char>)> {
        match self.rule {
            Some(r) => Some((r.pattern@, r.replacement@)),
            None => None,
        }
    }

    /// A treatment with `pattern` and `replacement`; `None` when the pattern
    /// does not compile.
    pub fn new(pattern: &str, replacement: &str) -> (r: Option<Self>)
        ensures
            r is Some == regex_compiles(pattern@),
            r matches Some(t) ==> t.rule_v() == Some((pattern@, replacement@)),
    {
        if regex_is_valid(pattern) {
            Some(RegexFolderTreatment { rule: Some(RegexRule { pattern: pattern.to_owned(), replacement: replacement.to_owned() }) })
        } else {
            None
        }
    }

    /// A treatment with no rule: it proposes nothing.
    pub fn empty() -> (r: Self)
        ensures
            r.rule_v() is None,
    {
        RegexFolderTreatment { rule: None }
    }

    /// The configured pattern and replacement (empty when there is none).
    pub fn current_rule(&self) -> (r: (String, String))
        ensures
            match self.rule_v() {
                Some((p, x)) => r.0@ == p && r.1@ == x,
                None => r.0@.len() == 0 && r.1@.len() == 0,
            },
    {
        match &self.rule {
            Some(rule) => (rule.pattern.clone(), rule.replacement.clone()),
            None => (String::new(), String::new()),
        }
    }

    pub fn id(&self) -> (r: &'static str)
        ensures
            r@ == "folder.regex"@,
    {
        "folder.regex"
    }

    pub fn name(&self) -> (r: &'static str)
        ensures
            r@ == "Apply regex to folder names"@,
    {
        "Apply regex to folder names"
    }

    pub fn category(&self) -> (r: TreatmentCategory)
        ensures
            r == TreatmentCategory::FolderName,
    {
        TreatmentCategory::FolderName
    }

    pub fn is_destructive(&self) -> (r: bool)
        ensures
            r,
    {
        true
    }

    pub fn propose(&self, node: &Node, ctx: &PassContext) -> (r: Vec<Change>)
        ensures
            changes_v(r@) == (match self.rule_v() {
                Some((p, x)) => folder_name_change(node@, |t: Seq<char>| regex_applied(p, x, t), "folder.regex"@,
                    "Applied user-configured regex to folder name"@, true),
                None => Seq::empty(),
            }),
    {
        let rule = match &self.rule {
            Some(r) => r,
            None => return Vec::new(),
        };
        match folder_name_of(node) {
            Some(t) => {
                let after = match regex_replace_all(rule.pattern.as_str(), t, rule.replacement.as_str()) {
                    Some(x) => x,
                    None => t.to_owned(),
                };
                folder_rewrite(node, after.as_str(), "folder.regex", "Applied user-configured regex to folder name", true)
            },
            None => Vec::new(),
        }
    }
}

} // verus!

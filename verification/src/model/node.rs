//! Tree nodes of a bookmark document, and their mathematical views.
use vstd::prelude::*;
use crate::model::settled::canon_url;
use crate::model::attrs::{attr_entries, AttrMap};
use crate::urls::{parse_url, url_parse_result};

verus! {

/// Stable, session-scoped identifier for a single node inside a document.
pub type NodeId = u64;

// ---------------------------------------------------------------------------
// BookmarkUrl
// ---------------------------------------------------------------------------

/// A URL that was read from a bookmark file.
///
/// A URL that parses is held as the `url` crate's serialization of it; a
/// malformed one is kept verbatim so it survives export.  URL treatments
/// only operate on `Valid` URLs.
#[derive(Debug)]
pub enum BookmarkUrl {
    Valid(String),
    Malformed { raw: String },
}

/// View of a bookmark URL.
pub enum UrlV {
    Valid(Seq<char>),
    Malformed(Seq<char>),
}

impl UrlV {
    /// The text of the URL regardless of validity.
    pub open spec fn text(self) -> Seq<char> {
        match self {
            UrlV::Valid(h) => h,
            UrlV::Malformed(r) => r,
        }
    }
}

/// The URL that parsing `text` gives: the serialization when the `url`
/// crate accepts it, the text itself otherwise.
pub open spec fn url_from_text(text: Seq<char>) -> UrlV {
    match url_parse_result(text) {
        Some(h) => UrlV::Valid(h),
        None => UrlV::Malformed(text),
    }
}

impl View for BookmarkUrl {
    type V = UrlV;

    open spec fn view(&self) -> UrlV {
        match self {
            BookmarkUrl::Valid(h) => UrlV::Valid(h@),
            BookmarkUrl::Malformed { raw } => UrlV::Malformed(raw@),
        }
    }
}

impl BookmarkUrl {
    /// Parse `text`: `Valid` with the serialization when it parses,
    /// `Malformed` holding `text` verbatim otherwise.
    pub fn parse(text: &str) -> (r: BookmarkUrl)
        ensures
            r@ == url_from_text(text@),
            canon_url(r@),
    {
        match parse_url(text) {
            Some(h) => BookmarkUrl::Valid(h),
            None => BookmarkUrl::Malformed { raw: text.to_owned() },
        }
    }

    /// Returns the raw URL string regardless of validity.
    pub fn as_str(&self) -> (r: &str)
        ensures
            r@ == self@.text(),
    {
        match self {
            BookmarkUrl::Valid(h) => h.as_str(),
            BookmarkUrl::Malformed { raw } => raw.as_str(),
        }
    }

    /// The serialization, only when the URL parsed successfully.
    pub fn as_valid(&self) -> (r: Option<&str>)
        ensures
            match self@ {
                UrlV::Valid(h) => r is Some && r->0@ == h,
                UrlV::Malformed(_) => r is None,
            },
    {
        match self {
            BookmarkUrl::Valid(h) => Some(h.as_str()),
            BookmarkUrl::Malformed { .. } => None,
        }
    }

    pub fn is_malformed(&self) -> (r: bool)
        ensures
            r == (self@ is Malformed),
    {
        match self {
            BookmarkUrl::Valid(_) => false,
            BookmarkUrl::Malformed { .. } => true,
        }
    }

    /// A copy with the same view.
    pub fn duplicate(&self) -> (r: BookmarkUrl)
        ensures
            r@ == self@,
    {
        match self {
            BookmarkUrl::Valid(h) => BookmarkUrl::Valid(h.clone()),
            BookmarkUrl::Malformed { raw } => BookmarkUrl::Malformed { raw: raw.clone() },
        }
    }
}

// ---------------------------------------------------------------------------
// BookmarkFlags
// ---------------------------------------------------------------------------

/// Identifies one boolean flag on a bookmark, so a flag change can be
/// recorded and undone.
#[derive(Debug, Clone, Copy, PartialEq, Eq, Structural)]
pub enum BookmarkFlag {
    /// Marks the URL as a known link-shortener domain.
    IsShortener,
}

/// Per-item runtime flags. Not serialized to the bookmark file.
#[derive(Debug, Clone, Copy, PartialEq, Eq, Structural)]
pub struct BookmarkFlags {
    /// True when the URL was flagged as a link-shortener.
    pub is_shortener: bool,
}

impl Default for BookmarkFlags {
    fn default() -> (r: Self)
        ensures
            !r.is_shortener,
    {
        BookmarkFlags { is_shortener: false }
    }
}

// ---------------------------------------------------------------------------
// Tree nodes
// ---------------------------------------------------------------------------

#[derive(Debug)]
pub struct Folder {
    /// Stable within-session identifier.
    pub id: NodeId,
    pub name: String,
    /// Unix seconds.
    pub add_date: Option<i64>,
    /// Unix seconds.
    pub last_modified: Option<i64>,
    /// True when this folder is the browser's bookmark toolbar folder.
    pub is_toolbar: bool,
    /// All attributes on the `<H3>` tag, preserving unknown ones.
    pub attrs: AttrMap,
    pub children: Vec<Node>,
}

#[derive(Debug)]
pub struct Bookmark {
    pub id: NodeId,
    pub title: String,
    pub url: BookmarkUrl,
    /// Unix seconds.
    pub add_date: Option<i64>,
    /// Unix seconds.
    pub last_modified: Option<i64>,
    /// Original favicon data URL from the `ICON` attribute, kept verbatim.
    pub icon_blob: Option<String>,
    /// Description text from the `<DD>` element after a `<DT><A>`.
    pub description: Option<String>,
    /// All attributes on the `<A>` tag.
    pub attrs: AttrMap,
    pub flags: BookmarkFlags,
}

#[derive(Debug, Clone, Copy)]
pub struct Separator {
    pub id: NodeId,
}

/// A tree node in a bookmark document.
#[derive(Debug)]
pub enum Node {
    Folder(Folder),
    Bookmark(Bookmark),
    Separator(Separator),
}

// ---------------------------------------------------------------------------
// Views
// ---------------------------------------------------------------------------

pub struct BookmarkV {
    pub id: NodeId,
    pub title: Seq<char>,
    pub url: UrlV,
    pub add_date: Option<i64>,
    pub last_modified: Option<i64>,
    pub icon_blob: Option<Seq<char>>,
    pub description: Option<Seq<char>>,
    pub attrs: Seq<(Seq<char>, Seq<char>)>,
    pub is_shortener: bool,
}

pub struct FolderV {
    pub id: NodeId,
    pub name: Seq<char>,
    pub add_date: Option<i64>,
    pub last_modified: Option<i64>,
    pub is_toolbar: bool,
    pub attrs: Seq<(Seq<char>, Seq<char>)>,
    pub children: Seq<NodeV>,
}

pub enum NodeV {
    Folder(FolderV),
    Bookmark(BookmarkV),
    Separator(NodeId),
}

pub open spec fn opt_str_v(o: Option<String>) -> Option<Seq<char>> {
    match o {
        Some(s) => Some(s@),
        None => None,
    }
}

pub open spec fn bookmark_v(b: Bookmark) -> BookmarkV {
    BookmarkV {
        id: b.id,
        title: b.title@,
        url: b.url@,
        add_date: b.add_date,
        last_modified: b.last_modified,
        icon_blob: opt_str_v(b.icon_blob),
        description: opt_str_v(b.description),
        attrs: attr_entries(b.attrs),
        is_shortener: b.flags.is_shortener,
    }
}

pub open spec fn folder_v(f: Folder) -> FolderV
    decreases f,
{
    FolderV {
        id: f.id,
        name: f.name@,
        add_date: f.add_date,
        last_modified: f.last_modified,
        is_toolbar: f.is_toolbar,
        attrs: attr_entries(f.attrs),
        children: nodes_v(f.children@),
    }
}

pub open spec fn node_v(n: Node) -> NodeV
    decreases n,
{
    match n {
        Node::Folder(f) => NodeV::Folder(folder_v(f)),
        Node::Bookmark(b) => NodeV::Bookmark(bookmark_v(b)),
        Node::Separator(s) => NodeV::Separator(s.id),
    }
}

pub open spec fn nodes_v(ns: Seq<Node>) -> Seq<NodeV>
    decreases ns,
{
    if ns.len() == 0 {
        Seq::empty()
    } else {
        nodes_v(ns.subrange(0, ns.len() - 1)).push(node_v(ns[ns.len() - 1]))
    }
}

pub broadcast proof fn lemma_nodes_v(ns: Seq<Node>)
    ensures
        #[trigger] nodes_v(ns).len() == ns.len(),
        forall|i: int| 0 <= i < ns.len() ==> #[trigger] nodes_v(ns)[i] == node_v(ns[i]),
    decreases ns.len(),
{
    if ns.len() > 0 {
        lemma_nodes_v(ns.subrange(0, ns.len() - 1));
    }
}

/// What the view of a folder holds.
pub broadcast proof fn lemma_folder_v(f: Folder)
    ensures
        #![trigger folder_v(f)]
        folder_v(f).id == f.id,
        folder_v(f).name == f.name@,
        folder_v(f).children == nodes_v(f.children@),
        folder_v(f).children.len() == f.children@.len(),
        forall|i: int| 0 <= i < f.children@.len() ==> #[trigger] folder_v(f).children[i] == node_v(f.children@[i]),
{
    lemma_nodes_v(f.children@);
}

impl View for Bookmark {
    type V = BookmarkV;

    open spec fn view(&self) -> BookmarkV {
        bookmark_v(*self)
    }
}

impl View for Folder {
    type V = FolderV;

    open spec fn view(&self) -> FolderV {
        folder_v(*self)
    }
}

impl View for Node {
    type V = NodeV;

    open spec fn view(&self) -> NodeV {
        node_v(*self)
    }
}

impl NodeV {
    pub open spec fn id(self) -> NodeId {
        match self {
            NodeV::Folder(f) => f.id,
            NodeV::Bookmark(b) => b.id,
            NodeV::Separator(id) => id,
        }
    }
}

impl Node {
    pub fn id(&self) -> (r: NodeId)
        ensures
            r == self@.id(),
    {
        match self {
            Node::Folder(f) => f.id,
            Node::Bookmark(b) => b.id,
            Node::Separator(s) => s.id,
        }
    }

    pub fn as_folder(&self) -> (r: Option<&Folder>)
        ensures
            match self {
                Node::Folder(f) => r == Some(f),
                _ => r is None,
            },
    {
        match self {
            Node::Folder(f) => Some(f),
            _ => None,
        }
    }

    pub fn as_bookmark(&self) -> (r: Option<&Bookmark>)
        ensures
            match self {
                Node::Bookmark(b) => r == Some(b),
                _ => r is None,
            },
    {
        match self {
            Node::Bookmark(b) => Some(b),
            _ => None,
        }
    }
}

} // verus!

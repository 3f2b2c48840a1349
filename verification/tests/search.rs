use lantern::commands::search::{occurs, search_document, search_with_index};
use lantern::commands::types::{DepthFilter, FilterSpec, SearchMode, SearchResults, SearchSpec};
use lantern::error::UiError;
use lantern::model::attrs::attr_map_new;
use lantern::model::document::{Document, DocumentStats, HeaderMetadata};
use lantern::model::node::{Bookmark, BookmarkFlags, BookmarkUrl, Folder, Node, NodeId};
use lantern::search::index::SearchIndex;

fn folder(id: NodeId, name: &str, children: Vec<Node>) -> Folder {
    Folder {
        id,
        name: name.into(),
        add_date: None,
        last_modified: None,
        is_toolbar: false,
        attrs: attr_map_new(),
        children,
    }
}

fn bookmark(id: NodeId, title: &str, url: &str) -> Node {
    Node::Bookmark(Bookmark {
        id,
        title: title.into(),
        url: BookmarkUrl::parse(url),
        add_date: None,
        last_modified: None,
        icon_blob: None,
        description: None,
        attrs: attr_map_new(),
        flags: BookmarkFlags::default(),
    })
}

fn doc_with(root: Folder) -> Document {
    let stats = DocumentStats::from_root(&root);
    Document::new(4, None, root, HeaderMetadata::default(), stats)
}

fn spec(query: &str, mode: SearchMode) -> SearchSpec {
    SearchSpec { query: query.into(), search_titles: true, search_urls: true, mode, filter: FilterSpec::default() }
}

fn ids(results: &SearchResults) -> Vec<NodeId> {
    let mut ids: Vec<NodeId> = results.items.iter().map(|i| i.id).collect();
    ids.sort_unstable();
    ids
}

#[test]
fn matchers_ignore_case_and_reject_bad_regex() {
    let root = folder(1, "Bookmarks", vec![
        bookmark(2, "MOZILLA Developer Network", "https://developer.mozilla.org/"),
        bookmark(3, "Rust book", "https://doc.rust-lang.org/book/"),
    ]);
    let glob = search_document(&root, &spec("*mozilla*", SearchMode::Glob), None).unwrap();
    assert_eq!(ids(&glob), vec![2]);
    let regex = search_document(&root, &spec("^rust", SearchMode::Regex), None).unwrap();
    assert_eq!(ids(&regex), vec![3]);
    let bad = search_document(&root, &spec("(unterminated", SearchMode::Regex), None);
    assert!(matches!(&bad, Err(UiError::InvalidOperation(m)) if m.starts_with("invalid regex: ")));
}

#[test]
fn indexed_search_agrees_with_a_full_scan() {
    let doc = doc_with(folder(
        1,
        "Bookmarks",
        vec![
            bookmark(10, "Rust async runtime", "https://example.com/a"),
            bookmark(11, "Rust types", "https://example.com/t"),
            bookmark(12, "Python async", "https://example.com/p"),
            bookmark(13, "Unrelated", "https://other.example/u"),
        ],
    ));
    let index = SearchIndex::build(&doc);
    let indexed = search_with_index(&doc.root, &spec("rust", SearchMode::Substring), &index).unwrap();
    let scanned = search_with_index(&doc.root, &spec("rust", SearchMode::Regex), &index).unwrap();
    assert_eq!(ids(&indexed), vec![10, 11]);
    assert_eq!(ids(&indexed), ids(&scanned));
}

#[test]
fn search_after_an_edit_rebuilds_the_index() {
    let mut doc = doc_with(folder(
        1,
        "Bookmarks",
        vec![bookmark(20, "Rust types", "https://example.com/a"), bookmark(21, "Python async", "https://example.com/p")],
    ));
    let rust = |doc: &Document| {
        let index = SearchIndex::build(doc);
        search_with_index(&doc.root, &spec("rust", SearchMode::Substring), &index).unwrap()
    };
    assert_eq!(ids(&rust(&doc)), vec![20]);
    doc.rename_node(20, "Renamed away".into()).unwrap();
    doc.rename_node(21, "Now rust".into()).unwrap();
    assert_eq!(ids(&rust(&doc)), vec![21]);
}

#[test]
fn blank_queries_find_nothing_and_nested_hits_keep_document_order() {
    let root = folder(1, "Bookmarks", vec![
        bookmark(5, "b rust", "https://b.example/"),
        Node::Folder(folder(6, "Inner", vec![bookmark(7, "a rust", "https://a.example/")])),
        bookmark(8, "c rust", "https://c.example/"),
    ]);
    let blank = search_document(&root, &spec("   ", SearchMode::Regex), None).unwrap();
    assert_eq!((blank.items.len(), blank.total), (0, 0));
    let all = search_document(&root, &spec("RUST", SearchMode::Substring), None).unwrap();
    let order: Vec<NodeId> = all.items.iter().map(|i| i.id).collect();
    assert_eq!(order, vec![5, 7, 8]);
    assert_eq!(all.total, 3);
    let mut shallow = spec("rust", SearchMode::Substring);
    shallow.filter.depth = Some(DepthFilter { min: None, max: Some(0) });
    let top = search_document(&root, &shallow, None).unwrap();
    assert_eq!(ids(&top), vec![5, 8]);
    let mut urls_only = spec("rust", SearchMode::Substring);
    urls_only.search_titles = false;
    assert!(search_document(&root, &urls_only, None).unwrap().items.is_empty());
}

#[test]
fn substring_occurrence() {
    assert!(occurs("library", "brar"));
    assert!(occurs("abc", ""));
    assert!(!occurs("ab", "abc"));
    assert!(!occurs("abcabd", "abd ") );
    assert!(occurs("abcabd", "abd"));
}

#[test]
fn indexed_glob_search_agrees_with_a_full_scan() {
    let doc = doc_with(folder(
        1,
        "Bookmarks",
        vec![
            bookmark(10, "Rust async runtime", "https://example.com/a"),
            bookmark(11, "Rust types", "https://example.com/t"),
            bookmark(12, "Python async", "https://example.com/p"),
            bookmark(13, "Unrelated", "https://other.example/u"),
        ],
    ));
    let index = SearchIndex::build(&doc);
    for q in ["rust*", "*async*", "r?st*", "*ex\\ample*", "py*on async"] {
        let indexed = search_with_index(&doc.root, &spec(q, SearchMode::Glob), &index).unwrap();
        let scanned = search_document(&doc.root, &spec(q, SearchMode::Glob), None).unwrap();
        assert_eq!(ids(&indexed), ids(&scanned), "query {q}");
    }
    let hits = search_with_index(&doc.root, &spec("*async*", SearchMode::Glob), &index).unwrap();
    assert_eq!(ids(&hits), vec![10, 12]);
}

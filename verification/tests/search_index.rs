use lantern::model::attrs::attr_map_new;
use lantern::model::document::{Document, DocumentStats, HeaderMetadata};
use lantern::model::ids::NodeIdAllocator;
use lantern::model::node::{Bookmark, BookmarkFlags, BookmarkUrl, Folder, Node, NodeId};
use lantern::search::index::SearchIndex;

fn make_bookmark(id: NodeId, title: &str, url: &str) -> Node {
    Node::Bookmark(Bookmark {
        id,
        title: title.into(),
        url: BookmarkUrl::parse(url),
        add_date: None,
        last_modified: None,
        icon_blob: None,
        description: None,
        attrs: attr_map_new(),
        flags: BookmarkFlags::default(),
    })
}

fn make_doc(children: Vec<Node>) -> Document {
    let mut id_gen = NodeIdAllocator::new();
    let root_id = id_gen.alloc_id();
    let root = Folder {
        id: root_id,
        name: "Bookmarks".into(),
        add_date: None,
        last_modified: None,
        is_toolbar: false,
        attrs: attr_map_new(),
        children,
    };
    let stats = DocumentStats::from_root(&root);
    Document {
        id: 3,
        path: None,
        root,
        header: HeaderMetadata::default(),
        id_gen,
        stats,
        undo_stack: Vec::new(),
        redo_stack: Vec::new(),
        dirty: false,
        history_dropped: false,
    }
}

#[test]
fn empty_document_returns_some_empty() {
    let doc = make_doc(Vec::new());
    let idx = SearchIndex::build(&doc);
    assert_eq!(idx.candidates("foo"), Some(Vec::new()));
}

#[test]
fn title_token_is_indexed_and_candidate_returns_node_id() {
    let doc = make_doc(vec![make_bookmark(42, "The Rust Programming Language", "https://example.com/")]);
    let idx = SearchIndex::build(&doc);
    let candidates = idx.candidates("rust").expect("query produces tokens");
    assert!(candidates.contains(&42), "expected 42 in candidates, got {candidates:?}");
}

#[test]
fn url_token_is_indexed_and_candidate_returns_node_id() {
    let doc = make_doc(vec![make_bookmark(7, "An example", "https://github.com/coatyl/lantern")]);
    let idx = SearchIndex::build(&doc);
    let candidates = idx.candidates("github").expect("tokens");
    assert!(candidates.contains(&7), "expected 7 in candidates, got {candidates:?}");
}

#[test]
fn two_token_query_requires_both_tokens_and_semantics() {
    let doc = make_doc(vec![
        make_bookmark(1, "Rust async runtime", "https://example.com/a"),
        make_bookmark(2, "Rust types", "https://example.com/t"),
        make_bookmark(3, "Python async", "https://example.com/p"),
    ]);
    let idx = SearchIndex::build(&doc);
    let candidates = idx.candidates("rust async").expect("tokens");
    assert_eq!(candidates, vec![1], "AND semantics across query tokens");
}

#[test]
fn empty_query_returns_none() {
    let doc = make_doc(vec![make_bookmark(1, "anything", "https://example.com/")]);
    let idx = SearchIndex::build(&doc);
    assert!(idx.candidates("").is_none());
    assert!(idx.candidates("   ").is_none());
}

#[test]
fn nontokenisable_query_returns_none() {
    let doc = make_doc(vec![make_bookmark(1, "anything", "https://example.com/")]);
    let idx = SearchIndex::build(&doc);
    assert!(idx.candidates("!!!").is_none());
    assert!(idx.candidates("...---...").is_none());
}

#[test]
fn prefix_query_hits_longer_token() {
    let doc = make_doc(vec![make_bookmark(99, "Local library catalogue", "https://example.org/")]);
    let idx = SearchIndex::build(&doc);
    let candidates = idx.candidates("lib").expect("tokens");
    assert!(candidates.contains(&99));
}

#[test]
fn build_for_25k_completes_in_under_100_ms() {
    let n: u64 = 25_000;
    let mut children = Vec::with_capacity(n as usize);
    for i in 0..n {
        children.push(make_bookmark(
            i + 1,
            &format!("Bookmark number {i}: sample title rust async lib"),
            &format!("https://example.com/host{}/page-{i}", i % 64),
        ));
    }
    let doc = make_doc(children);
    let idx = SearchIndex::build(&doc);
    assert_eq!(idx.candidates("sample").map(|c| c.len()), Some(n as usize));
}

#[test]
fn query_for_25k_returns_correct_count_and_runs_under_50_ms() {
    let n: u64 = 25_000;
    let mut children = Vec::with_capacity(n as usize);
    for i in 0..n {
        let title = if i % 100 == 0 { format!("Bookmark {i} needle") } else { format!("Bookmark {i}") };
        children.push(make_bookmark(i + 1, &title, &format!("https://example.com/page-{i}")));
    }
    let doc = make_doc(children);
    let idx = SearchIndex::build(&doc);
    let candidates = idx.candidates("needle").expect("tokens");
    assert_eq!(candidates.len(), 250, "every 100th of 25k = 250");
}

#[test]
fn short_and_mid_word_queries_still_find_their_bookmarks() {
    let doc = make_doc(vec![
        make_bookmark(1, "Google", "https://www.google.com/"),
        make_bookmark(2, "Algorithms", "https://example.com/algo"),
        make_bookmark(3, "Local library", "https://example.org/"),
    ]);
    let idx = SearchIndex::build(&doc);
    assert_eq!(idx.candidates("go"), None, "too short to narrow");
    assert_eq!(idx.candidates("brar"), Some(vec![3]));
    assert_eq!(idx.candidates("ogl"), Some(vec![1]));
    assert_eq!(idx.candidates("orith"), Some(vec![2]));
    assert_eq!(idx.candidates("go library"), Some(vec![3]));
}

#[test]
fn unicode_query_falls_through_to_none_or_empty() {
    let doc = make_doc(vec![make_bookmark(1, "Hello world", "https://example.com/")]);
    let idx = SearchIndex::build(&doc);
    assert!(idx.candidates("中文").is_none());
}

#[test]
fn candidates_come_back_sorted_and_nested_bookmarks_are_indexed() {
    let inner = Node::Folder(Folder {
        id: 50,
        name: "Inner".into(),
        add_date: None,
        last_modified: None,
        is_toolbar: false,
        attrs: attr_map_new(),
        children: vec![make_bookmark(9, "Zebra crossing", "https://zebra.example/")],
    });
    let doc = make_doc(vec![
        make_bookmark(30, "zebra stripes", "https://a.example/"),
        inner,
        make_bookmark(4, "ZEBRA", "https://b.example/"),
    ]);
    let idx = SearchIndex::build(&doc);
    assert_eq!(idx.candidates("Zebra"), Some(vec![4, 9, 30]));
    assert_eq!(idx.candidates("zebra quagga"), Some(Vec::new()));
}

#[test]
fn default_index_narrows_every_query_to_nothing() {
    let idx = SearchIndex::default();
    assert_eq!(idx.candidates("anything"), Some(Vec::new()));
    assert_eq!(idx.candidates("x"), None);
}

use lantern::diff::diff_documents;
use lantern::model::attrs::attr_map_new;
use lantern::model::document::{Document, DocumentStats, HeaderMetadata};
use lantern::model::node::{Bookmark, BookmarkFlags, BookmarkUrl, Folder, Node};

fn bm(id: u64, url: &str, title: &str) -> Node {
    Node::Bookmark(Bookmark {
        id,
        title: title.into(),
        url: BookmarkUrl::parse(url),
        add_date: None,
        last_modified: None,
        icon_blob: None,
        description: None,
        attrs: attr_map_new(),
        flags: BookmarkFlags::default(),
    })
}

fn doc_with(children: Vec<Node>) -> Document {
    let root = Folder {
        id: 1,
        name: "Bookmarks".into(),
        add_date: None,
        last_modified: None,
        is_toolbar: false,
        attrs: attr_map_new(),
        children,
    };
    let stats = DocumentStats::from_root(&root);
    Document::new(7, None, root, HeaderMetadata::default(), stats)
}

fn folder(id: u64, name: &str, children: Vec<Node>) -> Node {
    Node::Folder(Folder {
        id,
        name: name.into(),
        children,
        add_date: None,
        last_modified: None,
        is_toolbar: false,
        attrs: attr_map_new(),
    })
}

#[test]
fn identical_documents_produce_empty_diff() {
    let a = doc_with(vec![bm(1, "https://a.example/", "A")]);
    let b = doc_with(vec![bm(2, "https://a.example/", "A")]);
    let diff = diff_documents(&a, &b);
    assert!(diff.is_empty());
    assert_eq!(diff.total(), 0);
}

#[test]
fn detects_added_bookmark() {
    let a = doc_with(vec![bm(1, "https://a.example/", "A")]);
    let b = doc_with(vec![bm(2, "https://a.example/", "A"), bm(3, "https://b.example/", "B")]);
    let diff = diff_documents(&a, &b);
    assert_eq!(diff.added.len(), 1);
    assert_eq!(diff.added[0].url, "https://b.example/");
    assert!(diff.removed.is_empty());
    assert!(diff.modified.is_empty());
}

#[test]
fn detects_removed_bookmark() {
    let a = doc_with(vec![bm(1, "https://a.example/", "A"), bm(2, "https://b.example/", "B")]);
    let b = doc_with(vec![bm(3, "https://a.example/", "A")]);
    let diff = diff_documents(&a, &b);
    assert_eq!(diff.removed.len(), 1);
    assert_eq!(diff.removed[0].url, "https://b.example/");
    assert!(diff.added.is_empty());
}

#[test]
fn detects_title_change_as_modified() {
    let a = doc_with(vec![bm(1, "https://a.example/", "Old title")]);
    let b = doc_with(vec![bm(2, "https://a.example/", "New title")]);
    let diff = diff_documents(&a, &b);
    assert_eq!(diff.modified.len(), 1);
    assert_eq!(diff.modified[0].before.title, "Old title");
    assert_eq!(diff.modified[0].after.title, "New title");
}

#[test]
fn diff_walks_into_folders() {
    let nested_a = folder(10, "Inbox", vec![bm(11, "https://nested.example/", "Nested")]);
    let a = doc_with(vec![nested_a]);
    let b = doc_with(vec![]);
    let diff = diff_documents(&a, &b);
    assert_eq!(diff.removed.len(), 1);
    assert_eq!(diff.removed[0].url, "https://nested.example/");
}

#[test]
fn diff_ignores_folder_moves() {
    let nested = folder(10, "Inbox", vec![bm(11, "https://x.example/", "X")]);
    let a = doc_with(vec![bm(1, "https://x.example/", "X")]);
    let b = doc_with(vec![nested]);
    let diff = diff_documents(&a, &b);
    assert!(diff.is_empty());
}

#[test]
fn diff_total_counts_each_bucket() {
    let a = doc_with(vec![bm(1, "https://a.example/", "A"), bm(2, "https://b.example/", "B")]);
    let b = doc_with(vec![bm(3, "https://a.example/", "A renamed"), bm(4, "https://c.example/", "C")]);
    let diff = diff_documents(&a, &b);
    assert_eq!(diff.added.len(), 1);
    assert_eq!(diff.removed.len(), 1);
    assert_eq!(diff.modified.len(), 1);
    assert_eq!(diff.total(), 3);
    assert!(!diff.is_empty());
}

#[test]
fn buckets_are_sorted_by_url_and_last_duplicate_wins() {
    let a = doc_with(vec![
        bm(1, "https://z.example/", "Z"),
        bm(2, "https://m.example/", "M"),
        bm(3, "https://b.example/", "first"),
        bm(4, "https://b.example/", "second"),
    ]);
    let b = doc_with(vec![bm(5, "https://b.example/", "second")]);
    let diff = diff_documents(&a, &b);
    let urls: Vec<&str> = diff.removed.iter().map(|s| s.url.as_str()).collect();
    assert_eq!(urls, vec!["https://m.example/", "https://z.example/"]);
    assert!(diff.modified.is_empty());
    let back = diff_documents(&b, &a);
    let added: Vec<&str> = back.added.iter().map(|s| s.url.as_str()).collect();
    assert_eq!(added, urls);
}

#[test]
fn malformed_urls_are_compared_by_their_text() {
    let a = doc_with(vec![bm(1, "not a url", "x")]);
    let b = doc_with(vec![bm(2, "not a url", "y")]);
    let diff = diff_documents(&a, &b);
    assert_eq!(diff.modified.len(), 1);
    assert_eq!(diff.modified[0].before.url, "not a url");
}

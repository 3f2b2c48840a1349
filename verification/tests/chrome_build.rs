use lantern::error::CoreError;
use lantern::model::node::Node;
use lantern::parser::chrome::{build_chrome_document, ChromeBookmarksFile, ChromeNode};

fn url(name: &str, href: &str, date_added: Option<i64>) -> ChromeNode {
    ChromeNode {
        kind: Some("url".into()),
        name: Some(name.into()),
        url: Some(href.into()),
        date_added,
        date_modified: None,
        children: vec![],
    }
}

fn folder(name: &str, date_added: Option<i64>, children: Vec<ChromeNode>) -> ChromeNode {
    ChromeNode {
        kind: Some("folder".into()),
        name: Some(name.into()),
        url: None,
        date_added,
        date_modified: None,
        children,
    }
}

fn file(roots: Vec<(&str, ChromeNode)>) -> ChromeBookmarksFile {
    ChromeBookmarksFile { roots: roots.into_iter().map(|(k, n)| (k.to_string(), n)).collect() }
}

const CHROME_1700000000: i64 = 13_344_473_600_000_000;

#[test]
fn bar_folder_is_the_toolbar_and_keeps_its_date() {
    let f = file(vec![(
        "bookmark_bar",
        folder("Bookmarks bar", Some(CHROME_1700000000), vec![url("Plain", "https://example.org/", Some(CHROME_1700000000))]),
    )]);
    let doc = build_chrome_document(&f, true, 7).unwrap();
    assert_eq!(doc.id, 7);
    assert!(doc.header.has_bom);
    assert_eq!(doc.header.charset.as_deref(), Some("UTF-8"));
    assert_eq!(doc.header.title.as_deref(), Some("Bookmarks"));
    assert_eq!(doc.stats.bookmark_count, 1);
    let Node::Folder(bar) = &doc.root.children[0] else { panic!("expected bar") };
    assert!(bar.is_toolbar);
    assert_eq!(bar.add_date, Some(1_700_000_000));
    let Node::Bookmark(b) = &bar.children[0] else { panic!("expected bookmark") };
    assert_eq!(b.add_date, Some(1_700_000_000));
    // Ids: the bookmark first, then its folder, then the synthetic root.
    assert_eq!(b.id, 1);
    assert_eq!(bar.id, 2);
    assert_eq!(doc.root.id, 3);
    assert_eq!(doc.id_gen.peek(), 4);
}

#[test]
fn a_malformed_url_is_kept_verbatim() {
    let f = file(vec![("other", folder("Other bookmarks", None, vec![url("Broken", "not a url at all", None)]))]);
    let doc = build_chrome_document(&f, false, 1).unwrap();
    let Node::Folder(other) = &doc.root.children[0] else { panic!("expected folder") };
    let Node::Bookmark(bm) = &other.children[0] else { panic!("expected bookmark") };
    assert!(bm.url.is_malformed());
    assert_eq!(bm.url.as_str(), "not a url at all");
}

#[test]
fn unknown_types_are_skipped_and_untyped_nodes_are_classified() {
    let mut unknown = folder("ignored", None, vec![url("Inside", "https://x.example/", None)]);
    unknown.kind = Some("workspace".into());
    let mut untyped_url = url("Untyped", "https://y.example/", None);
    untyped_url.kind = None;
    let mut untyped_folder = folder("Untyped folder", None, vec![]);
    untyped_folder.kind = None;
    let mut shouting = url("Shouting", "https://z.example/", None);
    shouting.kind = Some("URL".into());
    let f = file(vec![(
        "other",
        folder("Other bookmarks", None, vec![unknown, untyped_url, untyped_folder, shouting]),
    )]);
    let doc = build_chrome_document(&f, false, 1).unwrap();
    assert_eq!(doc.stats.bookmark_count, 2);
    assert_eq!(doc.stats.folder_count, 2);
}

#[test]
fn no_roots_is_a_parse_failure() {
    let err = build_chrome_document(&file(vec![]), false, 1).unwrap_err();
    match err {
        CoreError::ParseFailed { line, column, reason } => {
            assert_eq!((line, column), (0, 0));
            assert!(reason.contains("empty"), "unexpected reason: {reason}");
        }
        other => panic!("expected ParseFailed, got {other:?}"),
    }
}

#[test]
fn known_roots_come_first_then_the_rest_in_file_order() {
    let f = file(vec![
        ("zeta", folder("Z", None, vec![])),
        ("other", folder("Other", None, vec![])),
        ("alpha", folder("A", None, vec![])),
        ("bookmark_bar", folder("Bar", None, vec![])),
        ("mid", folder("M", None, vec![])),
    ]);
    let doc = build_chrome_document(&f, false, 1).unwrap();
    let names: Vec<_> = doc.root.children.iter().map(|n| n.as_folder().unwrap().name.as_str()).collect();
    assert_eq!(names, ["Bar", "Other", "Z", "A", "M"]);
    assert!(doc.root.children[0].as_folder().unwrap().is_toolbar);
    assert!(!doc.root.children[1].as_folder().unwrap().is_toolbar);
}

#[test]
fn out_of_range_chrome_dates_are_dropped() {
    let f = file(vec![("other", folder("Other", Some(i64::MIN), vec![url("Far", "https://far.example/", Some(i64::MAX))]))]);
    let doc = build_chrome_document(&f, false, 1).unwrap();
    let o = doc.root.children[0].as_folder().unwrap();
    assert_eq!(o.add_date, None);
    assert_eq!(o.children[0].as_bookmark().unwrap().add_date, None);
}

use lantern::model::attrs::attr_map_new;
use lantern::model::document::{Document, DocumentStats, HeaderMetadata};
use lantern::model::node::{Bookmark, BookmarkFlags, BookmarkUrl, Folder, Node};
use lantern::sanitize::pass::{run_pass, BuiltinTreatment, PassTarget, RuleSet};
use lantern::sanitize::treatment::{Change, ChangeKind, PassContext};
use lantern::sanitize::treatments::duplicates::{
    exact_url_key, near_url_key, ExactUrlDuplicatesTreatment, NearUrlDuplicatesTreatment,
};

fn ctx() -> PassContext {
    PassContext { document_id: 0 }
}

fn bm(id: u64, href: &str) -> Node {
    bm_dated(id, href, None)
}

fn bm_dated(id: u64, href: &str, add_date: Option<i64>) -> Node {
    let url = BookmarkUrl::parse(href);
    assert!(!url.is_malformed());
    Node::Bookmark(Bookmark {
        id,
        title: format!("T{id}"),
        url,
        add_date,
        last_modified: None,
        icon_blob: None,
        description: None,
        attrs: attr_map_new(),
        flags: BookmarkFlags::default(),
    })
}

fn make_doc_with_root(children: Vec<Node>) -> Document {
    let root = Folder {
        id: 99,
        name: "Bookmarks".into(),
        add_date: None,
        last_modified: None,
        is_toolbar: false,
        attrs: attr_map_new(),
        children,
    };
    let stats = DocumentStats::from_root(&root);
    Document::new(5, None, root, HeaderMetadata::default(), stats)
}

fn propose(doc: &Document) -> Vec<Change> {
    ExactUrlDuplicatesTreatment.propose_document(doc, &ctx())
}

fn near(doc: &Document) -> Vec<Change> {
    NearUrlDuplicatesTreatment.propose_document(doc, &ctx())
}

fn exact_key(href: &str) -> String {
    exact_url_key(&BookmarkUrl::parse(href))
}

fn near_key(href: &str) -> String {
    near_url_key(&BookmarkUrl::parse(href))
}

#[test]
fn exact_dupes_collapse() {
    let doc = make_doc_with_root(vec![bm(1, "https://a.com/page"), bm(2, "https://a.com/page")]);
    let changes = propose(&doc);
    assert_eq!(changes.len(), 1);
    assert_eq!(changes[0].node_id, 2);
    assert!(matches!(changes[0].kind, ChangeKind::DeleteNode));
}

#[test]
fn different_urls_do_not_collapse() {
    let doc = make_doc_with_root(vec![bm(1, "https://a.com/one"), bm(2, "https://a.com/two")]);
    assert!(propose(&doc).is_empty());
}

#[test]
fn query_param_differences_are_not_collapsed() {
    let doc = make_doc_with_root(vec![bm(1, "https://a.com/page?ref=1"), bm(2, "https://a.com/page?ref=2")]);
    assert!(propose(&doc).is_empty());
}

#[test]
fn query_param_order_is_not_canonicalised() {
    let doc = make_doc_with_root(vec![bm(1, "https://a.com/?b=2&a=1"), bm(2, "https://a.com/?a=1&b=2")]);
    assert!(propose(&doc).is_empty());
}

#[test]
fn fragment_differences_are_not_collapsed() {
    let doc = make_doc_with_root(vec![bm(1, "https://a.com/page"), bm(2, "https://a.com/page#section")]);
    assert!(propose(&doc).is_empty());
}

#[test]
fn trailing_slash_is_canonicalised() {
    let doc = make_doc_with_root(vec![bm(1, "https://a.com/page"), bm(2, "https://a.com/page/")]);
    let changes = propose(&doc);
    assert_eq!(changes.len(), 1);
    assert_eq!(changes[0].node_id, 2);
}

#[test]
fn host_case_is_canonicalised() {
    let doc = make_doc_with_root(vec![bm(1, "https://Example.COM/page"), bm(2, "https://example.com/page")]);
    let changes = propose(&doc);
    assert_eq!(changes.len(), 1);
    assert_eq!(changes[0].node_id, 2);
}

#[test]
fn three_copies_keep_first_seen_when_undated() {
    let doc = make_doc_with_root(vec![bm(1, "https://a.com/"), bm(2, "https://a.com/"), bm(3, "https://a.com/")]);
    let ids: Vec<_> = propose(&doc).iter().map(|c| c.node_id).collect();
    assert_eq!(ids, vec![2, 3]);
}

#[test]
fn keeps_oldest_add_date() {
    let doc = make_doc_with_root(vec![
        bm_dated(1, "https://a.com/page", Some(2_000)),
        bm_dated(2, "https://a.com/page", Some(1_000)),
        bm_dated(3, "https://a.com/page", Some(3_000)),
    ]);
    let changes = propose(&doc);
    let ids: Vec<_> = changes.iter().map(|c| c.node_id).collect();
    assert_eq!(ids, vec![1, 3]);
    assert!(changes.iter().all(|c| c.rationale.starts_with("Same URL as “T2”, which is kept (older)")));
}

#[test]
fn finds_duplicates_across_folders() {
    let subfolder = Node::Folder(Folder {
        id: 50,
        name: "Sub".into(),
        add_date: None,
        last_modified: None,
        is_toolbar: false,
        attrs: attr_map_new(),
        children: vec![bm(2, "https://a.com/")],
    });
    let doc = make_doc_with_root(vec![bm(1, "https://a.com/"), subfolder]);
    let changes = propose(&doc);
    assert_eq!(changes.len(), 1);
    assert_eq!(changes[0].node_id, 2);
}

#[test]
fn deletes_are_destructive_and_unapproved() {
    let doc = make_doc_with_root(vec![bm(1, "https://a.com/"), bm(2, "https://a.com/")]);
    let changes = propose(&doc);
    assert_eq!(changes.len(), 1);
    assert!(changes[0].destructive);
    assert!(!changes[0].approved);
    assert_eq!(changes[0].treatment_id, "structure.duplicates.exact_url");
}

#[test]
fn unique_and_duplicate_groups_coexist() {
    let doc = make_doc_with_root(vec![
        bm(1, "https://keep-me.com/"),
        bm(2, "https://dup.com/"),
        bm(3, "https://dup.com/"),
        bm(4, "https://also-unique.com/"),
    ]);
    let changes = propose(&doc);
    assert_eq!(changes.len(), 1);
    assert_eq!(changes[0].node_id, 3);
}

#[test]
fn run_pass_emits_unapproved_deletes_until_apply() {
    let mut doc = make_doc_with_root(vec![bm(1, "https://a.com/"), bm(2, "https://a.com/")]);
    let rs = RuleSet {
        id: "find-duplicates".into(),
        name: "Find duplicates".into(),
        treatments: vec![BuiltinTreatment::ExactUrlDuplicates(ExactUrlDuplicatesTreatment)],
    };
    let mut cs = run_pass(&doc, &rs, PassTarget::AllNodes);
    assert_eq!(cs.changes.len(), 1);
    assert!(!cs.changes[0].approved);
    doc.apply(&cs).unwrap();
    assert_eq!(doc.stats.bookmark_count, 2, "unapproved delete must not apply");

    cs.changes[0].approved = true;
    doc.apply(&cs).unwrap();
    assert_eq!(doc.stats.bookmark_count, 1);
    assert_eq!(doc.root.children[0].id(), 1);
}

#[test]
fn deletes_are_listed_in_document_order() {
    let doc = make_doc_with_root(vec![
        bm(1, "https://a.com/"),
        bm(2, "https://b.com/"),
        bm(3, "https://c.com/"),
        bm(4, "https://c.com/"),
        bm(5, "https://b.com/"),
        bm(6, "https://a.com/"),
    ]);
    let ids: Vec<_> = propose(&doc).iter().map(|c| c.node_id).collect();
    assert_eq!(ids, vec![4, 5, 6]);
}

#[test]
fn key_strips_trailing_slash_but_keeps_query() {
    assert_eq!(exact_key("https://a.com/page/?q=1"), exact_key("https://a.com/page?q=1"));
    assert_ne!(exact_key("https://a.com/page?q=1"), exact_key("https://a.com/page?q=2"));
}

#[test]
fn key_root_slash_stays_root() {
    assert_eq!(exact_key("https://a.com/"), "https://a.com/");
}

#[test]
fn near_key_equates_the_same_page_and_nothing_else() {
    let base = near_key("https://example.com/docs?page=2&lang=en");
    for same in [
        "http://example.com/docs?page=2&lang=en",
        "https://www.example.com/docs?page=2&lang=en",
        "https://example.com/docs/?page=2&lang=en",
        "https://example.com/docs?lang=en&page=2",
        "https://example.com/docs?page=2&lang=en#intro",
        "https://example.com/docs?utm_source=x&page=2&fbclid=y&lang=en",
    ] {
        assert_eq!(near_key(same), base, "{same}");
    }
    for different in [
        "https://example.com/docs?page=3&lang=en",
        "https://example.com/docs?page=2",
        "https://example.com/Docs?page=2&lang=en",
        "https://docs.example.com/docs?page=2&lang=en",
    ] {
        assert_ne!(near_key(different), base, "{different}");
    }
}

#[test]
fn near_duplicates_name_the_keeper_and_what_differs() {
    let doc = make_doc_with_root(vec![
        bm(1, "https://example.com/page"),
        bm(2, "http://www.example.com/page/?utm_source=mail#top"),
        bm(3, "https://example.com/page?id=7"),
    ]);
    let changes = near(&doc);
    assert_eq!(changes.len(), 1);
    assert_eq!(changes[0].node_id, 2);
    assert_eq!(
        changes[0].rationale,
        "Same page as “T1”, which is kept (first in the document); differs only in \
         http vs https, www., trailing slash, tracking parameters, #fragment"
    );
    assert!(changes[0].destructive && !changes[0].approved);
}

#[test]
fn near_groups_include_every_exact_group() {
    let doc = make_doc_with_root(vec![
        bm(1, "https://a.com/x"),
        bm(2, "https://a.com/x/"),
        bm(3, "http://a.com/x#y"),
        bm(4, "https://b.com/"),
    ]);
    let exact: Vec<_> = propose(&doc).iter().map(|c| c.node_id).collect();
    let near: Vec<_> = near(&doc).iter().map(|c| c.node_id).collect();
    assert_eq!(exact, vec![2]);
    assert_eq!(near, vec![2, 3]);
    assert!(exact.iter().all(|id| near.contains(id)));
}

#[test]
fn parameter_order_is_named_when_only_the_order_differs() {
    let doc = make_doc_with_root(vec![bm(1, "https://a.com/?a=1&b=2"), bm(2, "https://a.com/?b=2&a=1")]);
    let changes = near(&doc);
    assert_eq!(changes.len(), 1);
    assert_eq!(
        changes[0].rationale,
        "Same page as “T1”, which is kept (first in the document); differs only in parameter order"
    );
}

#[test]
fn malformed_urls_group_by_their_text_and_blank_keepers_show_the_url() {
    let mut a = bm(1, "https://a.com/");
    let mut b = bm(2, "https://a.com/");
    if let Node::Bookmark(x) = &mut a {
        x.url = BookmarkUrl::parse("not a url");
        x.title = "   ".into();
    }
    if let Node::Bookmark(x) = &mut b {
        x.url = BookmarkUrl::parse("not a url");
    }
    let doc = make_doc_with_root(vec![a, b]);
    let changes = near(&doc);
    assert_eq!(changes.len(), 1);
    assert_eq!(changes[0].rationale, "Same URL as “not a url”, which is kept (first in the document)");
}

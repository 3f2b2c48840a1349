use lantern::model::attrs::attr_map_new;
use lantern::model::document::Field;
use lantern::model::node::{Bookmark, BookmarkFlags, BookmarkUrl, Folder, Node};
use lantern::sanitize::treatment::PassContext;
use lantern::sanitize::treatments::folder_name::{
    FolderHtmlEntitiesTreatment, FolderWhitespaceTreatment, RegexFolderTreatment,
};


fn make_folder(name: &str) -> Node {
    Node::Folder(Folder {
        id: 7,
        name: name.to_owned(),
        add_date: None,
        last_modified: None,
        is_toolbar: false,
        attrs: attr_map_new(),
        children: vec![],
    })
}

fn make_bookmark(title: &str) -> Node {
    Node::Bookmark(Bookmark {
        id: 8,
        title: title.to_owned(),
        url: BookmarkUrl::Malformed { raw: "x".into() },
        add_date: None,
        last_modified: None,
        icon_blob: None,
        description: None,
        attrs: attr_map_new(),
        flags: BookmarkFlags::default(),
    })
}

fn ctx() -> PassContext {
    PassContext { document_id: 0 }
}

// ── FolderWhitespaceTreatment ──────────────────────────────────────────

#[test]
fn folder_whitespace_collapses_runs() {
    let n = make_folder("   News   &   Stuff   ");
    let changes = FolderWhitespaceTreatment.propose(&n, &ctx());
    assert_eq!(changes.len(), 1);
    assert_eq!(changes[0].field_after().unwrap(), "News & Stuff");
    assert_eq!(changes[0].target_field().unwrap(), Field::FolderName);
}

#[test]
fn folder_whitespace_noop_on_clean_name() {
    let n = make_folder("Recipes");
    assert!(FolderWhitespaceTreatment.propose(&n, &ctx()).is_empty());
}

#[test]
fn folder_whitespace_skips_bookmark() {
    let bm = make_bookmark("  spaced title  ");
    assert!(FolderWhitespaceTreatment.propose(&bm, &ctx()).is_empty());
}

// ── FolderHtmlEntitiesTreatment ────────────────────────────────────────

#[test]
fn folder_html_entities_decodes_amp() {
    let n = make_folder("Tom &amp; Jerry");
    let changes = FolderHtmlEntitiesTreatment.propose(&n, &ctx());
    assert_eq!(changes.len(), 1);
    assert_eq!(changes[0].field_after().unwrap(), "Tom & Jerry");
}

#[test]
fn folder_html_entities_decode_dashes_like_titles() {
    let n = make_folder("Rust &mdash; notes &ndash; misc");
    let changes = FolderHtmlEntitiesTreatment.propose(&n, &ctx());
    assert_eq!(changes[0].field_after().unwrap(), "Rust — notes – misc");
}

#[test]
fn folder_html_entities_decodes_numeric() {
    let n = make_folder("&#169; Vault");
    let changes = FolderHtmlEntitiesTreatment.propose(&n, &ctx());
    assert_eq!(changes[0].field_after().unwrap(), "© Vault");
}

#[test]
fn folder_html_entities_noop_on_clean_name() {
    let n = make_folder("Plain");
    assert!(FolderHtmlEntitiesTreatment.propose(&n, &ctx()).is_empty());
}

#[test]
fn folder_html_entities_skips_bookmark() {
    let bm = make_bookmark("Tom &amp; Jerry");
    assert!(FolderHtmlEntitiesTreatment.propose(&bm, &ctx()).is_empty());
}

// ── RegexFolderTreatment ───────────────────────────────────────────────

#[test]
fn folder_regex_replaces_match() {
    let t = RegexFolderTreatment::new(r"^TODO[ \t]+", "").unwrap();
    let n = make_folder("TODO Cleanup");
    let changes = t.propose(&n, &ctx());
    assert_eq!(changes.len(), 1);
    assert_eq!(changes[0].field_after().unwrap(), "Cleanup");
}

#[test]
fn folder_regex_empty_is_noop() {
    let n = make_folder("anything");
    assert!(RegexFolderTreatment::empty().propose(&n, &ctx()).is_empty());
}

#[test]
fn folder_regex_invalid_pattern_returns_none() {
    assert!(RegexFolderTreatment::new(r"(unclosed", "").is_none());
}

#[test]
fn folder_regex_destructive_and_unapproved() {
    let t = RegexFolderTreatment::new(r"x", "y").unwrap();
    let n = make_folder("xyz");
    let changes = t.propose(&n, &ctx());
    assert_eq!(changes.len(), 1);
    assert!(changes[0].destructive);
    assert!(!changes[0].approved);
}

#[test]
fn folder_regex_skips_bookmarks() {
    let t = RegexFolderTreatment::new(r"x", "y").unwrap();
    let bm = make_bookmark("xyz");
    assert!(t.propose(&bm, &ctx()).is_empty());
}




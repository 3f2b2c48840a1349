use std::collections::HashSet;

use lantern::commands::catalogue::{list_shortcuts, list_treatments};
use lantern::commands::documents::{diff_report, group_tabs, subtree_document};
use lantern::commands::report::{count_kinds, describe_builtin, find_bookmark_preview, max_depth};
use lantern::model::attrs::attr_map_new;
use lantern::model::document::{Document, DocumentStats, Field, HeaderMetadata};
use lantern::model::node::{Bookmark, BookmarkFlag, BookmarkFlags, BookmarkUrl, Folder, Node};
use lantern::sanitize::treatment::Change;

fn bookmark(id: u64, title: &str, href: &str) -> Node {
    Node::Bookmark(Bookmark {
        id,
        title: title.into(),
        url: BookmarkUrl::parse(href),
        add_date: None,
        last_modified: None,
        icon_blob: None,
        description: None,
        attrs: attr_map_new(),
        flags: BookmarkFlags::default(),
    })
}

fn folder(id: u64, name: &str, children: Vec<Node>) -> Folder {
    Folder {
        id,
        name: name.into(),
        add_date: None,
        last_modified: None,
        is_toolbar: false,
        attrs: attr_map_new(),
        children,
    }
}

fn doc_of(root: Folder, title: Option<&str>) -> Document {
    let stats = DocumentStats::from_root(&root);
    let mut header = HeaderMetadata::default();
    header.title = title.map(|t| t.to_string());
    Document::new(1, None, root, header, stats)
}

#[test]
fn shortcut_action_ids_are_unique() {
    let shortcuts = list_shortcuts();
    let ids: HashSet<&str> = shortcuts.iter().map(|s| s.action_id.as_str()).collect();
    assert_eq!(ids.len(), shortcuts.len());
}

#[test]
fn the_treatment_catalogue_lists_every_builtin_once() {
    let infos = list_treatments();
    let ids: HashSet<&str> = infos.iter().map(|t| t.id.as_str()).collect();
    assert_eq!(ids.len(), infos.len());
    assert!(ids.contains("url.qp.utm"));
    assert!(ids.contains("structure.duplicates.exact_url"));
    let dupes = infos.iter().find(|t| t.id == "structure.duplicates.exact_url").unwrap();
    assert!(dupes.destructive);
}

#[test]
fn merge_picks_group_by_first_seen_tab() {
    let (tabs, index) = group_tabs(&vec![7, 3, 7, 9, 3]);
    assert_eq!(tabs, vec![7, 3, 9]);
    assert_eq!(index, vec![0, 1, 0, 2, 1]);
}

#[test]
fn comparing_two_documents_reports_titles_and_bookmark_changes() {
    let left = doc_of(
        folder(99, "", vec![bookmark(1, "Old", "https://a.example/"), bookmark(2, "Gone", "https://b.example/")]),
        Some("Left"),
    );
    let right = doc_of(
        folder(99, "", vec![bookmark(1, "New", "https://a.example/"), bookmark(3, "Fresh", "https://c.example/")]),
        None,
    );
    let r = diff_report(&left, &right);
    assert_eq!(r.left_title, "Left");
    assert_eq!(r.right_title, "Bookmarks");
    assert_eq!(r.removed.len(), 1);
    assert_eq!(r.added.len(), 1);
    assert_eq!(r.modified.len(), 1);
}

#[test]
fn a_folder_becomes_a_document_of_its_own() {
    let work = folder(10, "Work", vec![bookmark(11, "Inside", "https://a.example/")]);
    let source = doc_of(folder(99, "", vec![Node::Folder(folder(10, "Work", vec![bookmark(11, "Inside", "https://a.example/")]))]), Some("T"));
    let d = subtree_document(&source, &work);
    assert_eq!(d.root.name, "Work");
    assert_eq!(d.stats.bookmark_count, 1);
    assert_eq!(d.header.title.as_deref(), Some("T"));
    assert!(d.undo_stack.is_empty());
}

#[test]
fn depth_counts_folder_edges_from_the_root() {
    let flat = folder(0, "", vec![bookmark(1, "a", "https://a.example/")]);
    assert_eq!(max_depth(&flat), 0);
    let nested = folder(
        0,
        "",
        vec![
            Node::Folder(folder(1, "one", vec![])),
            Node::Folder(folder(2, "two", vec![Node::Folder(folder(3, "three", vec![]))])),
        ],
    );
    assert_eq!(max_depth(&nested), 2);
}

#[test]
fn changes_are_counted_by_kind() {
    let changes = vec![
        Change::set_field(1, Field::Title, "a", "b", "t", "r", false),
        Change::delete_node(2, "t", "r"),
        Change::delete_node(3, "t", "r"),
        Change::set_flag(4, BookmarkFlag::IsShortener, false, true, "t", "r"),
    ];
    assert_eq!(count_kinds(&changes), (1, 2, 1));
}

#[test]
fn a_deletion_preview_names_the_bookmark_below_the_root() {
    let root = folder(0, "", vec![Node::Folder(folder(1, "f", vec![bookmark(2, "Deep", "https://deep.example/")]))]);
    assert_eq!(
        find_bookmark_preview(&root, 2),
        Some(("Deep".to_string(), "https://deep.example/".to_string()))
    );
    assert_eq!(find_bookmark_preview(&root, 1), None);
    assert_eq!(find_bookmark_preview(&root, 42), None);
}

#[test]
fn builtin_rule_sets_have_descriptions() {
    assert!(describe_builtin("Find duplicates").starts_with("propose deleting exact-URL duplicates"));
    assert_eq!(describe_builtin("Mine"), "(custom)");
}

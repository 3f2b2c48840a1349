use lantern::model::attrs::attr_map_new;
use lantern::model::document::{Document, DocumentStats, HeaderMetadata};
use lantern::model::node::{Bookmark, BookmarkFlags, BookmarkUrl, Folder, Node, Separator};
use lantern::sanitize::treatment::PassContext;
use lantern::sanitize::treatments::cross::EmptyFoldersTreatment;

fn next_document_id() -> u64 {
    1
}



fn ctx() -> PassContext {
    PassContext { document_id: 0 }
}

fn bm(id: u64, href: &str) -> Node {
    let url = BookmarkUrl::parse(href);
    Node::Bookmark(Bookmark {
        id,
        title: "T".into(),
        url,
        add_date: None,
        last_modified: None,
        icon_blob: None,
        description: None,
        attrs: attr_map_new(),
        flags: BookmarkFlags::default(),
    })
}

fn make_doc_with_root(children: Vec<Node>) -> Document {
    let root = Folder {
        id: 99,
        name: "Bookmarks".into(),
        add_date: None,
        last_modified: None,
        is_toolbar: false,
        attrs: attr_map_new(),
        children,
    };
    let stats = DocumentStats::from_root(&root);
    Document::new(
        next_document_id(),
        None,
        root,
        HeaderMetadata::default(),
        stats,
    )
}

#[test]
fn empty_folders_no_changes_when_all_have_content() {
    let doc = make_doc_with_root(vec![bm(1, "https://a.com/")]);
    let changes = EmptyFoldersTreatment.propose_document(&doc, &ctx());
    assert!(changes.is_empty());
}

#[test]
fn empty_folders_flags_empty_leaf_folder() {
    let empty = Node::Folder(Folder {
        id: 50,
        name: "Empty".into(),
        add_date: None,
        last_modified: None,
        is_toolbar: false,
        attrs: attr_map_new(),
        children: vec![],
    });
    let doc = make_doc_with_root(vec![bm(1, "https://a.com/"), empty]);
    let changes = EmptyFoldersTreatment.propose_document(&doc, &ctx());
    assert_eq!(changes.len(), 1);
    assert_eq!(changes[0].node_id, 50);
}

#[test]
fn empty_folders_only_outermost_empty_ancestor() {
    // Outer empty folder containing inner empty folder: only outer is proposed.
    let inner = Node::Folder(Folder {
        id: 51,
        name: "Inner".into(),
        add_date: None,
        last_modified: None,
        is_toolbar: false,
        attrs: attr_map_new(),
        children: vec![],
    });
    let outer = Node::Folder(Folder {
        id: 50,
        name: "Outer".into(),
        add_date: None,
        last_modified: None,
        is_toolbar: false,
        attrs: attr_map_new(),
        children: vec![inner],
    });
    let doc = make_doc_with_root(vec![outer]);
    let changes = EmptyFoldersTreatment.propose_document(&doc, &ctx());
    assert_eq!(changes.len(), 1);
    assert_eq!(changes[0].node_id, 50); // only outer proposed
}

#[test]
fn empty_folders_separator_only_is_empty() {
    let sep_only = Node::Folder(Folder {
        id: 50,
        name: "Sep".into(),
        add_date: None,
        last_modified: None,
        is_toolbar: false,
        attrs: attr_map_new(),
        children: vec![Node::Separator(Separator { id: 98 })],
    });
    let doc = make_doc_with_root(vec![sep_only]);
    let changes = EmptyFoldersTreatment.propose_document(&doc, &ctx());
    assert_eq!(changes.len(), 1);
}

#[test]
fn empty_folders_recurses_into_non_empty_folders() {
    // Parent has a bookmark; child folder is empty.  Only child proposed.
    let empty_child = Node::Folder(Folder {
        id: 51,
        name: "EmptyChild".into(),
        add_date: None,
        last_modified: None,
        is_toolbar: false,
        attrs: attr_map_new(),
        children: vec![],
    });
    let parent = Node::Folder(Folder {
        id: 50,
        name: "Parent".into(),
        add_date: None,
        last_modified: None,
        is_toolbar: false,
        attrs: attr_map_new(),
        children: vec![bm(1, "https://a.com/"), empty_child],
    });
    let doc = make_doc_with_root(vec![parent]);
    let changes = EmptyFoldersTreatment.propose_document(&doc, &ctx());
    assert_eq!(changes.len(), 1);
    assert_eq!(changes[0].node_id, 51);
}

#[test]
fn empty_folders_changes_are_destructive_and_unapproved() {
    let empty = Node::Folder(Folder {
        id: 50,
        name: "Empty".into(),
        add_date: None,
        last_modified: None,
        is_toolbar: false,
        attrs: attr_map_new(),
        children: vec![],
    });
    let doc = make_doc_with_root(vec![empty]);
    let changes = EmptyFoldersTreatment.propose_document(&doc, &ctx());
    assert!(changes[0].destructive);
    assert!(!changes[0].approved);
}




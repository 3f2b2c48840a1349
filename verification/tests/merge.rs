use lantern::model::attrs::attr_map_new;
use lantern::model::document::{Document, DocumentStats, HeaderMetadata};
use lantern::model::ids::NodeIdAllocator;
use lantern::model::merge::{build_merged_document, ConflictStrategy, MergeError, MergePick, MergePlan};
use lantern::model::node::{Bookmark, BookmarkFlags, BookmarkUrl, Folder, Node, NodeId};

fn make_doc<F: FnOnce(&mut NodeIdAllocator) -> Folder>(id: u64, builder: F) -> Document {
    let mut id_gen = NodeIdAllocator::new();
    let root = builder(&mut id_gen);
    let stats = DocumentStats::from_root(&root);
    Document {
        id,
        path: None,
        root,
        header: HeaderMetadata::default(),
        id_gen,
        stats,
        undo_stack: Vec::new(),
        redo_stack: Vec::new(),
        dirty: false,
        history_dropped: false,
    }
}

fn folder(id_gen: &mut NodeIdAllocator, name: &str, children: Vec<Node>) -> Folder {
    Folder {
        id: id_gen.alloc_id(),
        name: name.into(),
        add_date: None,
        last_modified: None,
        is_toolbar: false,
        attrs: attr_map_new(),
        children,
    }
}

fn bookmark_with_date(id_gen: &mut NodeIdAllocator, title: &str, url: &str, ts: Option<i64>) -> Node {
    let url = BookmarkUrl::parse(url);
    assert!(!url.is_malformed());
    Node::Bookmark(Bookmark {
        id: id_gen.alloc_id(),
        title: title.into(),
        url,
        add_date: ts,
        last_modified: None,
        icon_blob: None,
        description: None,
        attrs: attr_map_new(),
        flags: BookmarkFlags::default(),
    })
}

fn bookmark(id_gen: &mut NodeIdAllocator, title: &str, url: &str) -> Node {
    bookmark_with_date(id_gen, title, url, None)
}

fn collect_all_ids(folder: &Folder, out: &mut Vec<NodeId>) {
    out.push(folder.id);
    for child in &folder.children {
        match child {
            Node::Folder(f) => collect_all_ids(f, out),
            Node::Bookmark(b) => out.push(b.id),
            Node::Separator(s) => out.push(s.id),
        }
    }
}

fn pick(source_doc_id: usize, root_node_id: NodeId) -> MergePick {
    MergePick { source_doc_id, root_node_id }
}

fn plan(picks: Vec<MergePick>, strategy: ConflictStrategy, name: &str) -> MergePlan {
    MergePlan { picks, strategy, merged_root_name: name.into() }
}

fn two_shared(title_a: &str, ts_a: Option<i64>, title_b: &str, ts_b: Option<i64>) -> (Document, Document) {
    let doc_a = make_doc(1, |g| {
        let bm = bookmark_with_date(g, title_a, "https://shared.example/", ts_a);
        folder(g, "A", vec![bm])
    });
    let doc_b = make_doc(2, |g| {
        let bm = bookmark_with_date(g, title_b, "https://shared.example/", ts_b);
        folder(g, "B", vec![bm])
    });
    (doc_a, doc_b)
}

#[test]
fn empty_plan_errors() {
    let doc = make_doc(1, |g| folder(g, "Bookmarks", vec![]));
    let p = plan(vec![], ConflictStrategy::KeepFirst, "Merged");
    let err = build_merged_document(10, &[&doc], &p).unwrap_err();
    assert_eq!(err, MergeError::EmptyPlan);
}

#[test]
fn empty_merged_root_name_errors() {
    let doc = make_doc(1, |g| {
        let bm = bookmark(g, "x", "https://x.example/");
        folder(g, "Bookmarks", vec![bm])
    });
    let pick_id = doc.root.children[0].id();
    let p = plan(vec![pick(0, pick_id)], ConflictStrategy::KeepFirst, "   ");
    let err = build_merged_document(10, &[&doc], &p).unwrap_err();
    assert_eq!(err, MergeError::EmptyMergedRootName);
}

#[test]
fn source_index_out_of_range_errors() {
    let doc = make_doc(1, |g| folder(g, "Bookmarks", vec![]));
    let p = plan(vec![pick(5, 1)], ConflictStrategy::KeepFirst, "Merged");
    let err = build_merged_document(10, &[&doc], &p).unwrap_err();
    assert_eq!(err, MergeError::SourceIndexOutOfRange { idx: 5 });
}

#[test]
fn unknown_node_id_errors() {
    let doc = make_doc(1, |g| folder(g, "Bookmarks", vec![]));
    let p = plan(vec![pick(0, 999)], ConflictStrategy::KeepFirst, "Merged");
    let err = build_merged_document(10, &[&doc], &p).unwrap_err();
    assert!(matches!(err, MergeError::NodeIdNotFound { .. }));
    assert_eq!(err, MergeError::NodeIdNotFound { source_idx: 0, node_id: 999 });
}

#[test]
fn one_source_one_pick_identity_modulo_ids() {
    let doc = make_doc(1, |g| {
        let bm = bookmark(g, "x", "https://x.example/");
        folder(g, "Bookmarks", vec![bm])
    });
    let pick_id = doc.root.children[0].id();
    let p = plan(vec![pick(0, pick_id)], ConflictStrategy::KeepFirst, "Merged");
    let merged = build_merged_document(10, &[&doc], &p).unwrap();

    assert_eq!(merged.root.name, "Merged");
    assert_eq!(merged.root.children.len(), 1);
    let cloned = merged.root.children[0].as_bookmark().expect("bookmark");
    assert_eq!(cloned.title, "x");
    assert_eq!(cloned.url.as_str(), "https://x.example/");
    assert_eq!(merged.root.id, 1);
    assert_eq!(cloned.id, 2);
    assert!(doc.undo_stack.is_empty());
    assert!(merged.undo_stack.is_empty());
    assert!(merged.redo_stack.is_empty());
    assert!(merged.path.is_none());
}

#[test]
fn deep_subtree_is_fully_reassigned() {
    let doc = make_doc(1, |g| {
        let inner_bm = bookmark(g, "inner", "https://inner.example/");
        let inner = folder(g, "inner-folder", vec![inner_bm]);
        let outer_bm = bookmark(g, "outer", "https://outer.example/");
        folder(g, "Bookmarks", vec![Node::Folder(inner), outer_bm])
    });
    let inner_id = doc.root.children[0].id();
    let p = plan(vec![pick(0, inner_id)], ConflictStrategy::KeepFirst, "M");
    let merged = build_merged_document(10, &[&doc], &p).unwrap();

    let mut merged_ids = Vec::new();
    collect_all_ids(&merged.root, &mut merged_ids);
    let unique: std::collections::HashSet<NodeId> = merged_ids.iter().copied().collect();
    assert_eq!(unique.len(), merged_ids.len(), "merged ids must be unique");
}

#[test]
fn keep_first_drops_duplicate_url_under_same_parent() {
    let (doc_a, doc_b) = two_shared("from-A", None, "from-B", None);
    let pick_a = doc_a.root.children[0].id();
    let pick_b = doc_b.root.children[0].id();
    let p = plan(vec![pick(0, pick_a), pick(1, pick_b)], ConflictStrategy::KeepFirst, "Merged");
    let merged = build_merged_document(10, &[&doc_a, &doc_b], &p).unwrap();
    assert_eq!(merged.root.children.len(), 1);
    let surviving = merged.root.children[0].as_bookmark().unwrap();
    assert_eq!(surviving.title, "from-A");
}

#[test]
fn keep_newest_picks_most_recent_add_date() {
    let (doc_a, doc_b) = two_shared("older", Some(100), "newer", Some(200));
    let pick_a = doc_a.root.children[0].id();
    let pick_b = doc_b.root.children[0].id();
    let p = plan(vec![pick(0, pick_a), pick(1, pick_b)], ConflictStrategy::KeepNewest, "Merged");
    let merged = build_merged_document(10, &[&doc_a, &doc_b], &p).unwrap();
    assert_eq!(merged.root.children.len(), 1);
    let winner = merged.root.children[0].as_bookmark().unwrap();
    assert_eq!(winner.title, "newer");
}

#[test]
fn keep_newest_keeps_existing_when_incoming_is_older_or_undated() {
    let (doc_a, doc_b) = two_shared("newer", Some(300), "older", Some(200));
    let p = plan(
        vec![pick(0, doc_a.root.children[0].id()), pick(1, doc_b.root.children[0].id())],
        ConflictStrategy::KeepNewest,
        "Merged",
    );
    let merged = build_merged_document(10, &[&doc_a, &doc_b], &p).unwrap();
    assert_eq!(merged.root.children.len(), 1);
    assert_eq!(merged.root.children[0].as_bookmark().unwrap().title, "newer");

    let (doc_c, doc_d) = two_shared("dated", Some(5), "undated", None);
    let p = plan(
        vec![pick(0, doc_c.root.children[0].id()), pick(1, doc_d.root.children[0].id())],
        ConflictStrategy::KeepNewest,
        "Merged",
    );
    let merged = build_merged_document(10, &[&doc_c, &doc_d], &p).unwrap();
    assert_eq!(merged.root.children[0].as_bookmark().unwrap().title, "dated");
}

#[test]
fn keep_both_appends_suffix_to_duplicate() {
    let (doc_a, doc_b) = two_shared("from-A", None, "from-B", None);
    let pick_a = doc_a.root.children[0].id();
    let pick_b = doc_b.root.children[0].id();
    let p = plan(vec![pick(0, pick_a), pick(1, pick_b)], ConflictStrategy::KeepBoth, "Merged");
    let merged = build_merged_document(10, &[&doc_a, &doc_b], &p).unwrap();
    assert_eq!(merged.root.children.len(), 2);
    let titles: Vec<&str> = merged
        .root
        .children
        .iter()
        .filter_map(|c| c.as_bookmark().map(|b| b.title.as_str()))
        .collect();
    assert_eq!(titles, vec!["from-A", "from-B (2)"]);
}

#[test]
fn merged_doc_starts_with_empty_undo_redo_and_no_path() {
    let doc = make_doc(1, |g| {
        let bm = bookmark(g, "x", "https://x.example/");
        folder(g, "Bookmarks", vec![bm])
    });
    let pick_id = doc.root.children[0].id();
    let p = plan(vec![pick(0, pick_id)], ConflictStrategy::KeepFirst, "Merged");
    let merged = build_merged_document(10, &[&doc], &p).unwrap();
    assert!(merged.undo_stack.is_empty());
    assert!(merged.redo_stack.is_empty());
    assert!(!merged.dirty);
    assert!(merged.path.is_none());
    assert_eq!(merged.id, 10);
    assert_eq!(merged.stats.bookmark_count, 1);
    assert_eq!(merged.stats.folder_count, 0);
    assert_eq!(merged.id_gen.peek(), 3);
}

#[test]
fn source_documents_are_unmodified() {
    let doc = make_doc(1, |g| {
        let bm = bookmark(g, "x", "https://x.example/");
        folder(g, "Bookmarks", vec![bm])
    });
    let original_id = doc.root.id;
    let original_child_id = doc.root.children[0].id();
    let original_child_count = doc.root.children.len();

    let pick_id = doc.root.children[0].id();
    let p = plan(vec![pick(0, pick_id)], ConflictStrategy::KeepFirst, "Merged");
    let _merged = build_merged_document(10, &[&doc], &p).unwrap();

    assert_eq!(doc.root.id, original_id);
    assert_eq!(doc.root.children[0].id(), original_child_id);
    assert_eq!(doc.root.children.len(), original_child_count);
    assert!(doc.undo_stack.is_empty());
}

fn two_inboxes(title_a: &str, url_a: &str, title_b: &str, url_b: &str) -> (Document, Document) {
    let doc_a = make_doc(1, |g| {
        let bm = bookmark(g, title_a, url_a);
        let inbox = folder(g, "Inbox", vec![bm]);
        folder(g, "A", vec![Node::Folder(inbox)])
    });
    let doc_b = make_doc(2, |g| {
        let bm = bookmark(g, title_b, url_b);
        let inbox = folder(g, "Inbox", vec![bm]);
        folder(g, "B", vec![Node::Folder(inbox)])
    });
    (doc_a, doc_b)
}

#[test]
fn same_name_folders_under_merged_root_are_unioned() {
    let (doc_a, doc_b) = two_inboxes("a", "https://a.example/", "b", "https://b.example/");
    let pick_a = doc_a.root.children[0].id();
    let pick_b = doc_b.root.children[0].id();
    let p = plan(vec![pick(0, pick_a), pick(1, pick_b)], ConflictStrategy::KeepFirst, "Merged");
    let merged = build_merged_document(10, &[&doc_a, &doc_b], &p).unwrap();
    assert_eq!(merged.root.children.len(), 1);
    let unioned = merged.root.children[0].as_folder().expect("folder");
    assert_eq!(unioned.name, "Inbox");
    assert_eq!(unioned.children.len(), 2);
}

#[test]
fn same_name_folders_recursively_resolve_url_conflicts() {
    let (doc_a, doc_b) =
        two_inboxes("from-A", "https://shared.example/", "from-B", "https://shared.example/");
    let pick_a = doc_a.root.children[0].id();
    let pick_b = doc_b.root.children[0].id();
    let p = plan(vec![pick(0, pick_a), pick(1, pick_b)], ConflictStrategy::KeepFirst, "Merged");
    let merged = build_merged_document(10, &[&doc_a, &doc_b], &p).unwrap();
    let unioned = merged.root.children[0].as_folder().unwrap();
    assert_eq!(unioned.children.len(), 1);
    assert_eq!(unioned.children[0].as_bookmark().unwrap().title, "from-A");
}

#[test]
fn first_bad_pick_is_the_one_reported() {
    let doc = make_doc(1, |g| {
        let bm = bookmark(g, "x", "https://x.example/");
        folder(g, "Bookmarks", vec![bm])
    });
    let good = doc.root.children[0].id();
    let p = plan(vec![pick(0, good), pick(0, 77), pick(3, good)], ConflictStrategy::KeepFirst, "Merged");
    let err = build_merged_document(10, &[&doc], &p).unwrap_err();
    assert_eq!(err, MergeError::NodeIdNotFound { source_idx: 0, node_id: 77 });
    assert_eq!(err.message(), "node id 77 not found in source document 0");
}

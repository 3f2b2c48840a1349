use lantern::model::attrs::attr_map_new;
use lantern::model::document::{Document, DocumentStats, Field, HeaderMetadata, InverseKind};
use lantern::error::CoreError;
use lantern::model::ids::NodeId;
use lantern::model::node::{Bookmark, BookmarkFlags, BookmarkUrl, Folder, Node, Separator};
use lantern::sanitize::apply::folder_path;
use lantern::sanitize::laws::settle_url_writes;
use lantern::sanitize::treatment::{Change, ChangeSet};

fn next_document_id() -> u64 {
    1
}


// ── Test-document factory ─────────────────────────────────────────────
//
// Builds a minimal Document without going through the parser.
// Node IDs start at 100 so that `Document::id_gen` (which starts at 1)
// never collides with manually assigned IDs when create_* is called.
//
// Tree layout:
//   root (id=99, addressed as folder_id=0)
//     ├── Bookmark  "Google"  https://google.com/  (id=100)
//     ├── Folder    "Work"                          (id=101)
//     │   └── Bookmark  "GitHub"  https://github.com/  (id=102)
//     └── Separator                                (id=103)

fn bm(id: NodeId, title: &str, href: &str) -> Node {
    Node::Bookmark(Bookmark {
        id,
        title: title.into(),
        url: BookmarkUrl::parse(href),
        add_date: None,
        last_modified: None,
        icon_blob: None,
        description: None,
        attrs: attr_map_new(),
        flags: BookmarkFlags::default(),
    })
}

fn make_doc() -> Document {
    let subfolder = Node::Folder(Folder {
        id: 101,
        name: "Work".into(),
        add_date: None,
        last_modified: None,
        is_toolbar: false,
        attrs: attr_map_new(),
        children: vec![bm(102, "GitHub", "https://github.com/")],
    });
    let root = Folder {
        id: 99,
        name: "Bookmarks".into(),
        add_date: None,
        last_modified: None,
        is_toolbar: false,
        attrs: attr_map_new(),
        children: vec![
            bm(100, "Google", "https://google.com/"),
            subfolder,
            Node::Separator(Separator { id: 103 }),
        ],
    };
    let stats = DocumentStats::from_root(&root);
    Document::new(
        next_document_id(),
        None,
        root,
        HeaderMetadata::default(),
        stats,
    )
}

fn child_titles(doc: &Document) -> Vec<String> {
    doc.root
        .children
        .iter()
        .map(|n| match n {
            Node::Bookmark(b) => b.title.clone(),
            Node::Folder(f) => f.name.clone(),
            Node::Separator(_) => "<sep>".into(),
        })
        .collect()
}

// ── rename_node ───────────────────────────────────────────────────────

#[test]
fn rename_bookmark_changes_title() {
    let mut doc = make_doc();
    doc.rename_node(100, "DuckDuckGo".into()).unwrap();
    let bm = doc.root.children[0].as_bookmark().unwrap();
    assert_eq!(bm.title, "DuckDuckGo");
}

#[test]
fn rename_folder_changes_name() {
    let mut doc = make_doc();
    doc.rename_node(101, "Personal".into()).unwrap();
    let folder = doc.root.children[1].as_folder().unwrap();
    assert_eq!(folder.name, "Personal");
}

#[test]
fn rename_separator_returns_err() {
    let mut doc = make_doc();
    assert!(doc.rename_node(103, "whatever".into()).is_err());
}

#[test]
fn rename_nonexistent_returns_err() {
    let mut doc = make_doc();
    assert!(doc.rename_node(9999, "ghost".into()).is_err());
}

#[test]
fn rename_noop_when_same_name() {
    let mut doc = make_doc();
    doc.rename_node(100, "Google".into()).unwrap();
    // No undo entry pushed for a no-op.
    assert!(doc.undo_stack.is_empty());
}

#[test]
fn rename_marks_dirty() {
    let mut doc = make_doc();
    doc.rename_node(100, "Changed".into()).unwrap();
    assert!(doc.dirty);
}

#[test]
fn rename_pushes_undo_entry() {
    let mut doc = make_doc();
    doc.rename_node(100, "Changed".into()).unwrap();
    assert_eq!(doc.undo_stack.len(), 1);
    let inv = &doc.undo_stack[0].inverses[0];
    assert!(
        matches!(&inv.kind, InverseKind::WriteField { value, .. } if value == "Google"),
        "expected WriteField inverse with value 'Google'"
    );
}

#[test]
fn rename_undo_restores_original_title() {
    let mut doc = make_doc();
    doc.rename_node(100, "Changed".into()).unwrap();
    doc.undo().unwrap();
    let title = &doc.root.children[0].as_bookmark().unwrap().title;
    assert_eq!(title, "Google");
}

#[test]
fn rename_redo_reapplies_new_title() {
    let mut doc = make_doc();
    doc.rename_node(100, "Changed".into()).unwrap();
    doc.undo().unwrap();
    doc.redo().unwrap();
    let title = &doc.root.children[0].as_bookmark().unwrap().title;
    assert_eq!(title, "Changed");
}

#[test]
fn rename_clears_redo_stack() {
    let mut doc = make_doc();
    doc.rename_node(100, "First".into()).unwrap();
    doc.undo().unwrap();
    // Now there's a redo entry.  Renaming again should clear it.
    doc.rename_node(100, "Second".into()).unwrap();
    assert!(doc.redo_stack.is_empty());
}

// ── delete_node ───────────────────────────────────────────────────────

#[test]
fn delete_removes_root_level_bookmark() {
    let mut doc = make_doc();
    doc.delete_node(100).unwrap();
    assert_eq!(doc.root.children.len(), 2);
    assert!(doc.root.children.iter().all(|n| n.id() != 100));
}

#[test]
fn delete_removes_folder_and_its_subtree() {
    let mut doc = make_doc();
    doc.delete_node(101).unwrap();
    // Work folder gone, its child (GitHub) gone with it.
    assert!(doc.root.children.iter().all(|n| n.id() != 101));
    assert_eq!(doc.stats.folder_count, 0);
    assert_eq!(doc.stats.bookmark_count, 1); // only Google remains
}

#[test]
fn delete_removes_nested_bookmark() {
    let mut doc = make_doc();
    doc.delete_node(102).unwrap(); // GitHub inside Work
    let work = doc.root.children[1].as_folder().unwrap();
    assert!(work.children.is_empty());
}

#[test]
fn delete_removes_separator() {
    let mut doc = make_doc();
    doc.delete_node(103).unwrap();
    assert_eq!(doc.root.children.len(), 2);
}

#[test]
fn delete_nonexistent_returns_err() {
    let mut doc = make_doc();
    assert!(doc.delete_node(9999).is_err());
    // Document unchanged.
    assert_eq!(doc.root.children.len(), 3);
}

#[test]
fn delete_marks_dirty_and_updates_stats() {
    let mut doc = make_doc();
    assert_eq!(doc.stats.bookmark_count, 2);
    doc.delete_node(100).unwrap();
    assert!(doc.dirty);
    assert_eq!(doc.stats.bookmark_count, 1);
}

// ── create_bookmark ───────────────────────────────────────────────────

#[test]
fn create_bookmark_at_root() {
    let mut doc = make_doc();
    let id = doc
        .create_bookmark(0, "Rust".into(), "https://rust-lang.org/".into())
        .unwrap();
    assert!(id > 0);
    let last = doc.root.children.last().unwrap();
    assert_eq!(last.id(), id);
    assert_eq!(last.as_bookmark().unwrap().title, "Rust");
}

#[test]
fn create_bookmark_in_subfolder() {
    let mut doc = make_doc();
    let id = doc
        .create_bookmark(101, "Crates.io".into(), "https://crates.io/".into())
        .unwrap();
    let work = doc.root.children[1].as_folder().unwrap();
    assert_eq!(work.children.len(), 2);
    assert_eq!(work.children.last().unwrap().id(), id);
}

#[test]
fn create_bookmark_with_invalid_url_stored_as_malformed() {
    let mut doc = make_doc();
    doc.create_bookmark(0, "Bad".into(), "not a url".into())
        .unwrap();
    let last = doc.root.children.last().unwrap().as_bookmark().unwrap();
    assert!(last.url.is_malformed());
}

#[test]
fn create_bookmark_marks_dirty_and_updates_stats() {
    let mut doc = make_doc();
    let before = doc.stats.bookmark_count;
    doc.create_bookmark(0, "New".into(), "https://new.example/".into())
        .unwrap();
    assert!(doc.dirty);
    assert_eq!(doc.stats.bookmark_count, before + 1);
}

#[test]
fn create_bookmark_in_nonexistent_folder_returns_err() {
    let mut doc = make_doc();
    assert!(doc
        .create_bookmark(9999, "X".into(), "https://x.com/".into())
        .is_err());
}

// ── create_folder ─────────────────────────────────────────────────────

#[test]
fn create_folder_at_root() {
    let mut doc = make_doc();
    let id = doc.create_folder(0, "Personal".into()).unwrap();
    let last = doc.root.children.last().unwrap().as_folder().unwrap();
    assert_eq!(last.id, id);
    assert_eq!(last.name, "Personal");
    assert!(last.children.is_empty());
}

#[test]
fn create_folder_updates_folder_count() {
    let mut doc = make_doc();
    let before = doc.stats.folder_count;
    doc.create_folder(0, "Extra".into()).unwrap();
    assert_eq!(doc.stats.folder_count, before + 1);
}

#[test]
fn create_folder_nested_inside_subfolder() {
    let mut doc = make_doc();
    let id = doc.create_folder(101, "Sub-Work".into()).unwrap();
    let work = doc.root.children[1].as_folder().unwrap();
    // Work now has: GitHub bookmark + Sub-Work folder
    assert_eq!(work.children.len(), 2);
    assert_eq!(work.children.last().unwrap().id(), id);
}

// ── create_separator ──────────────────────────────────────────────────

#[test]
fn create_separator_at_root() {
    let mut doc = make_doc();
    let before = doc.stats.separator_count;
    let id = doc.create_separator(0).unwrap();
    assert_eq!(doc.stats.separator_count, before + 1);
    let last = doc.root.children.last().unwrap();
    assert_eq!(last.id(), id);
    assert!(matches!(last, Node::Separator(_)));
}

#[test]
fn create_separator_marks_dirty() {
    let mut doc = make_doc();
    doc.create_separator(0).unwrap();
    assert!(doc.dirty);
}

// ── move_node ─────────────────────────────────────────────────────────

#[test]
fn move_node_reorders_within_root() {
    let mut doc = make_doc();
    // Before: [Google(100), Work(101), <sep>(103)]
    // Move Google to index 1 → [Work(101), Google(100), <sep>(103)]
    doc.move_node(100, 0, 1).unwrap();
    assert_eq!(child_titles(&doc), vec!["Work", "Google", "<sep>"]);
}

#[test]
fn move_node_to_end() {
    let mut doc = make_doc();
    // Move Work folder to last position.
    // After take, root has 2 items; inserting at index 2 puts it at end.
    doc.move_node(101, 0, 100).unwrap(); // index 100 clamps to len
    let titles = child_titles(&doc);
    assert_eq!(titles.last().unwrap(), "Work");
}

#[test]
fn move_node_into_subfolder() {
    let mut doc = make_doc();
    // Move separator (103) into Work folder (101) at index 0.
    doc.move_node(103, 101, 0).unwrap();
    // Root should now have: Google, Work (sep gone from root)
    assert_eq!(doc.root.children.len(), 2);
    let work = doc.root.children[1].as_folder().unwrap();
    // Work: sep at 0, GitHub at 1
    assert_eq!(work.children.len(), 2);
    assert!(matches!(work.children[0], Node::Separator(_)));
}

#[test]
fn move_node_nonexistent_returns_err() {
    let mut doc = make_doc();
    assert!(doc.move_node(9999, 0, 0).is_err());
    // Document unchanged.
    assert_eq!(doc.root.children.len(), 3);
}

#[test]
fn move_node_marks_dirty() {
    let mut doc = make_doc();
    doc.move_node(100, 0, 2).unwrap();
    assert!(doc.dirty);
}

#[test]
fn move_node_index_clamped_at_bounds() {
    let mut doc = make_doc();
    // Move Google to a very high index: should end up last.
    doc.move_node(100, 0, usize::MAX).unwrap();
    assert_eq!(doc.root.children.last().unwrap().id(), 100);
}

#[test]
fn move_node_pushes_undo_entry() {
    let mut doc = make_doc();
    doc.move_node(100, 0, 2).unwrap();
    assert_eq!(doc.undo_stack.len(), 1);
    assert_eq!(doc.undo_stack[0].rule_set_name, "move");
}

#[test]
fn move_node_undo_restores_original_position() {
    let mut doc = make_doc();
    // Before: [Google(100), Work(101), <sep>(103)]
    doc.move_node(100, 0, 2).unwrap();
    // After move: [Work(101), <sep>(103), Google(100)]
    doc.undo().unwrap();
    // After undo: [Google(100), Work(101), <sep>(103)]
    assert_eq!(doc.root.children[0].id(), 100);
    assert_eq!(doc.root.children[1].id(), 101);
}

// ── delete_node undo ──────────────────────────────────────────────────────

#[test]
fn delete_node_pushes_undo_entry() {
    let mut doc = make_doc();
    doc.delete_node(100).unwrap();
    assert_eq!(doc.undo_stack.len(), 1);
    assert_eq!(doc.undo_stack[0].rule_set_name, "delete");
}

#[test]
fn delete_node_undo_restores_bookmark() {
    let mut doc = make_doc();
    doc.delete_node(100).unwrap();
    assert_eq!(doc.root.children.len(), 2);
    doc.undo().unwrap();
    assert_eq!(doc.root.children.len(), 3);
    assert_eq!(doc.root.children[0].id(), 100);
}

#[test]
fn delete_node_undo_redo_cycle() {
    let mut doc = make_doc();
    doc.delete_node(100).unwrap();
    doc.undo().unwrap(); // restore
    assert_eq!(doc.root.children.len(), 3);
    doc.redo().unwrap(); // re-delete
    assert_eq!(doc.root.children.len(), 2);
    assert!(doc.root.children.iter().all(|n| n.id() != 100));
}

#[test]
fn delete_folder_undo_restores_subtree() {
    let mut doc = make_doc();
    doc.delete_node(101).unwrap(); // delete Work folder (contains GitHub)
    doc.undo().unwrap();
    let work = doc.root.children[1].as_folder().unwrap();
    assert_eq!(work.id, 101);
    assert_eq!(work.children.len(), 1);
    assert_eq!(work.children[0].id(), 102); // GitHub restored
}

// ── create_bookmark undo ──────────────────────────────────────────────────

#[test]
fn create_bookmark_pushes_undo_entry() {
    let mut doc = make_doc();
    doc.create_bookmark(0, "New".into(), "https://new.example/".into())
        .unwrap();
    assert_eq!(doc.undo_stack.len(), 1);
    assert_eq!(doc.undo_stack[0].rule_set_name, "create");
}

#[test]
fn create_bookmark_undo_removes_it() {
    let mut doc = make_doc();
    let id = doc
        .create_bookmark(0, "New".into(), "https://new.example/".into())
        .unwrap();
    doc.undo().unwrap();
    assert!(doc.root.children.iter().all(|n| n.id() != id));
    assert_eq!(doc.root.children.len(), 3);
}

#[test]
fn create_folder_undo_removes_it() {
    let mut doc = make_doc();
    let id = doc.create_folder(0, "Temp".into()).unwrap();
    doc.undo().unwrap();
    assert!(doc.root.children.iter().all(|n| n.id() != id));
}

#[test]
fn create_separator_undo_removes_it() {
    let mut doc = make_doc();
    let id = doc.create_separator(0).unwrap();
    doc.undo().unwrap();
    assert!(doc.root.children.iter().all(|n| n.id() != id));
}

// ── apply / undo / redo interaction ───────────────────────────────────

#[test]
fn undo_empty_stack_returns_err() {
    let mut doc = make_doc();
    assert!(doc.undo().is_err());
}

#[test]
fn redo_empty_stack_returns_err() {
    let mut doc = make_doc();
    assert!(doc.redo().is_err());
}

#[test]
fn multiple_renames_each_push_undo_entry() {
    let mut doc = make_doc();
    doc.rename_node(100, "A".into()).unwrap();
    doc.rename_node(100, "B".into()).unwrap();
    doc.rename_node(100, "C".into()).unwrap();
    assert_eq!(doc.undo_stack.len(), 3);
}

#[test]
fn undo_all_renames_restores_original() {
    let mut doc = make_doc();
    doc.rename_node(100, "A".into()).unwrap();
    doc.rename_node(100, "B".into()).unwrap();
    doc.undo().unwrap();
    doc.undo().unwrap();
    assert_eq!(doc.root.children[0].as_bookmark().unwrap().title, "Google");
}

// ── regressions ───────────────────────────────────────────────────────

fn all_ids(folder: &Folder, out: &mut Vec<NodeId>) {
    out.push(folder.id);
    for child in &folder.children {
        match child {
            Node::Folder(f) => all_ids(f, out),
            other => out.push(other.id()),
        }
    }
}

fn ids_of(folder: &Folder) -> Vec<NodeId> {
    folder.children.iter().map(Node::id).collect()
}

fn approved_deletes(ids: &[NodeId]) -> ChangeSet {
    let changes = ids
        .iter()
        .map(|&id| {
            let mut c = Change::delete_node(id, "test", "test");
            c.approved = true;
            c
        })
        .collect();
    ChangeSet {
        rule_set_name: "test".into(),
        changes,
    }
}

#[test]
fn undo_restores_positions_whatever_the_change_order() {
    // root: [Google(100), Work(101), <sep>(103)]; delete Work before
    // Google, i.e. not in document order.
    let mut doc = make_doc();
    let original = ids_of(&doc.root);
    doc.apply(&approved_deletes(&[101, 100])).unwrap();
    assert_eq!(ids_of(&doc.root), vec![103]);

    doc.undo().unwrap();
    assert_eq!(ids_of(&doc.root), original);
    doc.redo().unwrap();
    assert_eq!(ids_of(&doc.root), vec![103]);
    doc.undo().unwrap();
    assert_eq!(ids_of(&doc.root), original);
}

#[test]
fn undo_of_nested_deletes_does_not_duplicate_children() {
    // Work(101) and its only child GitHub(102) deleted in one change set.
    let mut doc = make_doc();
    doc.apply(&approved_deletes(&[101, 102])).unwrap();
    doc.undo().unwrap();
    let work = doc.root.children[1].as_folder().unwrap();
    assert_eq!(ids_of(work), vec![102]);
    assert_eq!(doc.stats.bookmark_count, 2);
}

#[test]
fn move_folder_into_its_own_subtree_is_rejected() {
    let mut doc = make_doc();
    let sub = doc.create_folder(101, "Sub".into()).unwrap();
    assert!(doc.move_node(101, 101, 0).is_err());
    assert!(doc.move_node(101, sub, 0).is_err());
    assert_eq!(child_titles(&doc), vec!["Google", "Work", "<sep>"]);
    assert_eq!(doc.undo_stack.len(), 1); // only the create
}

// ── folder_path / folder_at_path helpers ──────────────────────────────

#[test]
fn folder_path_finds_root_itself() {
    let doc = make_doc();
    let path = folder_path(&doc.root, 99).unwrap();
    assert!(path.is_empty());
}

#[test]
fn folder_path_finds_direct_child_folder() {
    let doc = make_doc();
    let path = folder_path(&doc.root, 101).unwrap();
    assert_eq!(path, vec![1]); // Work is at index 1 of root
}

#[test]
fn folder_path_returns_none_for_missing_id() {
    let doc = make_doc();
    assert!(folder_path(&doc.root, 9999).is_none());
}

#[test]
fn folder_path_returns_none_for_bookmark_id() {
    // Bookmarks are not folders: shouldn't be found by folder_path.
    let doc = make_doc();
    assert!(folder_path(&doc.root, 100).is_none());
}

#[test]
fn created_ids_never_collide_with_parsed_ids() {
    let mut doc = lantern::parser::parse(
        br#"<DL><p>
    <DT><A HREF="https://a.example/">A</A>
    <DT><H3>F</H3>
    <DL><p><DT><A HREF="https://b.example/">B</A></DL><p>
</DL><p>"#,
        1,
    )
    .unwrap();
    let mut existing = Vec::new();
    all_ids(&doc.root, &mut existing);

    let folder = doc.create_folder(0, "New".into()).unwrap();
    let bookmark = doc
        .create_bookmark(folder, "N".into(), "https://n.example/".into())
        .unwrap();
    let separator = doc.create_separator(0).unwrap();
    for id in [folder, bookmark, separator] {
        assert!(
            !existing.contains(&id),
            "id {id} reused from the parsed tree"
        );
    }
}


#[test]
fn document_stays_dirty_while_an_edit_whose_entry_was_dropped_remains() {
    // 101 renames: the stack keeps the newest 100, so undoing all of them
    // still leaves the first rename ("n0") applied.
    let mut doc = make_doc();
    for i in 0..=100 {
        doc.rename_node(100, format!("n{i}")).unwrap();
    }
    assert_eq!(doc.undo_stack.len(), 100);
    for _ in 0..99 {
        doc.undo().unwrap();
    }
    assert!(doc.undo().is_ok());
    let title = doc.root.children[0].as_bookmark().unwrap().title.clone();
    assert_eq!(title, "n0");
    assert_ne!(title, "Google");
    assert!(doc.dirty);
    assert!(doc.undo().is_err());
}

#[test]
fn dirty_clears_when_every_edit_is_undone() {
    let mut doc = make_doc();
    doc.rename_node(100, "A".into()).unwrap();
    doc.rename_node(100, "B".into()).unwrap();
    doc.undo().unwrap();
    assert!(doc.dirty);
    doc.undo().unwrap();
    assert!(!doc.dirty);
}

fn url_of(doc: &Document, index: usize) -> String {
    doc.root.children[index].as_bookmark().unwrap().url.as_str().to_string()
}

#[test]
fn url_write_is_undone_and_redone_exactly() {
    let mut doc = make_doc();
    let before = url_of(&doc, 0);
    assert_eq!(before, "https://google.com/");
    let change = Change::set_field(100, Field::Url, "https://google.com/", "HTTPS://Example.COM/a/../b", "t", "r", false);
    let cs = ChangeSet { rule_set_name: "urls".into(), changes: vec![change] };
    settle_url_writes(&cs);
    doc.apply(&cs).unwrap();
    assert_eq!(url_of(&doc, 0), "https://example.com/b");
    doc.undo().unwrap();
    assert_eq!(url_of(&doc, 0), before);
    doc.redo().unwrap();
    assert_eq!(url_of(&doc, 0), "https://example.com/b");
    doc.undo().unwrap();
    assert_eq!(url_of(&doc, 0), before);
}

#[test]
fn malformed_url_write_is_undone_exactly() {
    let mut doc = make_doc();
    let change = Change::set_field(100, Field::Url, "https://google.com/", "not a url", "t", "r", false);
    let cs = ChangeSet { rule_set_name: "urls".into(), changes: vec![change] };
    doc.apply(&cs).unwrap();
    assert_eq!(url_of(&doc, 0), "not a url");
    assert!(doc.root.children[0].as_bookmark().unwrap().url.is_malformed());
    doc.undo().unwrap();
    assert_eq!(url_of(&doc, 0), "https://google.com/");
    assert!(!doc.root.children[0].as_bookmark().unwrap().url.is_malformed());
}

fn refusal(r: Result<(), CoreError>) -> String {
    match r {
        Err(CoreError::InvalidOperation(m)) => m,
        other => panic!("expected an invalid-operation refusal, got {other:?}"),
    }
}

#[test]
fn refusals_are_invalid_operations_with_their_messages() {
    let mut doc = make_doc();
    assert_eq!(refusal(doc.rename_node(103, "x".into())), "node 103 not found or not renameable (separators have no name)");
    assert_eq!(refusal(doc.delete_node(999)), "node 999 not found");
    assert_eq!(refusal(doc.move_node(999, 0, 0)), "node 999 not found");
    assert_eq!(refusal(doc.move_node(100, 555, 0)), "folder 555 not found");
    assert_eq!(refusal(doc.move_node(101, 101, 0)), "cannot move folder 101 into its own subtree");
    assert_eq!(refusal(doc.undo()), "nothing to undo");
    assert_eq!(refusal(doc.redo()), "nothing to redo");
    match doc.create_folder(555, "X".into()) {
        Err(CoreError::InvalidOperation(m)) => assert_eq!(m, "folder 555 not found"),
        other => panic!("unexpected {other:?}"),
    }
    assert!(doc.undo_stack.is_empty());
}

#[test]
fn history_is_marked_dropped_once_the_stack_overflows() {
    let mut doc = make_doc();
    for i in 0..100 {
        doc.rename_node(100, format!("n{i}")).unwrap();
    }
    assert!(!doc.history_dropped);
    doc.rename_node(100, "last".into()).unwrap();
    assert!(doc.history_dropped);
    assert_eq!(doc.undo_stack.len(), 100);
}

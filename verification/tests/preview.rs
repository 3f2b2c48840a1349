use lantern::commands::preview::preview;
use lantern::commands::types::DiffTag;
use lantern::model::attrs::attr_map_new;
use lantern::model::document::{Document, DocumentStats, HeaderMetadata};
use lantern::model::node::{Bookmark, BookmarkFlags, BookmarkUrl, Folder, Node, NodeId};
use lantern::sanitize::pass::{run_pass, BuiltinTreatment, PassTarget, RuleSet};
use lantern::sanitize::treatment::{Change, ChangeSet};
use lantern::sanitize::treatments::folder_name::FolderWhitespaceTreatment;
use lantern::sanitize::treatments::url_qp::UtmTreatment;

fn folder(id: NodeId, name: &str, children: Vec<Node>) -> Folder {
    Folder {
        id,
        name: name.into(),
        add_date: None,
        last_modified: None,
        is_toolbar: false,
        attrs: attr_map_new(),
        children,
    }
}

fn bookmark(id: NodeId, title: &str, url: &str) -> Node {
    Node::Bookmark(Bookmark {
        id,
        title: title.into(),
        url: BookmarkUrl::parse(url),
        add_date: None,
        last_modified: None,
        icon_blob: None,
        description: None,
        attrs: attr_map_new(),
        flags: BookmarkFlags::default(),
    })
}

fn edited_doc() -> Document {
    let root = folder(
        1,
        "Bookmarks",
        vec![Node::Folder(folder(
            2,
            "Work  ",
            vec![Node::Folder(folder(3, "Docs", vec![bookmark(4, "Spec", "https://example.com/?utm_source=x")]))],
        ))],
    );
    let stats = DocumentStats::from_root(&root);
    Document::new(6, None, root, HeaderMetadata::default(), stats)
}

fn minimal_clean() -> RuleSet {
    RuleSet {
        id: "minimal-clean".into(),
        name: "Minimal clean".into(),
        treatments: vec![
            BuiltinTreatment::Utm(UtmTreatment),
            BuiltinTreatment::FolderWhitespace(FolderWhitespaceTreatment),
        ],
    }
}

#[test]
fn preview_names_each_node_its_field_and_folder_path() {
    let doc = edited_doc();
    let cs = run_pass(&doc, &minimal_clean(), PassTarget::AllNodes);
    let p = preview(7, &cs, &doc.root);
    assert_eq!(p.changeset_id, 7);
    assert_eq!(p.rule_set_name, "Minimal clean");
    assert_eq!(p.changes.len(), 2);
    let entry = |id| p.changes.iter().find(|c| c.node_id == id).unwrap();

    let url = entry(4);
    assert_eq!(url.field, "url");
    assert_eq!(url.node_title, "Spec");
    assert_eq!(url.node_url.as_deref(), Some("https://example.com/?utm_source=x"));
    assert_eq!(url.location, vec!["Work  ", "Docs"]);
    assert_eq!(url.before, "https://example.com/?utm_source=x");
    assert_eq!(url.after, "https://example.com/");

    let folder_name = entry(2);
    assert_eq!(folder_name.field, "folder_name");
    assert_eq!(folder_name.node_title, "Work  ");
    assert_eq!(folder_name.node_url, None);
    assert!(folder_name.location.is_empty());
    assert_eq!(folder_name.after, "Work");
    assert!(folder_name.before_spans.iter().any(|s| s.tag == DiffTag::Removed && s.text == "  "));
}

#[test]
fn deletions_flags_and_unknown_nodes_show_defaults() {
    let doc = edited_doc();
    let cs = ChangeSet {
        rule_set_name: "manual".into(),
        changes: vec![
            Change::delete_node(3, "structure.test", "gone"),
            Change::delete_node(99, "structure.test", "missing"),
        ],
    };
    let p = preview(1, &cs, &doc.root);
    assert_eq!(p.changes[0].index, 0);
    assert_eq!(p.changes[0].field, "node");
    assert_eq!((p.changes[0].before.as_str(), p.changes[0].after.as_str()), ("", "(deleted)"));
    assert_eq!(p.changes[0].node_title, "Docs");
    assert_eq!(p.changes[0].location, vec!["Work  "]);
    assert_eq!(p.changes[1].index, 1);
    assert_eq!(p.changes[1].node_title, "");
    assert!(p.changes[1].location.is_empty());
    assert_eq!(p.changes[1].rationale, "missing");
}

use lantern::model::attrs::attr_map_new;
use lantern::model::document::{Document, DocumentStats, HeaderMetadata};
use lantern::model::ids::NodeId;
use lantern::model::node::{Bookmark, BookmarkFlags, BookmarkUrl, Folder, Node};
use lantern::sanitize::pass::{run_pass, BuiltinTreatment, PassTarget, RuleSet};
use lantern::sanitize::treatment::ChangeSet;
use lantern::sanitize::treatments::duplicates::ExactUrlDuplicatesTreatment;
use lantern::sanitize::treatments::folder_name::FolderWhitespaceTreatment;
use lantern::sanitize::treatments::title::WhitespaceTreatment;

fn next_document_id() -> u64 {
    1
}


fn bm(id: u64, title: &str, href: &str) -> Node {
    Node::Bookmark(Bookmark {
        id,
        title: title.into(),
        url: BookmarkUrl::parse(href),
        add_date: None,
        last_modified: None,
        icon_blob: None,
        description: None,
        attrs: attr_map_new(),
        flags: BookmarkFlags::default(),
    })
}

fn folder(id: u64, name: &str, children: Vec<Node>) -> Folder {
    Folder {
        id,
        name: name.into(),
        add_date: None,
        last_modified: None,
        is_toolbar: false,
        attrs: attr_map_new(),
        children,
    }
}

/// root(99) ─┬─ 1 "  Loose  "  https://a.com/
///           └─ folder 10 "  Work  " ─┬─ 11 "  Inside  " https://a.com/
///                                   └─ folder 20 ── 21 "  Deep  " https://b.com/
fn doc() -> Document {
    let deep = folder(20, "Deep", vec![bm(21, "  Deep  ", "https://b.com/")]);
    let work = folder(
        10,
        "  Work  ",
        vec![bm(11, "  Inside  ", "https://a.com/"), Node::Folder(deep)],
    );
    let root = folder(
        99,
        "Bookmarks",
        vec![bm(1, "  Loose  ", "https://a.com/"), Node::Folder(work)],
    );
    let stats = DocumentStats::from_root(&root);
    Document::new(
        next_document_id(),
        None,
        root,
        HeaderMetadata::default(),
        stats,
    )
}

fn rules(treatments: Vec<BuiltinTreatment>) -> RuleSet {
    RuleSet {
        id: "t".into(),
        name: "T".into(),
        treatments,
    }
}

fn touched(cs: &ChangeSet) -> Vec<NodeId> {
    let mut ids: Vec<_> = cs.changes.iter().map(|c| c.node_id).collect();
    ids.sort_unstable();
    ids.dedup();
    ids
}

#[test]
fn subtree_covers_the_folder_and_everything_below_it() {
    let rs = rules(vec![
        BuiltinTreatment::TitleWhitespace(WhitespaceTreatment),
        BuiltinTreatment::FolderWhitespace(FolderWhitespaceTreatment),
    ]);
    let cs = run_pass(&doc(), &rs, PassTarget::Subtree(10));
    // 10 is the folder's own name; 1 (outside) is untouched.
    assert_eq!(touched(&cs), vec![10, 11, 21]);
}

#[test]
fn subtree_of_root_matches_all_nodes() {
    let rs = rules(vec![BuiltinTreatment::TitleWhitespace(WhitespaceTreatment)]);
    let d = doc();
    assert_eq!(
        touched(&run_pass(&d, &rs, PassTarget::Subtree(99))),
        touched(&run_pass(&d, &rs, PassTarget::AllNodes)),
    );
}

#[test]
fn subtree_of_unknown_or_non_folder_id_proposes_nothing() {
    let rs = rules(vec![
        BuiltinTreatment::TitleWhitespace(WhitespaceTreatment),
        BuiltinTreatment::ExactUrlDuplicates(ExactUrlDuplicatesTreatment),
    ]);
    assert!(run_pass(&doc(), &rs, PassTarget::Subtree(12345))
        .changes
        .is_empty());
    assert!(run_pass(&doc(), &rs, PassTarget::Subtree(11))
        .changes
        .is_empty());
}

#[test]
fn document_level_changes_are_limited_to_the_target() {
    // 1 (root) and 11 (Work) share a URL; 1 is first-seen, so 11 is the
    // proposed delete.
    let rs = rules(vec![BuiltinTreatment::ExactUrlDuplicates(ExactUrlDuplicatesTreatment)]);
    let d = doc();
    assert_eq!(touched(&run_pass(&d, &rs, PassTarget::AllNodes)), vec![11]);
    assert_eq!(
        touched(&run_pass(&d, &rs, PassTarget::Subtree(10))),
        vec![11]
    );
    assert!(run_pass(&d, &rs, PassTarget::Subtree(20))
        .changes
        .is_empty());
    assert!(run_pass(&d, &rs, PassTarget::Selection(vec![1]))
        .changes
        .is_empty());
}




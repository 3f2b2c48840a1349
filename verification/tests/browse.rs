use lantern::commands::browse::{find_folder, folder_items, folder_to_tree_node, lazy_children, node_to_item, sort_items};
use lantern::commands::types::{FolderItem, ItemKind, SortColumn, SortSpec, TreeNodeLazy};
use lantern::error::UiError;
use lantern::model::attrs::attr_map_new;
use lantern::model::node::{Bookmark, BookmarkFlags, BookmarkUrl, Folder, Node, NodeId};

fn folder(id: NodeId, name: &str, children: Vec<Node>) -> Folder {
    Folder {
        id,
        name: name.into(),
        add_date: None,
        last_modified: None,
        is_toolbar: false,
        attrs: attr_map_new(),
        children,
    }
}

fn bookmark(id: NodeId, title: &str, url: &str) -> Node {
    Node::Bookmark(Bookmark {
        id,
        title: title.into(),
        url: BookmarkUrl::parse(url),
        add_date: None,
        last_modified: None,
        icon_blob: None,
        description: None,
        attrs: attr_map_new(),
        flags: BookmarkFlags::default(),
    })
}

fn tree() -> Folder {
    folder(
        1,
        "Bookmarks",
        vec![
            Node::Folder(folder(
                2,
                "Top A",
                vec![Node::Folder(folder(3, "Nested A1", vec![bookmark(4, "Inner", "https://a.example/")]))],
            )),
            Node::Folder(folder(5, "Top B", vec![bookmark(6, "Beep", "https://b.example/")])),
            bookmark(7, "Loose", "https://www.c.example/"),
        ],
    )
}

fn rows(rows: &[TreeNodeLazy]) -> Vec<(NodeId, &str, bool)> {
    rows.iter().map(|r| (r.id, r.name.as_str(), r.has_children)).collect()
}

#[test]
fn tree_root_lists_top_level_folders_with_chevron_flags() {
    let root = tree();
    assert_eq!(rows(&lazy_children(&root)), vec![(2, "Top A", true), (5, "Top B", false)]);
}

#[test]
fn tree_children_lists_immediate_folders_only() {
    let root = tree();
    let a = lazy_children(find_folder(&root, 2).unwrap());
    assert_eq!(rows(&a), vec![(3, "Nested A1", false)]);
    let b = lazy_children(find_folder(&root, 5).unwrap());
    assert!(b.is_empty());
}

#[test]
fn unknown_folder_is_an_error() {
    let root = tree();
    let err = folder_items(&root, 99_999, None, None, None, None).unwrap_err();
    assert!(matches!(&err, UiError::InvalidOperation(_)));
    assert_eq!(err.message(), "invalid operation: folder 99999 not found");
    assert!(find_folder(&root, 4).is_none(), "a bookmark id names no folder");
}

#[test]
fn folder_items_are_sorted_then_paged() {
    let root = tree();
    let sort = || Some(SortSpec { column: SortColumn::Title, descending: true });
    let all = folder_items(&root, 0, sort(), None, None, None).unwrap();
    assert_eq!(all.total, 3);
    let titles: Vec<&str> = all.items.iter().map(|i| i.title.as_str()).collect();
    assert_eq!(titles, vec!["Top B", "Top A", "Loose"]);
    assert_eq!(all.items[2].domain.as_deref(), Some("c.example"));

    let second = folder_items(&root, 0, sort(), Some(1), Some(1), None).unwrap();
    assert_eq!((second.total, second.items.len()), (3, 1));
    assert_eq!(second.items[0].title, "Top A");
    assert!(folder_items(&root, 0, sort(), Some(5), Some(2), None).unwrap().items.is_empty());
}

#[test]
fn nested_folder_items_and_item_rows() {
    let root = tree();
    let page = folder_items(&root, 3, None, None, Some(usize::MAX), None).unwrap();
    assert_eq!(page.total, 1);
    assert_eq!(page.items[0].kind, ItemKind::Bookmark);
    assert_eq!(page.items[0].url.as_deref(), Some("https://a.example/"));
    let sep = node_to_item(&Node::Separator(lantern::model::node::Separator { id: 9 }));
    assert_eq!((sep.id, sep.kind, sep.title.as_str()), (9, ItemKind::Separator, ""));
}

#[test]
fn sorting_is_stable_and_undated_rows_sort_first() {
    let item = |id: u64, title: &str, add: Option<i64>| FolderItem {
        id,
        kind: ItemKind::Bookmark,
        title: title.into(),
        url: None,
        domain: None,
        add_date: add,
        last_modified: None,
    };
    let mut items = vec![item(1, "b", Some(5)), item(2, "a", None), item(3, "b", Some(1)), item(4, "a", Some(5))];
    sort_items(&mut items, &SortSpec { column: SortColumn::Title, descending: false });
    let ids: Vec<u64> = items.iter().map(|i| i.id).collect();
    assert_eq!(ids, vec![2, 4, 1, 3]);
    sort_items(&mut items, &SortSpec { column: SortColumn::AddDate, descending: false });
    let ids: Vec<u64> = items.iter().map(|i| i.id).collect();
    assert_eq!(ids, vec![2, 3, 4, 1]);
    sort_items(&mut items, &SortSpec { column: SortColumn::AddDate, descending: true });
    let ids: Vec<u64> = items.iter().map(|i| i.id).collect();
    assert_eq!(ids, vec![4, 1, 3, 2]);
}

#[test]
fn the_folder_tree_lists_folders_only() {
    let t = folder_to_tree_node(&tree());
    assert_eq!((t.id, t.name.as_str(), t.children.len()), (1, "Bookmarks", 2));
    assert_eq!(t.children[0].children[0].name, "Nested A1");
    assert!(t.children[1].children.is_empty());
}

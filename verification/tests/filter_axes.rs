use lantern::commands::filter::item_passes_filter;
use lantern::commands::types::{DateRange, DepthFilter, FilterSpec, FolderItem, ItemKind};

fn bookmark(domain: &str, scheme: &str, add_date: Option<i64>) -> FolderItem {
    FolderItem {
        id: 1,
        kind: ItemKind::Bookmark,
        title: "t".into(),
        url: Some(format!("{scheme}://{domain}/")),
        domain: Some(domain.into()),
        add_date,
        last_modified: None,
    }
}

fn folder() -> FolderItem {
    FolderItem {
        id: 2,
        kind: ItemKind::Folder,
        title: "f".into(),
        url: None,
        domain: None,
        add_date: Some(0),
        last_modified: None,
    }
}

#[test]
fn empty_filter_passes_everything() {
    let f = FilterSpec::default();
    assert!(item_passes_filter(
        &bookmark("example.com", "https", Some(0)),
        None,
        &f
    ));
    assert!(item_passes_filter(&folder(), None, &f));
}

#[test]
fn commands_kind_filter_excludes_other_kinds() {
    let f = FilterSpec {
        kinds: Some(vec![ItemKind::Bookmark]),
        ..Default::default()
    };
    assert!(item_passes_filter(
        &bookmark("a.com", "https", None),
        None,
        &f
    ));
    assert!(!item_passes_filter(&folder(), None, &f));
}

#[test]
fn empty_kinds_list_treated_as_no_constraint() {
    let f = FilterSpec {
        kinds: Some(vec![]),
        ..Default::default()
    };
    assert!(item_passes_filter(
        &bookmark("a.com", "https", None),
        None,
        &f
    ));
    assert!(item_passes_filter(&folder(), None, &f));
}

#[test]
fn date_range_excludes_outside_window() {
    let f = FilterSpec {
        date_range: Some(DateRange {
            since: Some(100),
            until: Some(200),
        }),
        ..Default::default()
    };
    assert!(item_passes_filter(
        &bookmark("a.com", "https", Some(150)),
        None,
        &f
    ));
    assert!(!item_passes_filter(
        &bookmark("a.com", "https", Some(50)),
        None,
        &f
    ));
    assert!(!item_passes_filter(
        &bookmark("a.com", "https", Some(300)),
        None,
        &f
    ));
    // Bookmarks with no date are excluded once an axis is set.
    assert!(!item_passes_filter(
        &bookmark("a.com", "https", None),
        None,
        &f
    ));
}

#[test]
fn date_range_open_bounds() {
    let f = FilterSpec {
        date_range: Some(DateRange {
            since: None,
            until: Some(200),
        }),
        ..Default::default()
    };
    assert!(item_passes_filter(
        &bookmark("a.com", "https", Some(100)),
        None,
        &f
    ));
    assert!(!item_passes_filter(
        &bookmark("a.com", "https", Some(300)),
        None,
        &f
    ));
}

#[test]
fn date_range_inclusive_endpoints() {
    let f = FilterSpec {
        date_range: Some(DateRange {
            since: Some(100),
            until: Some(200),
        }),
        ..Default::default()
    };
    assert!(item_passes_filter(
        &bookmark("a.com", "https", Some(100)),
        None,
        &f
    ));
    assert!(item_passes_filter(
        &bookmark("a.com", "https", Some(200)),
        None,
        &f
    ));
}

#[test]
fn date_range_does_not_apply_to_folders() {
    let f = FilterSpec {
        date_range: Some(DateRange {
            since: Some(100),
            until: Some(200),
        }),
        ..Default::default()
    };
    assert!(item_passes_filter(&folder(), None, &f));
}

#[test]
fn domain_allowlist_case_insensitive() {
    let f = FilterSpec {
        domains: Some(vec!["Example.COM".into()]),
        ..Default::default()
    };
    assert!(item_passes_filter(
        &bookmark("example.com", "https", None),
        None,
        &f
    ));
    assert!(!item_passes_filter(
        &bookmark("other.com", "https", None),
        None,
        &f
    ));
}

#[test]
fn tld_allowlist_matches_last_label() {
    let f = FilterSpec {
        tlds: Some(vec!["com".into()]),
        ..Default::default()
    };
    assert!(item_passes_filter(
        &bookmark("example.com", "https", None),
        None,
        &f
    ));
    assert!(!item_passes_filter(
        &bookmark("example.org", "https", None),
        None,
        &f
    ));
}

#[test]
fn tld_allowlist_tolerates_leading_dot() {
    let f = FilterSpec {
        tlds: Some(vec![".dev".into()]),
        ..Default::default()
    };
    assert!(item_passes_filter(
        &bookmark("foo.dev", "https", None),
        None,
        &f
    ));
}

#[test]
fn scheme_allowlist_filters_by_url_scheme() {
    let f = FilterSpec {
        schemes: Some(vec!["https".into()]),
        ..Default::default()
    };
    assert!(item_passes_filter(
        &bookmark("a.com", "https", None),
        None,
        &f
    ));
    assert!(!item_passes_filter(
        &bookmark("a.com", "http", None),
        None,
        &f
    ));
}

#[test]
fn commands_depth_filter_only_applies_when_depth_known() {
    let f = FilterSpec {
        depth: Some(DepthFilter {
            min: Some(2),
            max: Some(4),
        }),
        ..Default::default()
    };
    // Browse mode (no depth supplied): never filters by depth.
    assert!(item_passes_filter(
        &bookmark("a.com", "https", None),
        None,
        &f
    ));
    // Search mode: depth is enforced.
    assert!(!item_passes_filter(
        &bookmark("a.com", "https", None),
        Some(1),
        &f
    ));
    assert!(item_passes_filter(
        &bookmark("a.com", "https", None),
        Some(3),
        &f
    ));
    assert!(!item_passes_filter(
        &bookmark("a.com", "https", None),
        Some(5),
        &f
    ));
}

#[test]
fn commands_axes_compose_with_and() {
    let f = FilterSpec {
        kinds: Some(vec![ItemKind::Bookmark]),
        tlds: Some(vec!["com".into()]),
        schemes: Some(vec!["https".into()]),
        ..Default::default()
    };

    // All three pass
    assert!(item_passes_filter(
        &bookmark("ok.com", "https", None),
        None,
        &f
    ));
    // Wrong scheme
    assert!(!item_passes_filter(
        &bookmark("ok.com", "http", None),
        None,
        &f
    ));
    // Wrong TLD
    assert!(!item_passes_filter(
        &bookmark("ok.org", "https", None),
        None,
        &f
    ));
    // Wrong kind
    assert!(!item_passes_filter(&folder(), None, &f));
}


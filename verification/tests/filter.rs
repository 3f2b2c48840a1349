use lantern::commands::filter::item_passes_filter;
use lantern::commands::types::{DateRange, DepthFilter, FilterSpec, FolderItem, ItemKind};

fn bm(domain: &str, scheme: &str, add_date: Option<i64>) -> FolderItem {
    FolderItem {
        id: 1,
        kind: ItemKind::Bookmark,
        title: "t".into(),
        url: Some(format!("{scheme}://{domain}/")),
        domain: Some(domain.into()),
        add_date,
        last_modified: None,
    }
}

fn folder() -> FolderItem {
    FolderItem {
        id: 2,
        kind: ItemKind::Folder,
        title: "f".into(),
        url: None,
        domain: None,
        add_date: Some(0),
        last_modified: None,
    }
}

fn passes(item: &FolderItem, f: &FilterSpec) -> bool {
    item_passes_filter(item, None, f)
}

#[test]
fn empty_filter_and_empty_lists_pass_everything() {
    let empty = FilterSpec::default();
    let empty_kinds = FilterSpec {
        kinds: Some(vec![]),
        ..Default::default()
    };
    for f in [&empty, &empty_kinds] {
        assert!(passes(&bm("example.com", "https", Some(0)), f));
        assert!(passes(&folder(), f));
    }
}

#[test]
fn filter_kind_filter_excludes_other_kinds() {
    let f = FilterSpec {
        kinds: Some(vec![ItemKind::Bookmark]),
        ..Default::default()
    };
    assert!(passes(&bm("a.com", "https", None), &f));
    assert!(!passes(&folder(), &f));
}

#[test]
fn date_range_is_inclusive_and_excludes_undated_bookmarks() {
    let f = FilterSpec {
        date_range: Some(DateRange {
            since: Some(100),
            until: Some(200),
        }),
        ..Default::default()
    };
    for (date, expected) in [
        (Some(100), true),
        (Some(150), true),
        (Some(200), true),
        (Some(50), false),
        (Some(300), false),
        (None, false),
    ] {
        assert_eq!(passes(&bm("a.com", "https", date), &f), expected, "{date:?}");
    }
    assert!(passes(&folder(), &f), "folders ignore the date axis");

    let open_start = FilterSpec {
        date_range: Some(DateRange {
            since: None,
            until: Some(200),
        }),
        ..Default::default()
    };
    assert!(passes(&bm("a.com", "https", Some(100)), &open_start));
    assert!(!passes(&bm("a.com", "https", Some(300)), &open_start));
}

#[test]
fn domain_tld_and_scheme_allowlists_ignore_case() {
    let domains = FilterSpec {
        domains: Some(vec!["Example.COM".into()]),
        ..Default::default()
    };
    assert!(passes(&bm("example.com", "https", None), &domains));
    assert!(!passes(&bm("other.com", "https", None), &domains));

    let tlds = FilterSpec {
        tlds: Some(vec!["com".into(), ".DEV".into()]),
        ..Default::default()
    };
    assert!(passes(&bm("example.com", "https", None), &tlds));
    assert!(passes(&bm("foo.dev", "https", None), &tlds));
    assert!(!passes(&bm("example.org", "https", None), &tlds));

    let schemes = FilterSpec {
        schemes: Some(vec!["HTTPS".into()]),
        ..Default::default()
    };
    assert!(passes(&bm("a.com", "https", None), &schemes));
    assert!(!passes(&bm("a.com", "http", None), &schemes));
}

#[test]
fn filter_depth_filter_only_applies_when_depth_known() {
    let f = FilterSpec {
        depth: Some(DepthFilter {
            min: Some(2),
            max: Some(4),
        }),
        ..Default::default()
    };
    let item = bm("a.com", "https", None);
    assert!(item_passes_filter(&item, None, &f));
    assert!(!item_passes_filter(&item, Some(1), &f));
    assert!(item_passes_filter(&item, Some(3), &f));
    assert!(!item_passes_filter(&item, Some(5), &f));
}

#[test]
fn filter_axes_compose_with_and() {
    let f = FilterSpec {
        kinds: Some(vec![ItemKind::Bookmark]),
        tlds: Some(vec!["com".into()]),
        schemes: Some(vec!["https".into()]),
        ..Default::default()
    };
    assert!(passes(&bm("ok.com", "https", None), &f));
    assert!(!passes(&bm("ok.com", "http", None), &f));
    assert!(!passes(&bm("ok.org", "https", None), &f));
    assert!(!passes(&folder(), &f));
}

#[test]
fn filter_domain_without_dot_has_no_tld_and_missing_url_fails_scheme() {
    let tlds = FilterSpec {
        tlds: Some(vec!["localhost".into()]),
        ..Default::default()
    };
    assert!(!passes(&bm("localhost", "http", None), &tlds));
    let schemes = FilterSpec {
        schemes: Some(vec!["https".into()]),
        ..Default::default()
    };
    let mut item = bm("a.com", "https", None);
    item.url = None;
    assert!(!passes(&item, &schemes));
    item.url = Some("not a url".into());
    assert!(!passes(&item, &schemes));
}

use lantern::model::attrs::attr_map_new;
use lantern::model::ids::NodeIdAllocator;
use lantern::model::node::{Bookmark, BookmarkFlags, BookmarkUrl, Folder, Node};
use lantern::sanitize::treatment::PassContext;
use lantern::sanitize::treatments::url_misc::{
    demobilize_host, is_known_shortener_host, DemobilizeTreatment, FragmentTrackingTreatment,
    HttpsUpgradeTreatment, StripFragmentTreatment, UnshortenOfflineTreatment,
    UserSegmentTreatment,
};


fn make_bookmark(href: &str) -> Node {
    let url = BookmarkUrl::parse(href);
    let mut id_gen = NodeIdAllocator::new();
    Node::Bookmark(Bookmark {
        id: id_gen.alloc_id(),
        title: "Test".into(),
        url,
        add_date: None,
        last_modified: None,
        icon_blob: None,
        description: None,
        attrs: attr_map_new(),
        flags: BookmarkFlags::default(),
    })
}

fn ctx() -> PassContext {
    PassContext { document_id: 0 }
}

#[test]
fn https_upgrade_rewrites_http() {
    let node = make_bookmark("http://example.com/page?q=1");
    let changes = HttpsUpgradeTreatment.propose(&node, &ctx());
    assert_eq!(changes.len(), 1);
    assert!(changes[0].field_after().unwrap().starts_with("https://"));
    assert!(changes[0].destructive);
    assert!(!changes[0].approved);
}

#[test]
fn https_upgrade_skips_already_https() {
    let node = make_bookmark("https://example.com/");
    assert!(HttpsUpgradeTreatment.propose(&node, &ctx()).is_empty());
}

#[test]
fn strip_fragment_removes_hash() {
    let node = make_bookmark("https://example.com/page#section-3");
    let changes = StripFragmentTreatment.propose(&node, &ctx());
    assert_eq!(changes.len(), 1);
    assert_eq!(
        changes[0].field_after().unwrap(),
        "https://example.com/page"
    );
    assert!(!changes[0].destructive);
}

#[test]
fn strip_fragment_no_change_when_no_fragment() {
    let node = make_bookmark("https://example.com/page?q=1");
    assert!(StripFragmentTreatment.propose(&node, &ctx()).is_empty());
}

#[test]
fn https_upgrade_skips_ftp_scheme() {
    let node = make_bookmark("ftp://files.example.com/data.zip");
    assert!(HttpsUpgradeTreatment.propose(&node, &ctx()).is_empty());
}

#[test]
fn https_upgrade_preserves_path_query_fragment() {
    let node = make_bookmark("http://example.com/path?q=1&a=2#section");
    let changes = HttpsUpgradeTreatment.propose(&node, &ctx());
    assert_eq!(changes.len(), 1);
    assert_eq!(
        changes[0].field_after().unwrap(),
        "https://example.com/path?q=1&a=2#section"
    );
}

#[test]
fn https_upgrade_skips_malformed_url() {
    let node = make_bookmark("not a url at all");
    assert!(HttpsUpgradeTreatment.propose(&node, &ctx()).is_empty());
}

#[test]
fn strip_fragment_strips_empty_fragment() {
    // URL with a bare '#' (empty fragment)
    let node = make_bookmark("https://example.com/page#");
    let changes = StripFragmentTreatment.propose(&node, &ctx());
    assert_eq!(changes.len(), 1);
    assert!(!changes[0].field_after().unwrap().contains('#'));
}

#[test]
fn strip_fragment_non_destructive_and_auto_approved() {
    let node = make_bookmark("https://example.com/#anchor");
    let changes = StripFragmentTreatment.propose(&node, &ctx());
    assert_eq!(changes.len(), 1);
    assert!(!changes[0].destructive);
    assert!(changes[0].approved);
}

#[test]
fn https_upgrade_is_destructive_not_auto_approved() {
    let node = make_bookmark("http://example.com/");
    let changes = HttpsUpgradeTreatment.propose(&node, &ctx());
    assert_eq!(changes.len(), 1);
    assert!(changes[0].destructive);
    assert!(!changes[0].approved);
}

#[test]
fn folder_node_skipped_by_both_treatments() {
    let folder = Node::Folder(Folder {
        id: 99,
        name: "Test Folder".into(),
        add_date: None,
        last_modified: None,
        is_toolbar: false,
        attrs: attr_map_new(),
        children: vec![],
    });
    assert!(HttpsUpgradeTreatment.propose(&folder, &ctx()).is_empty());
    assert!(StripFragmentTreatment.propose(&folder, &ctx()).is_empty());
}

// ── FragmentTrackingTreatment ──────────────────────────────────────────

#[test]
fn fragment_tracking_strips_whole_tracking_fragment() {
    let node = make_bookmark("https://example.com/page#utm_source=news&utm_medium=email");
    let changes = FragmentTrackingTreatment.propose(&node, &ctx());
    assert_eq!(changes.len(), 1);
    assert_eq!(
        changes[0].field_after().unwrap(),
        "https://example.com/page"
    );
}

#[test]
fn fragment_tracking_preserves_anchor_fragment() {
    let node = make_bookmark("https://example.com/docs#section-3");
    let changes = FragmentTrackingTreatment.propose(&node, &ctx());
    assert!(changes.is_empty());
}

#[test]
fn fragment_tracking_keeps_non_tracking_pairs() {
    let node = make_bookmark("https://example.com/#view=timeline&utm_campaign=x");
    let changes = FragmentTrackingTreatment.propose(&node, &ctx());
    assert_eq!(changes.len(), 1);
    let after = changes[0].field_after().unwrap();
    assert!(after.contains("view=timeline"));
    assert!(!after.contains("utm_campaign"));
}

#[test]
fn fragment_tracking_strips_fbclid_in_fragment() {
    let node = make_bookmark("https://example.com/x#fbclid=abc123");
    let changes = FragmentTrackingTreatment.propose(&node, &ctx());
    assert_eq!(changes.len(), 1);
    assert_eq!(changes[0].field_after().unwrap(), "https://example.com/x");
}

#[test]
fn fragment_tracking_is_non_destructive() {
    let node = make_bookmark("https://example.com/#utm_source=x");
    let changes = FragmentTrackingTreatment.propose(&node, &ctx());
    assert_eq!(changes.len(), 1);
    assert!(!changes[0].destructive);
    assert!(changes[0].approved);
}

// ── UserSegmentTreatment ───────────────────────────────────────────────

#[test]
fn user_segment_strips_reddit_user_prefix() {
    let node = make_bookmark("https://reddit.com/user/alice/comments/abc/post/");
    let changes = UserSegmentTreatment.propose(&node, &ctx());
    assert_eq!(changes.len(), 1);
    assert_eq!(
        changes[0].field_after().unwrap(),
        "https://reddit.com/comments/abc/post/"
    );
    assert!(changes[0].destructive);
    assert!(!changes[0].approved);
}

#[test]
fn user_segment_strips_u_prefix() {
    let node = make_bookmark("https://example.com/u/bob/thing");
    let changes = UserSegmentTreatment.propose(&node, &ctx());
    assert_eq!(changes.len(), 1);
    assert_eq!(
        changes[0].field_after().unwrap(),
        "https://example.com/thing"
    );
}

#[test]
fn user_segment_strips_at_handle_prefix() {
    let node = make_bookmark("https://medium.com/@writer/post-slug");
    let changes = UserSegmentTreatment.propose(&node, &ctx());
    assert_eq!(changes.len(), 1);
    assert_eq!(
        changes[0].field_after().unwrap(),
        "https://medium.com/post-slug"
    );
}

#[test]
fn user_segment_collapses_to_root_when_only_prefix() {
    let node = make_bookmark("https://example.com/user/alice/");
    let changes = UserSegmentTreatment.propose(&node, &ctx());
    assert_eq!(changes.len(), 1);
    assert_eq!(changes[0].field_after().unwrap(), "https://example.com/");
}

#[test]
fn user_segment_noop_on_unrelated_path() {
    let node = make_bookmark("https://example.com/docs/guide");
    assert!(UserSegmentTreatment.propose(&node, &ctx()).is_empty());
}

#[test]
fn user_segment_noop_on_bare_u_without_name() {
    let node = make_bookmark("https://example.com/u/");
    assert!(UserSegmentTreatment.propose(&node, &ctx()).is_empty());
}

#[test]
fn user_segment_is_destructive_and_needs_approval() {
    let node = make_bookmark("https://reddit.com/user/x/thing");
    let changes = UserSegmentTreatment.propose(&node, &ctx());
    assert_eq!(changes.len(), 1);
    assert!(changes[0].destructive);
    assert!(!changes[0].approved);
}

// ── DemobilizeTreatment ────────────────────────────────────────────────

#[test]
fn demobilize_strips_m_prefix() {
    let node = make_bookmark("https://m.example.com/page");
    let changes = DemobilizeTreatment.propose(&node, &ctx());
    assert_eq!(changes.len(), 1);
    assert_eq!(
        changes[0].field_after().unwrap(),
        "https://example.com/page"
    );
}

#[test]
fn demobilize_strips_mobile_prefix() {
    let node = make_bookmark("https://mobile.twitter.com/status/123");
    let changes = DemobilizeTreatment.propose(&node, &ctx());
    assert_eq!(changes.len(), 1);
    assert_eq!(
        changes[0].field_after().unwrap(),
        "https://twitter.com/status/123"
    );
}

#[test]
fn demobilize_strips_touch_prefix() {
    let node = make_bookmark("https://touch.facebook.com/x");
    let changes = DemobilizeTreatment.propose(&node, &ctx());
    assert_eq!(changes.len(), 1);
    assert_eq!(changes[0].field_after().unwrap(), "https://facebook.com/x");
}

#[test]
fn demobilize_noop_on_canonical_host() {
    let node = make_bookmark("https://example.com/page");
    assert!(DemobilizeTreatment.propose(&node, &ctx()).is_empty());
}

#[test]
fn demobilize_noop_on_two_label_host() {
    // `m.com` is a plausible short domain, not a mobile host; leave alone.
    let node = make_bookmark("https://m.com/");
    assert!(DemobilizeTreatment.propose(&node, &ctx()).is_empty());
}

#[test]
fn demobilize_is_destructive_and_needs_approval() {
    let node = make_bookmark("https://m.example.com/");
    let changes = DemobilizeTreatment.propose(&node, &ctx());
    assert_eq!(changes.len(), 1);
    assert!(changes[0].destructive);
    assert!(!changes[0].approved);
}

// ── UnshortenOfflineTreatment ──────────────────────────────────────────

#[test]
fn shortener_detection_recognises_bit_ly() {
    assert!(is_known_shortener_host("bit.ly"));
    assert!(is_known_shortener_host("BIT.LY"));
}

#[test]
fn shortener_detection_recognises_t_co_and_tinyurl() {
    assert!(is_known_shortener_host("t.co"));
    assert!(is_known_shortener_host("tinyurl.com"));
}

#[test]
fn shortener_detection_does_not_match_subdomains() {
    // Exact-match policy: `foo.bit.ly` is not flagged.
    assert!(!is_known_shortener_host("foo.bit.ly"));
}

#[test]
fn shortener_detection_does_not_match_youtube_short_form() {
    // `youtu.be` is intentionally excluded: destination is unambiguous.
    assert!(!is_known_shortener_host("youtu.be"));
}

#[test]
fn shortener_detection_rejects_unrelated_hosts() {
    assert!(!is_known_shortener_host("example.com"));
    assert!(!is_known_shortener_host("github.com"));
}

#[test]
fn unshorten_treatment_flags_known_shortener() {
    let node = make_bookmark("https://bit.ly/abc");
    let changes = UnshortenOfflineTreatment.propose(&node, &ctx());
    assert_eq!(changes.len(), 1);
    assert!(matches!(
        &changes[0].kind,
        lantern::sanitize::treatment::ChangeKind::SetFlag {
            flag: lantern::model::node::BookmarkFlag::IsShortener,
            before: false,
            after: true,
        }
    ));
    assert!(!changes[0].destructive);
    assert!(changes[0].approved);
}

#[test]
fn unshorten_treatment_noop_on_regular_host() {
    let node = make_bookmark("https://example.com/page");
    assert!(UnshortenOfflineTreatment.propose(&node, &ctx()).is_empty());
}

#[test]
fn unshorten_treatment_noop_when_already_flagged() {
    let url = BookmarkUrl::parse("https://bit.ly/abc");
    let mut id_gen = NodeIdAllocator::new();
    let node = Node::Bookmark(Bookmark {
        id: id_gen.alloc_id(),
        title: "Test".into(),
        url,
        add_date: None,
        last_modified: None,
        icon_blob: None,
        description: None,
        attrs: attr_map_new(),
        flags: BookmarkFlags {
            is_shortener: true,
            ..BookmarkFlags::default()
        },
    });
    assert!(UnshortenOfflineTreatment.propose(&node, &ctx()).is_empty());
}




#[test]
fn demobilize_strips_mobile_labels_below_the_registrable_part() {
    assert_eq!(demobilize_host("de.m.wikipedia.org").as_deref(), Some("de.wikipedia.org"));
    assert_eq!(demobilize_host("m.example.com").as_deref(), Some("example.com"));
    assert_eq!(demobilize_host("M.Mobile.example.com").as_deref(), Some("example.com"));
    assert_eq!(demobilize_host("m.com"), None);
    assert_eq!(demobilize_host("www.example.com"), None);
    assert_eq!(demobilize_host("example.m.com"), None);
}

#[test]
fn demobilize_rewrites_a_nested_mobile_host() {
    let node = make_bookmark("https://de.m.wikipedia.org/wiki/Rust");
    let changes = DemobilizeTreatment.propose(&node, &ctx());
    assert_eq!(changes.len(), 1);
    assert_eq!(changes[0].field_after().unwrap(), "https://de.wikipedia.org/wiki/Rust");
}

use lantern::model::attrs::attr_map_new;
use lantern::model::ids::NodeIdAllocator;
use lantern::model::node::{Bookmark, BookmarkFlags, BookmarkUrl, Node};
use lantern::sanitize::treatment::PassContext;
use lantern::sanitize::treatments::url_qp::{
    AffiliateTreatment, ClickIdsTreatment, CustomQpTreatment, SearchTokensTreatment,
    SessionTreatment, UtmTreatment,
};


fn make_bookmark(href: &str) -> Node {
    let url = BookmarkUrl::parse(href);
    let mut id_gen = NodeIdAllocator::new();
    Node::Bookmark(Bookmark {
        id: id_gen.alloc_id(),
        title: "Test".into(),
        url,
        add_date: None,
        last_modified: None,
        icon_blob: None,
        description: None,
        attrs: attr_map_new(),
        flags: BookmarkFlags::default(),
    })
}

fn ctx() -> PassContext {
    PassContext { document_id: 0 }
}

#[test]
fn utm_strips_all_utm_variants() {
    let node =
        make_bookmark("https://example.com/page?utm_source=newsletter&utm_medium=email&keep=1");
    let changes = UtmTreatment.propose(&node, &ctx());
    assert_eq!(changes.len(), 1);
    assert_eq!(
        changes[0].field_after().unwrap(),
        "https://example.com/page?keep=1"
    );
}

#[test]
fn utm_no_change_when_no_utm_params() {
    let node = make_bookmark("https://example.com/page?q=rust&lang=en");
    let changes = UtmTreatment.propose(&node, &ctx());
    assert!(changes.is_empty());
}

#[test]
fn utm_strips_all_params_removes_query_entirely() {
    let node = make_bookmark("https://example.com/?utm_source=x&utm_campaign=y");
    let changes = UtmTreatment.propose(&node, &ctx());
    assert_eq!(changes.len(), 1);
    assert_eq!(changes[0].field_after().unwrap(), "https://example.com/");
}

#[test]
fn click_ids_strips_fbclid() {
    let node = make_bookmark("https://example.com/?fbclid=ABC123&q=hello");
    let changes = ClickIdsTreatment.propose(&node, &ctx());
    assert_eq!(changes.len(), 1);
    assert_eq!(
        changes[0].field_after().unwrap(),
        "https://example.com/?q=hello"
    );
}

#[test]
fn session_strips_phpsessid() {
    // URL query pairs are case-sensitive; param names come through
    // lowercased from some servers but not others.  Test the lowercase form.
    let node_lower = make_bookmark("https://example.com/login?phpsessid=abc&next=%2F");
    let changes = SessionTreatment.propose(&node_lower, &ctx());
    assert_eq!(changes.len(), 1);
    assert!(changes[0].field_after().unwrap().contains("next="));
    assert!(!changes[0].field_after().unwrap().contains("phpsessid"));
}

#[test]
fn malformed_url_skipped() {
    let node = make_bookmark("not a url");
    assert!(UtmTreatment.propose(&node, &ctx()).is_empty());
    assert!(ClickIdsTreatment.propose(&node, &ctx()).is_empty());
    assert!(SessionTreatment.propose(&node, &ctx()).is_empty());
}

// ── AffiliateTreatment ─────────────────────────────────────────────────

#[test]
fn affiliate_strips_amazon_tag() {
    let node = make_bookmark("https://www.amazon.com/dp/B0123?tag=acme-20&keywords=book");
    let changes = AffiliateTreatment.propose(&node, &ctx());
    assert_eq!(changes.len(), 1);
    assert!(changes[0].field_after().unwrap().contains("keywords=book"));
    assert!(!changes[0].field_after().unwrap().contains("tag="));
}

#[test]
fn affiliate_strips_amazon_ref_block() {
    let node =
        make_bookmark("https://smile.amazon.co.uk/gp/product/B0ABC?ref_=cm_cr&pd_rd_r=x&y=1");
    let changes = AffiliateTreatment.propose(&node, &ctx());
    assert_eq!(changes.len(), 1);
    let after = changes[0].field_after().unwrap();
    assert!(after.contains("y=1"));
    assert!(!after.contains("ref_="));
    assert!(!after.contains("pd_rd_r="));
}

#[test]
fn affiliate_leaves_amazon_params_on_non_amazon_host() {
    // `tag` is Amazon-scoped; on another host it must survive.
    let node = make_bookmark("https://example.com/x?tag=promo&q=hi");
    let changes = AffiliateTreatment.propose(&node, &ctx());
    assert!(changes.is_empty());
}

#[test]
fn affiliate_strips_ebay_campid() {
    let node = make_bookmark("https://www.ebay.com/itm/123?campid=5338&mkcid=1&title=wrench");
    let changes = AffiliateTreatment.propose(&node, &ctx());
    assert_eq!(changes.len(), 1);
    let after = changes[0].field_after().unwrap();
    assert!(after.contains("title=wrench"));
    assert!(!after.contains("campid="));
    assert!(!after.contains("mkcid="));
}

#[test]
fn affiliate_strips_generic_params_on_any_host() {
    let node = make_bookmark("https://shop.example.com/x?affid=abc&q=t");
    let changes = AffiliateTreatment.propose(&node, &ctx());
    assert_eq!(changes.len(), 1);
    assert!(changes[0].field_after().unwrap().contains("q=t"));
    assert!(!changes[0].field_after().unwrap().contains("affid="));
}

#[test]
fn affiliate_no_change_when_nothing_matches() {
    let node = make_bookmark("https://example.com/x?q=1&page=2");
    assert!(AffiliateTreatment.propose(&node, &ctx()).is_empty());
}

#[test]
fn affiliate_non_destructive_and_auto_approved() {
    let node = make_bookmark("https://www.amazon.com/dp/X?tag=y");
    let changes = AffiliateTreatment.propose(&node, &ctx());
    assert_eq!(changes.len(), 1);
    assert!(!changes[0].destructive);
    assert!(changes[0].approved);
}

// ── SearchTokensTreatment ──────────────────────────────────────────────

#[test]
fn search_tokens_strips_google_ved_and_ei_preserving_q() {
    let node =
        make_bookmark("https://www.google.com/search?q=rust+book&ved=abc&ei=xyz&oq=rust");
    let changes = SearchTokensTreatment.propose(&node, &ctx());
    assert_eq!(changes.len(), 1);
    let after = changes[0].field_after().unwrap();
    assert!(after.contains("q=rust+book") || after.contains("q=rust%2Bbook"));
    assert!(!after.contains("ved="));
    assert!(!after.contains("ei="));
    assert!(!after.contains("oq="));
}

#[test]
fn search_tokens_strips_bing_form_cvid() {
    let node = make_bookmark("https://www.bing.com/search?q=cats&form=QBLH&cvid=abc&pq=ca");
    let changes = SearchTokensTreatment.propose(&node, &ctx());
    assert_eq!(changes.len(), 1);
    let after = changes[0].field_after().unwrap();
    assert!(after.contains("q=cats"));
    assert!(!after.contains("form="));
    assert!(!after.contains("cvid="));
    assert!(!after.contains("pq="));
}

#[test]
fn search_tokens_strips_ddg_atb_t_preserving_q() {
    let node = make_bookmark("https://duckduckgo.com/?q=rust&atb=v123&t=h_&ia=web");
    let changes = SearchTokensTreatment.propose(&node, &ctx());
    assert_eq!(changes.len(), 1);
    let after = changes[0].field_after().unwrap();
    assert!(after.contains("q=rust"));
    assert!(!after.contains("atb="));
    assert!(!after.contains("ia=web"));
}

#[test]
fn search_tokens_preserves_params_on_non_search_host() {
    // ved / ei are Google-scoped; on an unrelated host they stay.
    let node = make_bookmark("https://example.com/x?ved=1&ei=2&q=n");
    let changes = SearchTokensTreatment.propose(&node, &ctx());
    assert!(changes.is_empty());
}

#[test]
fn search_tokens_leaves_clean_search_url_alone() {
    let node = make_bookmark("https://www.google.com/search?q=rust");
    assert!(SearchTokensTreatment.propose(&node, &ctx()).is_empty());
}

// ── CustomQpTreatment ──────────────────────────────────────────────────

#[test]
fn custom_empty_list_is_noop() {
    let node = make_bookmark("https://example.com/?a=1&b=2");
    let changes = CustomQpTreatment::empty().propose(&node, &ctx());
    assert!(changes.is_empty());
}

#[test]
fn custom_strips_listed_params() {
    let node = make_bookmark("https://example.com/?drop=1&keep=2&also_drop=3");
    let t = CustomQpTreatment::new(vec!["drop".into(), "also_drop".into()]);
    let changes = t.propose(&node, &ctx());
    assert_eq!(changes.len(), 1);
    let after = changes[0].field_after().unwrap();
    assert!(after.contains("keep=2"));
    assert!(!after.contains("drop="));
    assert!(!after.contains("also_drop="));
}

#[test]
fn custom_case_sensitive_match() {
    let node = make_bookmark("https://example.com/?X=1&x=2");
    // Configured with lowercase 'x'; uppercase 'X' should survive.
    let t = CustomQpTreatment::new(vec!["x".into()]);
    let changes = t.propose(&node, &ctx());
    assert_eq!(changes.len(), 1);
    let after = changes[0].field_after().unwrap();
    assert!(after.contains("X=1"));
    assert!(!after.contains("x=2"));
}

#[test]
fn custom_no_change_when_none_match() {
    let node = make_bookmark("https://example.com/?a=1");
    let t = CustomQpTreatment::new(vec!["b".into()]);
    assert!(t.propose(&node, &ctx()).is_empty());
}




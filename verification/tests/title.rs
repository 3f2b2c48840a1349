use lantern::model::attrs::attr_map_new;
use lantern::model::ids::NodeIdAllocator;
use lantern::model::node::{Bookmark, BookmarkFlags, BookmarkUrl, Folder, Node};
use lantern::sanitize::treatment::PassContext;
use lantern::sanitize::treatments::title::{
    AuthorSuffixTreatment, EmailTreatment, HandleTreatment, HtmlEntitiesTreatment,
    RegexTitleTreatment, WhitespaceTreatment,
};


fn make_bookmark_titled(title: &str) -> Node {
    let mut id_gen = NodeIdAllocator::new();
    Node::Bookmark(Bookmark {
        id: id_gen.alloc_id(),
        title: title.to_owned(),
        url: BookmarkUrl::Malformed {
            raw: "https://example.com".into(),
        },
        add_date: None,
        last_modified: None,
        icon_blob: None,
        description: None,
        attrs: attr_map_new(),
        flags: BookmarkFlags::default(),
    })
}

fn ctx() -> PassContext {
    PassContext { document_id: 0 }
}

#[test]
fn collapses_internal_whitespace() {
    let node = make_bookmark_titled("Hello   World");
    let changes = WhitespaceTreatment.propose(&node, &ctx());
    assert_eq!(changes.len(), 1);
    assert_eq!(changes[0].field_after().unwrap(), "Hello World");
}

#[test]
fn trims_leading_trailing() {
    let node = make_bookmark_titled("  Hello  ");
    let changes = WhitespaceTreatment.propose(&node, &ctx());
    assert_eq!(changes.len(), 1);
    assert_eq!(changes[0].field_after().unwrap(), "Hello");
}

#[test]
fn no_change_for_clean_title() {
    let node = make_bookmark_titled("Hello World");
    let changes = WhitespaceTreatment.propose(&node, &ctx());
    assert!(changes.is_empty());
}

#[test]
fn handles_tab_and_newline() {
    let node = make_bookmark_titled("Hello\t\nWorld");
    let changes = WhitespaceTreatment.propose(&node, &ctx());
    assert_eq!(changes.len(), 1);
    assert_eq!(changes[0].field_after().unwrap(), "Hello World");
}

#[test]
fn folder_node_ignored() {
    let folder = Node::Folder(Folder {
        id: 1,
        name: "  spaced  ".into(),
        add_date: None,
        last_modified: None,
        is_toolbar: false,
        attrs: attr_map_new(),
        children: vec![],
    });
    assert!(WhitespaceTreatment.propose(&folder, &ctx()).is_empty());
}

// ── HtmlEntitiesTreatment ─────────────────────────────────────────────

#[test]
fn decodes_amp() {
    let node = make_bookmark_titled("Tom &amp; Jerry");
    let changes = HtmlEntitiesTreatment.propose(&node, &ctx());
    assert_eq!(changes.len(), 1);
    assert_eq!(changes[0].field_after().unwrap(), "Tom & Jerry");
}

#[test]
fn decodes_lt_gt() {
    let node = make_bookmark_titled("A &lt; B &gt; C");
    let changes = HtmlEntitiesTreatment.propose(&node, &ctx());
    assert_eq!(changes[0].field_after().unwrap(), "A < B > C");
}

#[test]
fn decodes_quot_and_apos() {
    let node = make_bookmark_titled("Say &quot;hello&quot; &amp; it&apos;s done");
    let changes = HtmlEntitiesTreatment.propose(&node, &ctx());
    assert_eq!(
        changes[0].field_after().unwrap(),
        "Say \"hello\" & it's done"
    );
}

#[test]
fn decodes_numeric_decimal() {
    // &#169; = © (copyright sign)
    let node = make_bookmark_titled("&#169; 2024 Acme");
    let changes = HtmlEntitiesTreatment.propose(&node, &ctx());
    assert_eq!(changes[0].field_after().unwrap(), "© 2024 Acme");
}

#[test]
fn decodes_numeric_hex_lowercase() {
    // &#x26; = & (ampersand)
    let node = make_bookmark_titled("A &#x26; B");
    let changes = HtmlEntitiesTreatment.propose(&node, &ctx());
    assert_eq!(changes[0].field_after().unwrap(), "A & B");
}

#[test]
fn decodes_numeric_hex_uppercase() {
    // &#X26; = &
    let node = make_bookmark_titled("A &#X26; B");
    let changes = HtmlEntitiesTreatment.propose(&node, &ctx());
    assert_eq!(changes[0].field_after().unwrap(), "A & B");
}

#[test]
fn decodes_mdash_ndash() {
    let node = make_bookmark_titled("Rust &mdash; fast &amp; safe");
    let changes = HtmlEntitiesTreatment.propose(&node, &ctx());
    assert_eq!(changes[0].field_after().unwrap(), "Rust — fast & safe");
}

#[test]
fn unknown_entity_passes_through() {
    let node = make_bookmark_titled("&unknown; entity");
    let changes = HtmlEntitiesTreatment.propose(&node, &ctx());
    // No change: unknown entity is preserved verbatim
    assert!(changes.is_empty());
}

#[test]
fn html_entities_no_change_for_clean_title() {
    let node = make_bookmark_titled("No entities here");
    let changes = HtmlEntitiesTreatment.propose(&node, &ctx());
    assert!(changes.is_empty());
}

#[test]
fn no_change_for_title_without_ampersand() {
    // Fast-path: titles without '&' are returned as-is
    let node = make_bookmark_titled("Hello World 123");
    let changes = HtmlEntitiesTreatment.propose(&node, &ctx());
    assert!(changes.is_empty());
}

#[test]
fn treatment_is_non_destructive_and_auto_approved() {
    let node = make_bookmark_titled("A &amp; B");
    let changes = HtmlEntitiesTreatment.propose(&node, &ctx());
    assert_eq!(changes.len(), 1);
    assert!(!changes[0].destructive);
    assert!(changes[0].approved);
}

#[test]
fn html_entities_folder_node_ignored() {
    let folder = Node::Folder(Folder {
        id: 1,
        name: "&amp; folder".into(),
        add_date: None,
        last_modified: None,
        is_toolbar: false,
        attrs: attr_map_new(),
        children: vec![],
    });
    assert!(HtmlEntitiesTreatment.propose(&folder, &ctx()).is_empty());
}

// ── EmailTreatment ─────────────────────────────────────────────────────

#[test]
fn email_strips_parenthetical_address() {
    let node = make_bookmark_titled("Article (you@example.com)");
    let changes = EmailTreatment.propose(&node, &ctx());
    assert_eq!(changes.len(), 1);
    assert_eq!(changes[0].field_after().unwrap(), "Article");
}

#[test]
fn email_strips_inline_address() {
    let node = make_bookmark_titled("Contact us: support@acme.org for help");
    let changes = EmailTreatment.propose(&node, &ctx());
    assert_eq!(changes.len(), 1);
    assert_eq!(changes[0].field_after().unwrap(), "Contact us: for help");
}

#[test]
fn email_no_change_when_no_address() {
    let node = make_bookmark_titled("Plain title without addresses");
    assert!(EmailTreatment.propose(&node, &ctx()).is_empty());
}

#[test]
fn email_does_not_eat_handle_without_tld() {
    // `@user@instance` has no proper TLD so EmailTreatment should skip it;
    // HandleTreatment owns this case.
    let node = make_bookmark_titled("Post by @alice");
    assert!(EmailTreatment.propose(&node, &ctx()).is_empty());
}

// ── HandleTreatment ────────────────────────────────────────────────────

#[test]
fn handle_strips_leading_at_handle() {
    let node = make_bookmark_titled("@alice posted something");
    let changes = HandleTreatment.propose(&node, &ctx());
    assert_eq!(changes.len(), 1);
    assert_eq!(changes[0].field_after().unwrap(), "posted something");
}

#[test]
fn handle_strips_inline_handle() {
    let node = make_bookmark_titled("New post from @bob today");
    let changes = HandleTreatment.propose(&node, &ctx());
    assert_eq!(changes.len(), 1);
    assert_eq!(changes[0].field_after().unwrap(), "New post from today");
}

#[test]
fn handle_strips_mastodon_form() {
    let node = make_bookmark_titled("Boost from @user@mastodon.social!");
    let changes = HandleTreatment.propose(&node, &ctx());
    assert_eq!(changes.len(), 1);
    assert_eq!(changes[0].field_after().unwrap(), "Boost from !");
}

#[test]
fn handle_does_not_match_email_local_part() {
    // `you@example.com` should not be partially eaten as a handle;
    // it's an email and HandleTreatment should leave it alone because
    // there's no leading word-boundary `@`.
    let node = make_bookmark_titled("Contact you@example.com please");
    let changes = HandleTreatment.propose(&node, &ctx());
    assert!(changes.is_empty());
}

// ── AuthorSuffixTreatment ──────────────────────────────────────────────

#[test]
fn author_suffix_strips_em_dash_by_byline() {
    let node = make_bookmark_titled("How to Build Things — by Alice Cooper");
    let changes = AuthorSuffixTreatment.propose(&node, &ctx());
    assert_eq!(changes.len(), 1);
    assert_eq!(changes[0].field_after().unwrap(), "How to Build Things");
}

#[test]
fn author_suffix_strips_pipe_byline() {
    let node = make_bookmark_titled("Cool Article | Jane Doe");
    let changes = AuthorSuffixTreatment.propose(&node, &ctx());
    assert_eq!(changes.len(), 1);
    assert_eq!(changes[0].field_after().unwrap(), "Cool Article");
}

#[test]
fn author_suffix_strips_dash_by_byline_three_word_name() {
    let node = make_bookmark_titled("Some Title - by Mary Jane Smith");
    let changes = AuthorSuffixTreatment.propose(&node, &ctx());
    assert_eq!(changes.len(), 1);
    assert_eq!(changes[0].field_after().unwrap(), "Some Title");
}

#[test]
fn author_suffix_no_match_without_separator() {
    let node = make_bookmark_titled("Title by Alice");
    // Missing the leading separator (` - `, ` | `, etc.): leave alone.
    assert!(AuthorSuffixTreatment.propose(&node, &ctx()).is_empty());
}

#[test]
fn author_suffix_no_match_lowercase_trailing() {
    let node = make_bookmark_titled("Some Title - notes here");
    assert!(AuthorSuffixTreatment.propose(&node, &ctx()).is_empty());
}

#[test]
fn author_suffix_destructive_and_unapproved() {
    let node = make_bookmark_titled("Cool Read | Author Name");
    let changes = AuthorSuffixTreatment.propose(&node, &ctx());
    assert_eq!(changes.len(), 1);
    assert!(changes[0].destructive);
    assert!(!changes[0].approved);
}

// ── RegexTitleTreatment ────────────────────────────────────────────────

#[test]
fn regex_title_replaces_matches() {
    // ASCII-class whitespace because the workspace `regex` build excludes
    // the `unicode-perl` feature; user-supplied regexes inherit the same
    // restriction.
    let t = RegexTitleTreatment::new(r"[ \t]*\[draft\]$", "").unwrap();
    let node = make_bookmark_titled("Notes [draft]");
    let changes = t.propose(&node, &ctx());
    assert_eq!(changes.len(), 1);
    assert_eq!(changes[0].field_after().unwrap(), "Notes");
}

#[test]
fn regex_title_supports_replacement_string() {
    let t = RegexTitleTreatment::new(r"foo", "BAR").unwrap();
    let node = make_bookmark_titled("foo bar foo");
    let changes = t.propose(&node, &ctx());
    assert_eq!(changes.len(), 1);
    assert_eq!(changes[0].field_after().unwrap(), "BAR bar BAR");
}

#[test]
fn regex_title_invalid_pattern_returns_none() {
    assert!(RegexTitleTreatment::new(r"(unclosed", "").is_none());
}

#[test]
fn regex_title_empty_is_noop() {
    let node = make_bookmark_titled("Anything goes here");
    assert!(RegexTitleTreatment::empty()
        .propose(&node, &ctx())
        .is_empty());
}

#[test]
fn regex_title_destructive_and_unapproved() {
    let t = RegexTitleTreatment::new(r"x", "y").unwrap();
    let node = make_bookmark_titled("x marks the spot");
    let changes = t.propose(&node, &ctx());
    assert_eq!(changes.len(), 1);
    assert!(changes[0].destructive);
    assert!(!changes[0].approved);
}

#[test]
fn regex_title_no_change_when_no_match() {
    let t = RegexTitleTreatment::new(r"NOTFOUND", "").unwrap();
    let node = make_bookmark_titled("plain title");
    assert!(t.propose(&node, &ctx()).is_empty());
}



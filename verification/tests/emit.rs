use lantern::emit::{emit, EmitOptions};
use lantern::model::attrs::{attr_map_insert, attr_map_new};
use lantern::model::document::{Document, DocumentStats, HeaderMetadata, LineEnding};
use lantern::model::node::{Bookmark, BookmarkFlags, BookmarkUrl, Folder, Node, Separator};

fn bookmark(id: u64, title: &str, url: &str) -> Bookmark {
    Bookmark {
        id,
        title: title.into(),
        url: BookmarkUrl::parse(url),
        add_date: None,
        last_modified: None,
        icon_blob: None,
        description: None,
        attrs: attr_map_new(),
        flags: BookmarkFlags::default(),
    }
}

fn doc_of(children: Vec<Node>, header: HeaderMetadata) -> Document {
    let root = Folder {
        id: 1,
        name: String::new(),
        add_date: None,
        last_modified: None,
        is_toolbar: false,
        attrs: attr_map_new(),
        children,
    };
    let stats = DocumentStats::from_root(&root);
    Document::new(2, None, root, header, stats)
}

fn sample() -> Document {
    let mut a = bookmark(2, "Example", "https://example.com");
    a.add_date = Some(1_700_000_000);
    a.description = Some("  A description.  ".into());
    let rust = bookmark(4, "Rust", "https://rust-lang.org");
    let folder = Folder {
        id: 3,
        name: "Folder".into(),
        add_date: Some(1_700_000_001),
        last_modified: None,
        is_toolbar: false,
        attrs: attr_map_new(),
        children: vec![Node::Bookmark(rust), Node::Separator(Separator { id: 5 })],
    };
    doc_of(vec![Node::Bookmark(a), Node::Folder(folder)], HeaderMetadata::default())
}

fn expected() -> String {
    let lines = [
        "<!DOCTYPE NETSCAPE-Bookmark-file-1>",
        "<META HTTP-EQUIV=\"Content-Type\" CONTENT=\"text/html; charset=UTF-8\">",
        "<TITLE>Bookmarks</TITLE>",
        "<H1>Bookmarks</H1>",
        "<DL><p>",
        "    <DT><A HREF=\"https://example.com/\" ADD_DATE=\"1700000000\">Example</A>",
        "    <DD>A description.",
        "    <DT><H3 ADD_DATE=\"1700000001\">Folder</H3>",
        "    <DL><p>",
        "        <DT><A HREF=\"https://rust-lang.org/\">Rust</A>",
        "        <HR>",
        "    </DL><p>",
        "</DL><p>",
        "",
    ];
    lines.join("\n")
}

#[test]
fn a_built_tree_emits_a_netscape_file() {
    let bytes = emit(&sample(), &EmitOptions::default());
    assert!(!bytes.is_empty());
    let text = std::str::from_utf8(&bytes).expect("output must be valid UTF-8");
    assert!(text.contains("<!DOCTYPE NETSCAPE-Bookmark-file-1>"));
}

#[test]
fn emits_the_netscape_layout() {
    let bytes = emit(&sample(), &EmitOptions::default());
    assert_eq!(std::str::from_utf8(&bytes).unwrap(), expected());
}

#[test]
fn bom_and_crlf_are_kept() {
    let mut header = HeaderMetadata::default();
    header.has_bom = true;
    header.line_ending = LineEnding::Crlf;
    let doc = doc_of(vec![Node::Separator(Separator { id: 9 })], header);
    let bytes = emit(&doc, &EmitOptions::default());
    assert!(bytes.starts_with(b"\xef\xbb\xbf"), "BOM must be preserved");
    let text = std::str::from_utf8(&bytes[3..]).unwrap();
    assert!(text.contains("    <HR>\r\n"));
    assert!(text.ends_with("</DL><p>\r\n"));
}

#[test]
fn compact_mode_of_a_built_tree_has_no_indent() {
    let bytes = emit(&sample(), &EmitOptions { compact: true });
    let text = std::str::from_utf8(&bytes).unwrap();
    for line in text.lines() {
        assert!(!line.starts_with(' '), "unexpected indent in compact mode: {:?}", line);
    }
}

#[test]
fn unknown_attributes_are_written_upper_cased_in_order_after_the_known_ones() {
    let mut b = bookmark(2, "A", "https://a.example/");
    attr_map_insert(&mut b.attrs, "href".into(), "ignored".into());
    attr_map_insert(&mut b.attrs, "icon_uri".into(), "https://a.example/favicon.ico".into());
    attr_map_insert(&mut b.attrs, "tags".into(), "x,y".into());
    b.icon_blob = Some("data:x".into());
    let doc = doc_of(vec![Node::Bookmark(b)], HeaderMetadata::default());
    let text = String::from_utf8(emit(&doc, &EmitOptions::default())).unwrap();
    assert!(
        text.contains(r#"<DT><A HREF="https://a.example/" ICON="data:x" ICON_URI="https://a.example/favicon.ico" TAGS="x,y">A</A>"#),
        "{text}"
    );
}

#[test]
fn header_charset_of_a_built_tree_is_escaped() {
    let mut header = HeaderMetadata::default();
    header.charset = Some(r#"x"><b>"#.into());
    let doc = doc_of(vec![], header);
    let text = String::from_utf8(emit(&doc, &EmitOptions::default())).unwrap();
    assert!(text.contains("charset=x&quot;&gt;&lt;b&gt;\">"), "{text}");
}

#[test]
fn toolbar_negative_dates_blank_descriptions_and_non_ascii_text() {
    let mut b = bookmark(3, "Café ☕ 𝄞", "https://example.com/");
    b.last_modified = Some(-5);
    b.description = Some("   ".into());
    let folder = Folder {
        id: 2,
        name: "Toolbar".into(),
        add_date: None,
        last_modified: None,
        is_toolbar: true,
        attrs: attr_map_new(),
        children: vec![Node::Bookmark(b)],
    };
    let mut header = HeaderMetadata::default();
    header.title = None;
    header.charset = None;
    let doc = doc_of(vec![Node::Folder(folder)], header);
    let text = String::from_utf8(emit(&doc, &EmitOptions::default())).unwrap();
    assert!(text.contains("<DT><H3 PERSONAL_TOOLBAR_FOLDER=\"true\">Toolbar</H3>"));
    assert!(text.contains("LAST_MODIFIED=\"-5\">Café ☕ 𝄞</A>\n        </DL>") == false);
    assert!(text.contains("LAST_MODIFIED=\"-5\">Café ☕ 𝄞</A>\n    </DL><p>"));
    assert!(!text.contains("<DD>"));
    assert!(text.contains("<TITLE>Bookmarks</TITLE>"));
}

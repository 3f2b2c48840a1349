use lantern::emit::{emit, EmitOptions};
use lantern::error::CoreError;
use lantern::model::attrs::attr_map_new;
use lantern::model::document::{Document, DocumentStats, HeaderMetadata};
use lantern::model::node::{Bookmark, BookmarkFlags, BookmarkUrl, Folder, Node};

fn parse(bytes: &[u8]) -> Result<Document, CoreError> {
    lantern::parser::parse(bytes, 1)
}

fn next_document_id() -> u64 {
    1
}


/// The same minimal fixture used by the parser tests.
const MINIMAL: &[u8] = br#"<!DOCTYPE NETSCAPE-Bookmark-file-1>
<META HTTP-EQUIV="Content-Type" CONTENT="text/html; charset=UTF-8">
<TITLE>Bookmarks</TITLE>
<H1>Bookmarks</H1>
<DL><p>
    <DT><A HREF="https://example.com" ADD_DATE="1700000000">Example</A>
    <DD>A description.
    <DT><H3 ADD_DATE="1700000001">Folder</H3>
    <DL><p>
        <DT><A HREF="https://rust-lang.org">Rust</A>
        <HR>
    </DL><p>
</DL><p>
"#;

#[test]
fn emits_without_panic() {
    let doc = parse(MINIMAL).unwrap();
    let bytes = emit(&doc, &EmitOptions::default());
    assert!(!bytes.is_empty());
    let text = std::str::from_utf8(&bytes).expect("output must be valid UTF-8");
    assert!(text.contains("<!DOCTYPE NETSCAPE-Bookmark-file-1>"));
}

#[test]
fn round_trip_preserves_structure() {
    let doc1 = parse(MINIMAL).unwrap();
    let emitted = emit(&doc1, &EmitOptions::default());
    let doc2 = parse(&emitted).unwrap();

    // Same top-level item count.
    assert_eq!(doc1.root.children.len(), doc2.root.children.len());

    // Same stats.
    assert_eq!(doc1.stats.bookmark_count, doc2.stats.bookmark_count);
    assert_eq!(doc1.stats.folder_count, doc2.stats.folder_count);
    assert_eq!(doc1.stats.separator_count, doc2.stats.separator_count);

    // First child is still the bookmark with the right URL.
    let Node::Bookmark(bm1) = &doc1.root.children[0] else {
        panic!()
    };
    let Node::Bookmark(bm2) = &doc2.root.children[0] else {
        panic!()
    };
    assert_eq!(bm1.url.as_str(), bm2.url.as_str());
    assert_eq!(bm1.title, bm2.title);

    // Description round-trips.
    assert_eq!(bm1.description, bm2.description);

    // Second child is still a folder with the same name.
    let Node::Folder(f1) = &doc1.root.children[1] else {
        panic!()
    };
    let Node::Folder(f2) = &doc2.root.children[1] else {
        panic!()
    };
    assert_eq!(f1.name, f2.name);
    assert_eq!(f1.children.len(), f2.children.len());
}

#[test]
fn bom_round_trips() {
    let mut with_bom = b"\xef\xbb\xbf".to_vec();
    with_bom.extend_from_slice(MINIMAL);
    let doc = parse(&with_bom).unwrap();
    let emitted = emit(&doc, &EmitOptions::default());
    assert!(
        emitted.starts_with(b"\xef\xbb\xbf"),
        "BOM must be preserved"
    );
}

#[test]
fn compact_mode_produces_no_leading_spaces() {
    let doc = parse(MINIMAL).unwrap();
    let bytes = emit(&doc, &EmitOptions { compact: true });
    let text = std::str::from_utf8(&bytes).unwrap();
    // No line should start with spaces in compact mode.
    for line in text.lines() {
        assert!(
            !line.starts_with(' '),
            "unexpected indent in compact mode: {:?}",
            line
        );
    }
}

#[test]
fn unknown_attributes_round_trip_including_icon_uri() {
    let html = br#"<!DOCTYPE NETSCAPE-Bookmark-file-1>
<DL><p>
    <DT><A HREF="https://a.example/" ICON_URI="https://a.example/favicon.ico" TAGS="x,y">A</A>
</DL><p>
"#;
    let emitted = emit(&parse(html).unwrap(), &EmitOptions::default());
    let text = std::str::from_utf8(&emitted).unwrap();
    assert!(
        text.contains(r#"ICON_URI="https://a.example/favicon.ico" TAGS="x,y""#),
        "{text}"
    );
}

#[test]
fn header_charset_is_escaped() {
    let mut doc = parse(MINIMAL).unwrap();
    doc.header.charset = Some(r#"x"><b>"#.into());
    let emitted = emit(&doc, &EmitOptions::default());
    let text = std::str::from_utf8(&emitted).unwrap();
    assert!(text.contains("charset=x&quot;&gt;&lt;b&gt;\">"), "{text}");
}

#[test]
fn special_chars_escaped_in_title() {

    let bm = Bookmark {
        id: 1,
        title: "A & B < C > D".into(),
        url: BookmarkUrl::parse("https://example.com/"),
        add_date: None,
        last_modified: None,
        icon_blob: None,
        description: None,
        attrs: attr_map_new(),
        flags: BookmarkFlags::default(),
    };

    let root = Folder {
        id: 0,
        name: String::new(),
        add_date: None,
        last_modified: None,
        is_toolbar: false,
        attrs: attr_map_new(),
        children: vec![Node::Bookmark(bm)],
    };

    let doc = Document::new(
        next_document_id(),
        None,
        root,
        HeaderMetadata::default(),
        DocumentStats::default(),
    );
    let bytes = emit(&doc, &EmitOptions::default());
    let text = std::str::from_utf8(&bytes).unwrap();
    assert!(text.contains("A &amp; B &lt; C &gt; D"));
    assert!(!text.contains("A & B"));
}



use lantern::error::CoreError;
use lantern::model::document::Document;
use lantern::model::node::Node;
use lantern::parser::stamp::{chrome_time_to_utc, parse_i64, parse_timestamp};

fn parse(bytes: &[u8]) -> Result<Document, CoreError> {
    lantern::parser::parse(bytes, 1)
}


const MINIMAL: &[u8] = br#"<!DOCTYPE NETSCAPE-Bookmark-file-1>
<META HTTP-EQUIV="Content-Type" CONTENT="text/html; charset=UTF-8">
<TITLE>Bookmarks</TITLE>
<H1>Bookmarks</H1>
<DL><p>
    <DT><A HREF="https://example.com" ADD_DATE="1700000000">Example</A>
    <DD>A description.
    <DT><H3 ADD_DATE="1700000001">Folder</H3>
    <DL><p>
        <DT><A HREF="https://rust-lang.org">Rust</A>
        <HR>
    </DL><p>
</DL><p>
"#;

#[test]
fn parses_minimal_fixture() {
    let doc = parse(MINIMAL).expect("should parse without error");

    // Root folder wraps all top-level items.
    let children = &doc.root.children;
    assert_eq!(children.len(), 2, "expected bookmark + folder at root");

    // First child: bookmark
    let Node::Bookmark(bm) = &children[0] else {
        panic!("expected first child to be a Bookmark");
    };
    assert_eq!(bm.title, "Example");
    assert_eq!(bm.url.as_str(), "https://example.com/");
    assert_eq!(bm.description.as_deref(), Some("A description."));
    assert!(bm.add_date.is_some());

    // Second child: folder containing one bookmark and one separator
    let Node::Folder(folder) = &children[1] else {
        panic!("expected second child to be a Folder");
    };
    assert_eq!(folder.name, "Folder");
    assert_eq!(folder.children.len(), 2);
    assert!(matches!(folder.children[0], Node::Bookmark(_)));
    assert!(matches!(folder.children[1], Node::Separator(_)));
}

#[test]
fn stats_are_correct() {
    let doc = parse(MINIMAL).expect("should parse");
    assert_eq!(doc.stats.bookmark_count, 2);
    assert_eq!(doc.stats.folder_count, 1);
    assert_eq!(doc.stats.separator_count, 1);
}

#[test]
fn header_charset_extracted() {
    let doc = parse(MINIMAL).expect("should parse");
    assert_eq!(doc.header.charset.as_deref(), Some("UTF-8"));
    assert_eq!(doc.header.title.as_deref(), Some("Bookmarks"));
    assert!(!doc.header.has_bom);
}

#[test]
fn bom_detected() {
    let mut with_bom = b"\xef\xbb\xbf".to_vec();
    with_bom.extend_from_slice(MINIMAL);
    let doc = parse(&with_bom).expect("should parse with BOM");
    assert!(doc.header.has_bom);
}

#[test]
fn malformed_url_preserved() {
    let html = br#"<!DOCTYPE NETSCAPE-Bookmark-file-1>
<TITLE>Bookmarks</TITLE>
<DL><p>
    <DT><A HREF="not a url at all">Bad URL</A>
</DL><p>
"#;
    let doc = parse(html).expect("should parse even with malformed URL");
    let Node::Bookmark(bm) = &doc.root.children[0] else {
        panic!("expected a bookmark");
    };
    assert!(bm.url.is_malformed());
    assert_eq!(bm.url.as_str(), "not a url at all");
}

#[test]
fn empty_file_returns_error() {
    let result = parse(b"<html><body></body></html>");
    assert!(result.is_err(), "should fail without a root <DL>");
}



// ── Chrome timestamps ────────────────────────────────────────────────────

/// Unix 1_700_000_000 as a Chrome-epoch microsecond count.
const CHROME_1700000000: i64 = 13_344_473_600_000_000;

#[test]
fn chrome_epoch_converts_known_unix_second() {
    let dt = chrome_time_to_utc(CHROME_1700000000).expect("in range");
    assert_eq!(dt, 1_700_000_000);
}

#[test]
fn chrome_epoch_rejects_underflow() {
    assert!(chrome_time_to_utc(0).is_some()); // 1601-01-01 is representable
    assert!(chrome_time_to_utc(i64::MIN).is_none());
}

// ── Timestamps and integers ──────────────────────────────────────────────

#[test]
fn timestamps_span_exactly_the_dates_chrono_represents() {
    assert_eq!(parse_timestamp(" 1700000000 "), Some(1_700_000_000));
    assert_eq!(parse_timestamp("8210266876799"), Some(8_210_266_876_799));
    assert_eq!(parse_timestamp("8210266876800"), None);
    assert_eq!(parse_timestamp("-8334601228800"), Some(-8_334_601_228_800));
    assert_eq!(parse_timestamp("-8334601228801"), None);
    assert_eq!(parse_timestamp("1e3"), None);
    assert_eq!(parse_timestamp(""), None);
}

#[test]
fn integers_read_as_i64_from_str_reads_them() {
    for text in ["0", "+5", "-5", "007", "9223372036854775807", "-9223372036854775808", "", "-", "+", " 1", "1 ", "12a", "9223372036854775808", "-9223372036854775809", "99999999999999999999999"] {
        assert_eq!(parse_i64(text), text.parse::<i64>().ok(), "{text:?}");
    }
}

// ── Tree shapes ──────────────────────────────────────────────────────────

#[test]
fn header_takes_the_last_charset_and_title_and_folders_read_their_attributes() {
    let html = br#"<META HTTP-EQUIV="content-type" CONTENT="text/html; charset= latin1 ">
<META HTTP-EQUIV="Refresh" CONTENT="charset=ignored">
<TITLE>First</TITLE><TITLE>  Second  </TITLE><TITLE>   </TITLE>
<DL><p>
<DT><H3 PERSONAL_TOOLBAR_FOLDER="TRUE" LAST_MODIFIED="12" Data-X="y">  Bar  </H3>
<DL><p><DT><A HREF="https://a.example/" ICON="">A</A></DL><p>
<DT><H3>Later</H3>
</DL><p>"#;
    let doc = parse(html).unwrap();
    assert_eq!(doc.header.charset.as_deref(), Some("latin1"));
    assert_eq!(doc.header.title.as_deref(), Some("Second"));
    let Node::Folder(bar) = &doc.root.children[0] else { panic!("expected folder") };
    assert_eq!(bar.name, "Bar");
    assert!(bar.is_toolbar);
    assert_eq!(bar.last_modified, Some(12));
    let keys: Vec<String> = lantern::model::attrs::attr_map_entries(&bar.attrs).into_iter().map(|(k, _)| k).collect();
    assert_eq!(keys, ["personal_toolbar_folder", "last_modified", "data-x"]);
    let Node::Bookmark(a) = &bar.children[0] else { panic!("expected bookmark") };
    assert_eq!(a.icon_blob, None);
    // A folder's contents are numbered before the folder itself.
    assert!(a.id < bar.id);
    assert_eq!(doc.root.id, doc.id_gen.peek() - 1);
}

#[test]
fn separators_inside_a_bare_dt_and_descriptions_further_on() {
    let html = br#"<DL><p>
<DT><A HREF="https://a.example/">A</A>
<HR>
<DT><A HREF="https://b.example/">B</A>
<DD>   
<DT><A HREF="https://c.example/">C</A>
<DD>About C
</DL><p>"#;
    let doc = parse(html).unwrap();
    let kinds: Vec<&str> = doc
        .root
        .children
        .iter()
        .map(|n| match n {
            Node::Bookmark(_) => "bookmark",
            Node::Folder(_) => "folder",
            Node::Separator(_) => "separator",
        })
        .collect();
    assert_eq!(kinds, ["bookmark", "separator", "bookmark", "bookmark"]);
    let b = doc.root.children[2].as_bookmark().unwrap();
    assert_eq!(b.description, None, "a blank <DD> gives no description");
    let c = doc.root.children[3].as_bookmark().unwrap();
    assert_eq!(c.description.as_deref(), Some("About C"));
}

fn collect_ids(folder: &lantern::model::node::Folder, out: &mut Vec<u64>) {
    out.push(folder.id);
    for child in &folder.children {
        match child {
            Node::Folder(f) => collect_ids(f, out),
            other => out.push(other.id()),
        }
    }
}

#[test]
fn parsed_documents_have_distinct_ids_below_the_allocator() {
    let doc = parse(MINIMAL).unwrap();
    let mut ids = Vec::new();
    collect_ids(&doc.root, &mut ids);
    let mut sorted = ids.clone();
    sorted.sort_unstable();
    sorted.dedup();
    assert_eq!(sorted.len(), ids.len());
    assert!(ids.iter().all(|&id| id < doc.id_gen.peek()));
}

//! Writing a document as Netscape bookmark HTML.
//!
//! The known attributes (`HREF`, `ADD_DATE`, `LAST_MODIFIED`,
//! `PERSONAL_TOOLBAR_FOLDER`, `ICON`) come from the typed fields, so edits
//! show; every other attribute is written from the node's attribute map in
//! its order, the name upper-cased.  The text is encoded as UTF-8, after a
//! byte-order mark when the document had one.
use vstd::prelude::*;
use crate::model::attrs::attr_map_entries;
use crate::model::document::{Document, HeaderMetadata, LineEnding};
use crate::model::node::{lemma_folder_v, lemma_nodes_v, node_v, Bookmark, BookmarkV, Folder, FolderV, Node, NodeV};
use crate::sanitize::treatments::text::{decode_v, name_len, trim_whitespace, trim_ws_v};
use crate::text::{chars_of, decimal, decimal_v};
use crate::urls::pairs_view;

verus! {

broadcast use {lemma_nodes_v, lemma_folder_v};

/// How the output is laid out.
#[derive(Debug, Clone, Copy)]
pub struct EmitOptions {
    /// No indentation when set.
    pub compact: bool,
}

impl Default for EmitOptions {
    fn default() -> (r: Self)
        ensures
            !r.compact,
    {
        EmitOptions { compact: false }
    }
}

// ---------------------------------------------------------------------------
// Escaping and small pieces
// ---------------------------------------------------------------------------

pub open spec fn attr_escape_char(c: char) -> Seq<char> {
    if c == '&' {
        "&amp;"@
    } else if c == '"' {
        "&quot;"@
    } else if c == '<' {
        "&lt;"@
    } else if c == '>' {
        "&gt;"@
    } else {
        seq![c]
    }
}

/// `s` escaped for a double-quoted attribute value.
pub open spec fn escape_attr_v(s: Seq<char>) -> Seq<char>
    decreases s.len(),
{
    if s.len() == 0 { Seq::empty() } else { escape_attr_v(s.drop_last()) + attr_escape_char(s.last()) }
}

pub open spec fn text_escape_char(c: char) -> Seq<char> {
    if c == '&' {
        "&amp;"@
    } else if c == '<' {
        "&lt;"@
    } else if c == '>' {
        "&gt;"@
    } else {
        seq![c]
    }
}

/// `s` escaped for element text.
pub open spec fn escape_text_v(s: Seq<char>) -> Seq<char>
    decreases s.len(),
{
    if s.len() == 0 { Seq::empty() } else { escape_text_v(s.drop_last()) + text_escape_char(s.last()) }
}

/// Escaping one character of an attribute works from the left as well.
proof fn lemma_escape_attr_cons(c: char, t: Seq<char>)
    ensures
        escape_attr_v(seq![c] + t) == attr_escape_char(c) + escape_attr_v(t),
    decreases t.len(),
{
    let s = seq![c] + t;
    if t.len() == 0 {
        assert(s.drop_last() =~= Seq::<char>::empty());
        assert(t =~= Seq::<char>::empty());
        assert(s.last() == c);
        assert(escape_attr_v(s) == escape_attr_v(s.drop_last()) + attr_escape_char(c));
        assert(attr_escape_char(c) + Seq::<char>::empty() =~= attr_escape_char(c));
    } else {
        assert(s.drop_last() =~= seq![c] + t.drop_last());
        assert(s.last() == t.last());
        lemma_escape_attr_cons(c, t.drop_last());
        assert(escape_attr_v(s) == escape_attr_v(s.drop_last()) + attr_escape_char(s.last()));
        assert(attr_escape_char(c) + escape_attr_v(t.drop_last()) + attr_escape_char(t.last())
            =~= attr_escape_char(c) + escape_attr_v(t));
    }
}

/// Escaping one character of element text works from the left as well.
proof fn lemma_escape_text_cons(c: char, t: Seq<char>)
    ensures
        escape_text_v(seq![c] + t) == text_escape_char(c) + escape_text_v(t),
    decreases t.len(),
{
    let s = seq![c] + t;
    if t.len() == 0 {
        assert(s.drop_last() =~= Seq::<char>::empty());
        assert(t =~= Seq::<char>::empty());
        assert(s.last() == c);
        assert(escape_text_v(s) == escape_text_v(s.drop_last()) + text_escape_char(c));
        assert(text_escape_char(c) + Seq::<char>::empty() =~= text_escape_char(c));
    } else {
        assert(s.drop_last() =~= seq![c] + t.drop_last());
        assert(s.last() == t.last());
        lemma_escape_text_cons(c, t.drop_last());
        assert(escape_text_v(s) == escape_text_v(s.drop_last()) + text_escape_char(s.last()));
        assert(text_escape_char(c) + escape_text_v(t.drop_last()) + text_escape_char(t.last())
            =~= text_escape_char(c) + escape_text_v(t));
    }
}

/// Decoding a character that is not `&` keeps it.
proof fn lemma_decode_plain(c: char, x: Seq<char>)
    requires
        c != '&',
    ensures
        decode_v(seq![c] + x) == seq![c] + decode_v(x),
{
    assert((seq![c] + x).drop_first() =~= x);
}

/// Decoding `&name;`, for a name of letters that the emitter writes, gives
/// its character.
proof fn lemma_decode_entity(c: char, x: Seq<char>)
    requires
        c == '&' || c == '"' || c == '<' || c == '>',
    ensures
        decode_v(attr_escape_char(c) + x) == seq![c] + decode_v(x),
{
    let e = attr_escape_char(c);
    reveal_strlit("&amp;");
    reveal_strlit("&quot;");
    reveal_strlit("&lt;");
    reveal_strlit("&gt;");
    reveal_strlit("amp");
    reveal_strlit("quot");
    reveal_strlit("lt");
    reveal_strlit("gt");
    let s = e + x;
    let tail = s.drop_first();
    let name = e.subrange(1, e.len() - 1);
    let n = name.len() as int;
    assert(s[0] == '&');
    assert(tail =~= name + (seq![';'] + x));
    assert(name_len(tail) == n) by {
        reveal_with_fuel(name_len, 5);
        let r = seq![';'] + x;
        assert(name_len(r) == 0);
        if n == 4 {
            assert(tail.drop_first().drop_first().drop_first().drop_first() =~= r);
        } else if n == 3 {
            assert(tail.drop_first().drop_first().drop_first() =~= r);
        } else {
            assert(tail.drop_first().drop_first() =~= r);
        }
    }
    assert(tail[n] == ';');
    assert(tail.take(n) =~= name);
    assert(tail.skip(n + 1) =~= x);
    if c == '&' {
        assert(name =~= "amp"@);
    } else if c == '"' {
        assert(name =~= "quot"@);
    } else if c == '<' {
        assert(name =~= "lt"@);
    } else {
        assert(name =~= "gt"@);
    }
}

/// Decoding entities undoes the emitter's escaping, of attribute values and
/// of element text alike.
pub proof fn decode_undoes_escape(s: Seq<char>)
    ensures
        decode_v(escape_attr_v(s)) == s,
        decode_v(escape_text_v(s)) == s,
    decreases s.len(),
{
    if s.len() > 0 {
        let c = s[0];
        let t = s.drop_first();
        assert(s =~= seq![c] + t);
        decode_undoes_escape(t);
        lemma_escape_attr_cons(c, t);
        lemma_escape_text_cons(c, t);
        if c == '&' || c == '<' || c == '>' {
            lemma_decode_entity(c, escape_attr_v(t));
            lemma_decode_entity(c, escape_text_v(t));
        } else if c == '"' {
            lemma_decode_entity(c, escape_attr_v(t));
            lemma_decode_plain(c, escape_text_v(t));
        } else {
            lemma_decode_plain(c, escape_attr_v(t));
            lemma_decode_plain(c, escape_text_v(t));
        }
    }
}

/// Four spaces per level.
pub open spec fn indent_v(depth: nat) -> Seq<char>
    decreases depth,
{
    if depth == 0 { Seq::empty() } else { indent_v((depth - 1) as nat) + "    "@ }
}

/// What starts a line at `depth`.
pub open spec fn lead_v(compact: bool, depth: nat) -> Seq<char> {
    if compact { Seq::empty() } else { indent_v(depth) }
}

pub open spec fn upper_char(c: char) -> char {
    if 'a' <= c && c <= 'z' { (((c as u32) - 32) as u8) as char } else { c }
}

/// ASCII letters upper-cased.
pub open spec fn ascii_upper_v(s: Seq<char>) -> Seq<char> {
    s.map_values(|c: char| upper_char(c))
}

/// The decimal text of a signed integer.
pub open spec fn signed_decimal_v(n: int) -> Seq<char> {
    if n < 0 { "-"@ + decimal_v((-n) as nat) } else { decimal_v(n as nat) }
}

/// ` NAME="value"`.
pub open spec fn attr_v(name: Seq<char>, value: Seq<char>) -> Seq<char> {
    " "@ + name + "=\""@ + value + "\""@
}

/// The entries whose key is not among `known`, as attributes in order.
pub open spec fn unknown_attrs_v(es: Seq<(Seq<char>, Seq<char>)>, known: Seq<Seq<char>>) -> Seq<char>
    decreases es.len(),
{
    if es.len() == 0 {
        Seq::empty()
    } else {
        let rest = unknown_attrs_v(es.drop_last(), known);
        let e = es.last();
        if known.contains(e.0) { rest } else { rest + attr_v(ascii_upper_v(e.0), escape_attr_v(e.1)) }
    }
}

pub open spec fn date_attr_v(name: Seq<char>, d: Option<i64>) -> Seq<char> {
    match d {
        Some(t) => attr_v(name, signed_decimal_v(t as int)),
        None => Seq::empty(),
    }
}

pub open spec fn h3_known() -> Seq<Seq<char>> {
    seq!["add_date"@, "last_modified"@, "personal_toolbar_folder"@]
}

pub open spec fn a_known() -> Seq<Seq<char>> {
    seq!["href"@, "add_date"@, "last_modified"@, "icon"@]
}

/// The attributes of a folder's `<H3>`.
pub open spec fn h3_attrs_v(f: FolderV) -> Seq<char> {
    date_attr_v("ADD_DATE"@, f.add_date) + date_attr_v("LAST_MODIFIED"@, f.last_modified) + (if f.is_toolbar {
        " PERSONAL_TOOLBAR_FOLDER=\"true\""@
    } else {
        Seq::empty()
    }) + unknown_attrs_v(f.attrs, h3_known())
}

/// The attributes of a bookmark's `<A>`.
pub open spec fn a_attrs_v(b: BookmarkV) -> Seq<char> {
    attr_v("HREF"@, escape_attr_v(b.url.text())) + date_attr_v("ADD_DATE"@, b.add_date) + date_attr_v(
        "LAST_MODIFIED"@,
        b.last_modified,
    ) + (match b.icon_blob {
        Some(i) => attr_v("ICON"@, escape_attr_v(i)),
        None => Seq::empty(),
    }) + unknown_attrs_v(b.attrs, a_known())
}

/// The `<DD>` line of a bookmark with a description that is not blank.
pub open spec fn description_v(b: BookmarkV, depth: nat, compact: bool, le: Seq<char>) -> Seq<char> {
    match b.description {
        Some(d) => if trim_ws_v(d).len() > 0 {
            lead_v(compact, depth) + "<DD>"@ + escape_text_v(trim_ws_v(d)) + le
        } else {
            Seq::empty()
        },
        None => Seq::empty(),
    }
}

/// The lines of one node at `depth`, a folder with its contents.
pub open spec fn node_out_v(n: NodeV, depth: nat, compact: bool, le: Seq<char>) -> Seq<char>
    decreases n,
{
    let lead = lead_v(compact, depth);
    match n {
        NodeV::Folder(f) => lead + "<DT><H3"@ + h3_attrs_v(f) + ">"@ + escape_text_v(f.name) + "</H3>"@ + le + lead
            + "<DL><p>"@ + le + contents_v(f.children, depth + 1, compact, le) + lead + "</DL><p>"@ + le,
        NodeV::Bookmark(b) => lead + "<DT><A"@ + a_attrs_v(b) + ">"@ + escape_text_v(b.title) + "</A>"@ + le
            + description_v(b, depth, compact, le),
        NodeV::Separator(_) => lead + "<HR>"@ + le,
    }
}

/// The lines of the nodes `ns` at `depth`, in order.
pub open spec fn contents_v(ns: Seq<NodeV>, depth: nat, compact: bool, le: Seq<char>) -> Seq<char>
    decreases ns,
{
    if ns.len() == 0 {
        Seq::empty()
    } else {
        contents_v(ns.subrange(0, ns.len() - 1), depth, compact, le) + node_out_v(ns[ns.len() - 1], depth, compact, le)
    }
}

/// ` NAME="t"` for a date `t`, nothing without one.
pub open spec fn stamp_text(name: Seq<char>, d: Option<i64>) -> Seq<char> {
    match d {
        Some(t) => " "@ + name + "=\""@ + signed_decimal_v(t as int) + "\""@,
        None => Seq::empty(),
    }
}

/// A folder's line starts `<DT><H3`, then its `ADD_DATE` and its
/// `LAST_MODIFIED` when it has them, each with the date written out: an
/// export keeps both dates of every folder.
pub proof fn folder_line_carries_its_dates(f: FolderV, depth: nat, compact: bool, le: Seq<char>)
    ensures
        ({
            let head = lead_v(compact, depth) + "<DT><H3"@ + stamp_text("ADD_DATE"@, f.add_date) + stamp_text(
                "LAST_MODIFIED"@,
                f.last_modified,
            );
            node_out_v(NodeV::Folder(f), depth, compact, le).take(head.len() as int) == head
        }),
{
    let head = lead_v(compact, depth) + "<DT><H3"@ + stamp_text("ADD_DATE"@, f.add_date) + stamp_text(
        "LAST_MODIFIED"@,
        f.last_modified,
    );
    let out = node_out_v(NodeV::Folder(f), depth, compact, le);
    assert(date_attr_v("ADD_DATE"@, f.add_date) =~= stamp_text("ADD_DATE"@, f.add_date));
    assert(date_attr_v("LAST_MODIFIED"@, f.last_modified) =~= stamp_text("LAST_MODIFIED"@, f.last_modified));
    let rest = (if f.is_toolbar {
        " PERSONAL_TOOLBAR_FOLDER=\"true\""@
    } else {
        Seq::empty()
    }) + unknown_attrs_v(f.attrs, h3_known()) + ">"@ + escape_text_v(f.name) + "</H3>"@ + le + lead_v(compact, depth)
        + "<DL><p>"@ + le + contents_v(f.children, depth + 1, compact, le) + lead_v(compact, depth) + "</DL><p>"@ + le;
    assert(out =~= head + rest);
    assert((head + rest).take(head.len() as int) =~= head);
}

/// A bookmark's line starts `<DT><A` and ` HREF="…"` with its escaped URL, then
/// its `ADD_DATE` and `LAST_MODIFIED` when it has them, then its `ICON`
/// when it has one: an export keeps a bookmark's dates and favicon.
pub proof fn bookmark_line_carries_its_url_dates_and_icon(b: BookmarkV, depth: nat, compact: bool, le: Seq<char>)
    ensures
        ({
            let head = lead_v(compact, depth) + "<DT><A"@ + attr_v("HREF"@, escape_attr_v(b.url.text())) + stamp_text(
                "ADD_DATE"@,
                b.add_date,
            ) + stamp_text("LAST_MODIFIED"@, b.last_modified) + match b.icon_blob {
                Some(i) => attr_v("ICON"@, escape_attr_v(i)),
                None => Seq::empty(),
            };
            node_out_v(NodeV::Bookmark(b), depth, compact, le).take(head.len() as int) == head
        }),
{
    let icon = match b.icon_blob {
        Some(i) => attr_v("ICON"@, escape_attr_v(i)),
        None => Seq::empty(),
    };
    let head = lead_v(compact, depth) + "<DT><A"@ + attr_v("HREF"@, escape_attr_v(b.url.text())) + stamp_text(
        "ADD_DATE"@,
        b.add_date,
    ) + stamp_text("LAST_MODIFIED"@, b.last_modified) + icon;
    let out = node_out_v(NodeV::Bookmark(b), depth, compact, le);
    assert(date_attr_v("ADD_DATE"@, b.add_date) =~= stamp_text("ADD_DATE"@, b.add_date));
    assert(date_attr_v("LAST_MODIFIED"@, b.last_modified) =~= stamp_text("LAST_MODIFIED"@, b.last_modified));
    let rest = unknown_attrs_v(b.attrs, a_known()) + ">"@ + escape_text_v(b.title) + "</A>"@ + le + description_v(
        b,
        depth,
        compact,
        le,
    );
    assert(out =~= head + rest);
    assert((head + rest).take(head.len() as int) =~= head);
}

pub open spec fn opt_or(o: Option<String>, d: Seq<char>) -> Seq<char> {
    match o {
        Some(s) => s@,
        None => d,
    }
}

/// The lines before the root's entries.
pub open spec fn header_v(h: HeaderMetadata, le: Seq<char>) -> Seq<char> {
    let charset = opt_or(h.charset, "UTF-8"@);
    let title = opt_or(h.title, "Bookmarks"@);
    "<!DOCTYPE NETSCAPE-Bookmark-file-1>"@ + le + "<META HTTP-EQUIV=\"Content-Type\" CONTENT=\"text/html; charset="@
        + escape_attr_v(charset) + "\">"@ + le + "<TITLE>"@ + escape_text_v(title) + "</TITLE>"@ + le + "<H1>"@
        + escape_text_v(title) + "</H1>"@ + le + "<DL><p>"@ + le
}

pub open spec fn line_end_v(e: LineEnding) -> Seq<char> {
    match e {
        LineEnding::Crlf => "\r\n"@,
        LineEnding::Lf => "\n"@,
    }
}

/// The document as text.
pub open spec fn emit_text_v(doc: Document, compact: bool) -> Seq<char> {
    let le = line_end_v(doc.header.line_ending);
    header_v(doc.header, le) + contents_v(doc.root@.children, 1, compact, le) + "</DL><p>"@ + le
}

// ---------------------------------------------------------------------------
// UTF-8
// ---------------------------------------------------------------------------

/// The UTF-8 encoding of one character.
pub open spec fn utf8_char(c: char) -> Seq<u8> {
    let n = c as int;
    if n < 0x80 {
        seq![n as u8]
    } else if n < 0x800 {
        seq![(0xC0 + n / 64) as u8, (0x80 + n % 64) as u8]
    } else if n < 0x10000 {
        seq![(0xE0 + n / 4096) as u8, (0x80 + (n / 64) % 64) as u8, (0x80 + n % 64) as u8]
    } else {
        seq![
            (0xF0 + n / 262144) as u8,
            (0x80 + (n / 4096) % 64) as u8,
            (0x80 + (n / 64) % 64) as u8,
            (0x80 + n % 64) as u8,
        ]
    }
}

/// The UTF-8 encoding of a text.
pub open spec fn utf8_v(s: Seq<char>) -> Seq<u8>
    decreases s.len(),
{
    if s.len() == 0 { Seq::empty() } else { utf8_v(s.drop_last()) + utf8_char(s.last()) }
}

/// The bytes of the document's file: a byte-order mark when the document
/// had one, then the UTF-8 text.
pub open spec fn emit_v(doc: Document, compact: bool) -> Seq<u8> {
    (if doc.header.has_bom { seq![0xEFu8, 0xBBu8, 0xBFu8] } else { Seq::empty() }) + utf8_v(emit_text_v(doc, compact))
}

// ---------------------------------------------------------------------------
// Writing
// ---------------------------------------------------------------------------

fn escape_attr(s: &str) -> (r: String)
    ensures
        r@ == escape_attr_v(s@),
{
    let cs = chars_of(s);
    let mut out = String::new();
    let mut i: usize = 0;
    proof {
        assert(s@.take(0) =~= Seq::<char>::empty());
    }
    while i < cs.len()
        invariant
            cs@ == s@,
            i <= cs.len(),
            out@ == escape_attr_v(s@.take(i as int)),
        decreases cs.len() - i,
    {
        proof {
            assert(s@.take(i + 1).drop_last() =~= s@.take(i as int));
        }
        let c = cs[i];
        if c == '&' {
            out.append("&amp;");
        } else if c == '"' {
            out.append("&quot;");
        } else if c == '<' {
            out.append("&lt;");
        } else if c == '>' {
            out.append("&gt;");
        } else {
            let one = crate::text::string_between(&cs, i, i + 1);
            proof {
                assert(one@ =~= seq![c]);
            }
            out.append(one.as_str());
        }
        i += 1;
    }
    proof {
        assert(s@.take(s@.len() as int) =~= s@);
    }
    out
}

fn escape_text(s: &str) -> (r: String)
    ensures
        r@ == escape_text_v(s@),
{
    let cs = chars_of(s);
    let mut out = String::new();
    let mut i: usize = 0;
    proof {
        assert(s@.take(0) =~= Seq::<char>::empty());
    }
    while i < cs.len()
        invariant
            cs@ == s@,
            i <= cs.len(),
            out@ == escape_text_v(s@.take(i as int)),
        decreases cs.len() - i,
    {
        proof {
            assert(s@.take(i + 1).drop_last() =~= s@.take(i as int));
        }
        let c = cs[i];
        if c == '&' {
            out.append("&amp;");
        } else if c == '<' {
            out.append("&lt;");
        } else if c == '>' {
            out.append("&gt;");
        } else {
            let one = crate::text::string_between(&cs, i, i + 1);
            proof {
                assert(one@ =~= seq![c]);
            }
            out.append(one.as_str());
        }
        i += 1;
    }
    proof {
        assert(s@.take(s@.len() as int) =~= s@);
    }
    out
}

fn ascii_upper(s: &str) -> (r: String)
    ensures
        r@ == ascii_upper_v(s@),
{
    let cs = chars_of(s);
    let mut out: Vec<char> = Vec::new();
    let mut i: usize = 0;
    while i < cs.len()
        invariant
            cs@ == s@,
            i <= cs.len(),
            out@ == ascii_upper_v(s@).take(i as int),
        decreases cs.len() - i,
    {
        let c = cs[i];
        let u = if 'a' <= c && c <= 'z' { (((c as u32) - 32) as u8) as char } else { c };
        proof {
            assert(ascii_upper_v(s@).take(i + 1) =~= ascii_upper_v(s@).take(i as int).push(u));
        }
        out.push(u);
        i += 1;
    }
    proof {
        assert(ascii_upper_v(s@).take(s@.len() as int) =~= ascii_upper_v(s@));
    }
    crate::text::string_of(&out)
}

fn signed_decimal(n: i64) -> (r: String)
    ensures
        r@ == signed_decimal_v(n as int),
{
    if n < 0 {
        let m: u64 = ((-(n + 1)) as u64) + 1;
        let mut out = "-".to_owned();
        out.append(decimal(m).as_str());
        out
    } else {
        decimal(n as u64)
    }
}

fn push_attr(buf: &mut String, name: &str, value: &str)
    ensures
        final(buf)@ == old(buf)@ + attr_v(name@, value@),
{
    buf.append(" ");
    buf.append(name);
    buf.append("=\"");
    buf.append(value);
    buf.append("\"");
}

fn push_date(buf: &mut String, name: &str, d: Option<i64>)
    ensures
        final(buf)@ == old(buf)@ + date_attr_v(name@, d),
{
    if let Some(t) = d {
        let v = signed_decimal(t);
        push_attr(buf, name, v.as_str());
    } else {
        proof {
            assert(old(buf)@ + Seq::<char>::empty() =~= old(buf)@);
        }
    }
}

fn is_known(k: &str, h3: bool) -> (r: bool)
    ensures
        r == (if h3 { h3_known() } else { a_known() }).contains(k@),
{
    let ghost ks = if h3 { h3_known() } else { a_known() };
    let r = if h3 {
        crate::text::same_text(k, "add_date") || crate::text::same_text(k, "last_modified") || crate::text::same_text(
            k,
            "personal_toolbar_folder",
        )
    } else {
        crate::text::same_text(k, "href") || crate::text::same_text(k, "add_date") || crate::text::same_text(
            k,
            "last_modified",
        ) || crate::text::same_text(k, "icon")
    };
    proof {
        if r {
            if h3 {
                if k@ == "add_date"@ {
                    assert(ks[0] == k@);
                } else if k@ == "last_modified"@ {
                    assert(ks[1] == k@);
                } else {
                    assert(ks[2] == k@);
                }
            } else {
                if k@ == "href"@ {
                    assert(ks[0] == k@);
                } else if k@ == "add_date"@ {
                    assert(ks[1] == k@);
                } else if k@ == "last_modified"@ {
                    assert(ks[2] == k@);
                } else {
                    assert(ks[3] == k@);
                }
            }
        }
    }
    r
}

fn push_unknown_attrs(buf: &mut String, es: &Vec<(String, String)>, h3: bool)
    ensures
        final(buf)@ == old(buf)@ + unknown_attrs_v(pairs_view(es@), if h3 { h3_known() } else { a_known() }),
{
    let ghost ks = if h3 { h3_known() } else { a_known() };
    let ghost ev = pairs_view(es@);
    let ghost start = buf@;
    let mut i: usize = 0;
    proof {
        assert(ev.take(0) =~= Seq::<(Seq<char>, Seq<char>)>::empty());
        assert(start + Seq::<char>::empty() =~= start);
    }
    while i < es.len()
        invariant
            ev == pairs_view(es@),
            ks == (if h3 { h3_known() } else { a_known() }),
            i <= es.len(),
            buf@ == start + unknown_attrs_v(ev.take(i as int), ks),
        decreases es.len() - i,
    {
        proof {
            assert(ev.take(i + 1).drop_last() =~= ev.take(i as int));
            assert(ev.take(i + 1).last() == (es@[i as int].0@, es@[i as int].1@));
        }
        if !is_known(es[i].0.as_str(), h3) {
            let name = ascii_upper(es[i].0.as_str());
            let value = escape_attr(es[i].1.as_str());
            let ghost before = buf@;
            push_attr(buf, name.as_str(), value.as_str());
            proof {
                assert(buf@ =~= start + unknown_attrs_v(ev.take(i + 1), ks));
            }
        }
        i += 1;
    }
    proof {
        assert(ev.take(es.len() as int) =~= ev);
    }
}

fn push_h3_attrs(buf: &mut String, f: &Folder)
    ensures
        final(buf)@ == old(buf)@ + h3_attrs_v(f@),
{
    let ghost start = buf@;
    push_date(buf, "ADD_DATE", f.add_date);
    push_date(buf, "LAST_MODIFIED", f.last_modified);
    let ghost mid = buf@;
    if f.is_toolbar {
        buf.append(" PERSONAL_TOOLBAR_FOLDER=\"true\"");
    } else {
        proof {
            assert(mid + Seq::<char>::empty() =~= mid);
        }
    }
    let es = attr_map_entries(&f.attrs);
    push_unknown_attrs(buf, &es, true);
    proof {
        assert(buf@ =~= start + h3_attrs_v(f@));
    }
}

fn push_a_attrs(buf: &mut String, b: &Bookmark)
    ensures
        final(buf)@ == old(buf)@ + a_attrs_v(b@),
{
    let ghost start = buf@;
    let href = escape_attr(b.url.as_str());
    push_attr(buf, "HREF", href.as_str());
    push_date(buf, "ADD_DATE", b.add_date);
    push_date(buf, "LAST_MODIFIED", b.last_modified);
    let ghost mid = buf@;
    match &b.icon_blob {
        Some(i) => {
            let v = escape_attr(i.as_str());
            push_attr(buf, "ICON", v.as_str());
        },
        None => {
            proof {
                assert(mid + Seq::<char>::empty() =~= mid);
            }
        },
    }
    let es = attr_map_entries(&b.attrs);
    push_unknown_attrs(buf, &es, false);
    proof {
        assert(buf@ =~= start + a_attrs_v(b@));
    }
}

fn push_lead(buf: &mut String, compact: bool, indent: &str, Ghost(depth): Ghost<nat>)
    requires
        indent@ == indent_v(depth),
    ensures
        final(buf)@ == old(buf)@ + lead_v(compact, depth),
{
    if !compact {
        buf.append(indent);
    } else {
        proof {
            assert(old(buf)@ + Seq::<char>::empty() =~= old(buf)@);
        }
    }
}

fn push_folder_head(buf: &mut String, f: &Folder, compact: bool, indent: &str, le: &str, Ghost(depth): Ghost<nat>)
    requires
        indent@ == indent_v(depth),
    ensures
        final(buf)@ == old(buf)@ + lead_v(compact, depth) + "<DT><H3"@ + h3_attrs_v(f@) + ">"@ + escape_text_v(f@.name)
            + "</H3>"@ + le@ + lead_v(compact, depth) + "<DL><p>"@ + le@,
{
    let ghost before = buf@;
    push_lead(buf, compact, indent, Ghost(depth));
    buf.append("<DT><H3");
    push_h3_attrs(buf, f);
    buf.append(">");
    let name = escape_text(f.name.as_str());
    buf.append(name.as_str());
    buf.append("</H3>");
    buf.append(le);
    push_lead(buf, compact, indent, Ghost(depth));
    buf.append("<DL><p>");
    buf.append(le);
    proof {
        assert(buf@ =~= before + lead_v(compact, depth) + "<DT><H3"@ + h3_attrs_v(f@) + ">"@ + escape_text_v(f@.name)
            + "</H3>"@ + le@ + lead_v(compact, depth) + "<DL><p>"@ + le@);
    }
}

fn push_folder_tail(buf: &mut String, compact: bool, indent: &str, le: &str, Ghost(depth): Ghost<nat>)
    requires
        indent@ == indent_v(depth),
    ensures
        final(buf)@ == old(buf)@ + lead_v(compact, depth) + "</DL><p>"@ + le@,
{
    let ghost before = buf@;
    push_lead(buf, compact, indent, Ghost(depth));
    buf.append("</DL><p>");
    buf.append(le);
    proof {
        assert(buf@ =~= before + lead_v(compact, depth) + "</DL><p>"@ + le@);
    }
}

fn push_bookmark_item(buf: &mut String, b: &Bookmark, compact: bool, indent: &str, le: &str, Ghost(depth): Ghost<nat>)
    requires
        indent@ == indent_v(depth),
    ensures
        final(buf)@ == old(buf)@ + lead_v(compact, depth) + "<DT><A"@ + a_attrs_v(b@) + ">"@ + escape_text_v(b@.title)
            + "</A>"@ + le@ + description_v(b@, depth, compact, le@),
{
    let ghost before = buf@;
    push_lead(buf, compact, indent, Ghost(depth));
    buf.append("<DT><A");
    push_a_attrs(buf, b);
    buf.append(">");
    let title = escape_text(b.title.as_str());
    buf.append(title.as_str());
    buf.append("</A>");
    buf.append(le);
    let ghost mid = buf@;
    match &b.description {
        Some(d) => {
            let t = trim_whitespace(d.as_str());
            if chars_of(t.as_str()).len() > 0 {
                push_lead(buf, compact, indent, Ghost(depth));
                buf.append("<DD>");
                let e = escape_text(t.as_str());
                buf.append(e.as_str());
                buf.append(le);
            } else {
                proof {
                    assert(mid + Seq::<char>::empty() =~= mid);
                }
            }
        },
        None => {
            proof {
                assert(mid + Seq::<char>::empty() =~= mid);
            }
        },
    }
    proof {
        assert(buf@ =~= before + lead_v(compact, depth) + "<DT><A"@ + a_attrs_v(b@) + ">"@ + escape_text_v(b@.title)
            + "</A>"@ + le@ + description_v(b@, depth, compact, le@));
    }
}

proof fn lemma_contents_step(
    cs: Seq<NodeV>,
    i: int,
    depth: nat,
    compact: bool,
    le: Seq<char>,
    start: Seq<char>,
    before: Seq<char>,
    after: Seq<char>,
)
    requires
        0 <= i < cs.len(),
        before == start + contents_v(cs.subrange(0, i), depth, compact, le),
        after == before + node_out_v(cs[i], depth, compact, le),
    ensures
        after == start + contents_v(cs.subrange(0, i + 1), depth, compact, le),
{
    assert(cs.subrange(0, i + 1).subrange(0, i) =~= cs.subrange(0, i));
    assert(after =~= start + contents_v(cs.subrange(0, i + 1), depth, compact, le));
}

proof fn lemma_folder_out(f: FolderV, depth: nat, compact: bool, le: Seq<char>, before: Seq<char>, head: Seq<char>, mid: Seq<char>, after: Seq<char>)
    requires
        head == before + lead_v(compact, depth) + "<DT><H3"@ + h3_attrs_v(f) + ">"@ + escape_text_v(f.name) + "</H3>"@ + le
            + lead_v(compact, depth) + "<DL><p>"@ + le,
        mid == head + contents_v(f.children, depth + 1, compact, le),
        after == mid + lead_v(compact, depth) + "</DL><p>"@ + le,
    ensures
        after == before + node_out_v(NodeV::Folder(f), depth, compact, le),
{
    assert(after =~= before + node_out_v(NodeV::Folder(f), depth, compact, le));
}

proof fn lemma_separator_out(n: NodeV, depth: nat, compact: bool, le: Seq<char>, before: Seq<char>, after: Seq<char>)
    requires
        n is Separator,
        after == before + lead_v(compact, depth) + "<HR>"@ + le,
    ensures
        after == before + node_out_v(n, depth, compact, le),
{
    assert(after =~= before + node_out_v(n, depth, compact, le));
}

proof fn lemma_bookmark_out(b: BookmarkV, depth: nat, compact: bool, le: Seq<char>, before: Seq<char>, after: Seq<char>)
    requires
        after == before + lead_v(compact, depth) + "<DT><A"@ + a_attrs_v(b) + ">"@ + escape_text_v(b.title) + "</A>"@ + le
            + description_v(b, depth, compact, le),
    ensures
        after == before + node_out_v(NodeV::Bookmark(b), depth, compact, le),
{
    assert(after =~= before + node_out_v(NodeV::Bookmark(b), depth, compact, le));
}

#[verifier::spinoff_prover]
fn push_node(buf: &mut String, n: &Node, compact: bool, indent: &str, le: &str, Ghost(depth): Ghost<nat>)
    requires
        indent@ == indent_v(depth),
    ensures
        final(buf)@ == old(buf)@ + node_out_v(n@, depth, compact, le@),
    decreases n,
{
    let ghost before = buf@;
    match n {
        Node::Folder(f) => {
            push_folder_head(buf, f, compact, indent, le, Ghost(depth));
            let ghost head = buf@;
            let mut sub = indent.to_owned();
            sub.append("    ");
            push_contents(buf, f, compact, sub.as_str(), le, Ghost(depth + 1));
            let ghost mid = buf@;
            push_folder_tail(buf, compact, indent, le, Ghost(depth));
            proof {
                lemma_folder_out(f@, depth, compact, le@, before, head, mid, buf@);
            }
        },
        Node::Bookmark(b) => {
            push_bookmark_item(buf, b, compact, indent, le, Ghost(depth));
            proof {
                lemma_bookmark_out(b@, depth, compact, le@, before, buf@);
            }
        },
        Node::Separator(_) => {
            push_lead(buf, compact, indent, Ghost(depth));
            let ghost l = buf@;
            buf.append("<HR>");
            buf.append(le);
            proof {
                assert(buf@ =~= before + lead_v(compact, depth) + "<HR>"@ + le@);
                lemma_separator_out(n@, depth, compact, le@, before, buf@);
            }
        },
    }
}

fn push_contents(buf: &mut String, folder: &Folder, compact: bool, indent: &str, le: &str, Ghost(depth): Ghost<nat>)
    requires
        indent@ == indent_v(depth),
    ensures
        final(buf)@ == old(buf)@ + contents_v(folder@.children, depth, compact, le@),
    decreases folder,
{
    let ghost cs = folder@.children;
    let ghost start = buf@;
    let mut i: usize = 0;
    proof {
        assert(cs.subrange(0, 0) =~= Seq::<NodeV>::empty());
        assert(start + contents_v(cs.subrange(0, 0), depth, compact, le@) =~= start);
    }
    while i < folder.children.len()
        invariant
            cs == folder@.children,
            indent@ == indent_v(depth),
            i <= folder.children.len(),
            buf@ == start + contents_v(cs.subrange(0, i as int), depth, compact, le@),
        decreases folder.children.len() - i,
    {
        let ghost before = buf@;
        proof {
            assert(cs[i as int] == node_v(folder.children@[i as int]));
            assert(decreases_to!(folder => folder.children));
            assert(decreases_to!(folder.children => folder.children@));
            assert(decreases_to!(folder.children@ => folder.children@[i as int]));
        }
        push_node(buf, &folder.children[i], compact, indent, le, Ghost(depth));
        proof {
            lemma_contents_step(cs, i as int, depth, compact, le@, start, before, buf@);
        }
        i += 1;
    }
    proof {
        assert(cs.subrange(0, cs.len() as int) =~= cs);
    }
}

fn push_utf8(out: &mut Vec<u8>, c: char)
    ensures
        final(out)@ == old(out)@ + utf8_char(c),
{
    let n = c as u32;
    if n < 0x80 {
        out.push(n as u8);
    } else if n < 0x800 {
        assert(n / 64 < 32) by (nonlinear_arith)
            requires
                n < 0x800,
        ;
        out.push((0xC0 + n / 64) as u8);
        out.push((0x80 + n % 64) as u8);
    } else if n < 0x10000 {
        assert(n / 4096 < 16) by (nonlinear_arith)
            requires
                n < 0x10000,
        ;
        out.push((0xE0 + n / 4096) as u8);
        out.push((0x80 + (n / 64) % 64) as u8);
        out.push((0x80 + n % 64) as u8);
    } else {
        assert(n / 262144 < 8) by (nonlinear_arith)
            requires
                n <= 0x10FFFF,
        ;
        out.push((0xF0 + n / 262144) as u8);
        out.push((0x80 + (n / 4096) % 64) as u8);
        out.push((0x80 + (n / 64) % 64) as u8);
        out.push((0x80 + n % 64) as u8);
    }
    proof {
        assert(final(out)@ =~= old(out)@ + utf8_char(c));
    }
}

/// Write `doc` as Netscape bookmark HTML: the bytes of the file.
pub fn emit(doc: &Document, opts: &EmitOptions) -> (r: Vec<u8>)
    ensures
        r@ == emit_v(*doc, opts.compact),
{
    let le = match doc.header.line_ending {
        LineEnding::Crlf => "\r\n",
        LineEnding::Lf => "\n",
    };
    let mut buf = String::new();
    buf.append("<!DOCTYPE NETSCAPE-Bookmark-file-1>");
    buf.append(le);
    buf.append("<META HTTP-EQUIV=\"Content-Type\" CONTENT=\"text/html; charset=");
    let charset = match &doc.header.charset {
        Some(c) => escape_attr(c.as_str()),
        None => escape_attr("UTF-8"),
    };
    buf.append(charset.as_str());
    buf.append("\">");
    buf.append(le);
    let title = match &doc.header.title {
        Some(t) => escape_text(t.as_str()),
        None => escape_text("Bookmarks"),
    };
    buf.append("<TITLE>");
    buf.append(title.as_str());
    buf.append("</TITLE>");
    buf.append(le);
    buf.append("<H1>");
    buf.append(title.as_str());
    buf.append("</H1>");
    buf.append(le);
    buf.append("<DL><p>");
    buf.append(le);
    proof {
        assert(buf@ =~= header_v(doc.header, le@));
        reveal_strlit("    ");
    }
    let indent = "    ";
    proof {
        assert(indent_v(1) =~= indent_v(0) + "    "@);
    }
    push_contents(&mut buf, &doc.root, opts.compact, indent, le, Ghost(1));
    buf.append("</DL><p>");
    buf.append(le);
    proof {
        assert(buf@ =~= emit_text_v(*doc, opts.compact));
    }
    let cs = chars_of(buf.as_str());
    let mut out: Vec<u8> = Vec::new();
    if doc.header.has_bom {
        out.push(0xEF);
        out.push(0xBB);
        out.push(0xBF);
    }
    let ghost bom = out@;
    let mut i: usize = 0;
    proof {
        assert(cs@.take(0) =~= Seq::<char>::empty());
        assert(bom + utf8_v(cs@.take(0)) =~= bom);
    }
    while i < cs.len()
        invariant
            i <= cs.len(),
            out@ == bom + utf8_v(cs@.take(i as int)),
        decreases cs.len() - i,
    {
        proof {
            assert(cs@.take(i + 1).drop_last() =~= cs@.take(i as int));
        }
        push_utf8(&mut out, cs[i]);
        proof {
            assert(out@ =~= bom + utf8_v(cs@.take(i + 1)));
        }
        i += 1;
    }
    proof {
        assert(cs@.take(cs.len() as int) =~= cs@);
    }
    out
}

} // verus!

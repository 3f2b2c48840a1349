//! Byte-level facts about a bookmark file read before parsing it: a UTF-8
//! byte order mark, the line-ending convention, and whether the content
//! looks like JSON (a Chrome `Bookmarks` file) or HTML.
use vstd::prelude::*;
use vstd::slice::slice_subrange;
use crate::model::document::LineEnding;

verus! {

/// The bytes start with a UTF-8 byte order mark.
pub open spec fn has_bom(b: Seq<u8>) -> bool {
    b.len() >= 3 && b[0] == 0xEF && b[1] == 0xBB && b[2] == 0xBF
}

/// The bytes after a leading byte order mark, if any.
pub open spec fn after_bom(b: Seq<u8>) -> Seq<u8> {
    if has_bom(b) { b.skip(3) } else { b }
}

/// An ASCII whitespace byte (space, tab, line feed, form feed, carriage
/// return), as `u8::is_ascii_whitespace` defines it.
pub open spec fn is_ascii_ws(c: u8) -> bool {
    c == 0x20 || c == 0x09 || c == 0x0A || c == 0x0C || c == 0x0D
}

/// The bytes without their leading ASCII whitespace.
pub open spec fn skip_ws(b: Seq<u8>) -> Seq<u8>
    decreases b.len(),
{
    if b.len() > 0 && is_ascii_ws(b[0]) { skip_ws(b.drop_first()) } else { b }
}

/// Skipping whitespace drops exactly the leading run of ASCII whitespace:
/// what is left is the bytes from the first one that is not whitespace.
pub proof fn skip_ws_drops_leading_whitespace(b: Seq<u8>)
    ensures
        exists|k: int|
            0 <= k <= b.len() && skip_ws(b) == b.skip(k) && (forall|i: int| 0 <= i < k ==> is_ascii_ws(#[trigger] b[i]))
                && (k < b.len() ==> !is_ascii_ws(b[k])),
    decreases b.len(),
{
    if b.len() > 0 && is_ascii_ws(b[0]) {
        let t = b.drop_first();
        skip_ws_drops_leading_whitespace(t);
        let k = choose|k: int|
            0 <= k <= t.len() && skip_ws(t) == t.skip(k) && (forall|i: int| 0 <= i < k ==> is_ascii_ws(#[trigger] t[i]))
                && (k < t.len() ==> !is_ascii_ws(t[k]));
        assert(t.skip(k) =~= b.skip(k + 1));
        assert forall|i: int| 0 <= i < k + 1 implies is_ascii_ws(#[trigger] b[i]) by {
            if i > 0 {
                assert(b[i] == t[i - 1]);
            }
        }
        assert(k + 1 < b.len() ==> b[k + 1] == t[k]);
    } else {
        assert(b.skip(0) =~= b);
    }
}

/// The content looks like a JSON value: `{` or `[` after a byte order mark
/// and leading ASCII whitespace.
pub open spec fn json_like(b: Seq<u8>) -> bool {
    let r = skip_ws(after_bom(b));
    r.len() > 0 && (r[0] == 0x7B || r[0] == 0x5B)
}

/// Strip a leading UTF-8 BOM if present. Returns `(had_bom, remainder)`.
pub fn strip_utf8_bom(bytes: &[u8]) -> (r: (bool, &[u8]))
    ensures
        r.0 == has_bom(bytes@),
        r.1@ == after_bom(bytes@),
{
    if bytes.len() >= 3 && bytes[0] == 0xEF && bytes[1] == 0xBB && bytes[2] == 0xBF {
        let rest = slice_subrange(bytes, 3, bytes.len());
        proof {
            assert(rest@ =~= bytes@.skip(3));
        }
        (true, rest)
    } else {
        (false, bytes)
    }
}

/// The bytes after their leading ASCII whitespace.
pub fn skip_ascii_whitespace(bytes: &[u8]) -> (r: &[u8])
    ensures
        r@ == skip_ws(bytes@),
{
    let mut i: usize = 0;
    proof {
        assert(bytes@.skip(0) =~= bytes@);
    }
    while i < bytes.len() && (bytes[i] == 0x20 || bytes[i] == 0x09 || bytes[i] == 0x0A || bytes[i] == 0x0C
        || bytes[i] == 0x0D)
        invariant
            i <= bytes.len(),
            skip_ws(bytes@) == skip_ws(bytes@.skip(i as int)),
        decreases bytes.len() - i,
    {
        proof {
            assert(bytes@.skip(i as int).drop_first() =~= bytes@.skip(i + 1));
        }
        i += 1;
    }
    let r = slice_subrange(bytes, i, bytes.len());
    proof {
        assert(r@ =~= bytes@.skip(i as int));
    }
    r
}

/// True if `bytes` look like a JSON value (`{` or `[`) after a UTF-8 BOM
/// and leading ASCII whitespace.
pub fn looks_like_json(bytes: &[u8]) -> (r: bool)
    ensures
        r == json_like(bytes@),
{
    let (_, rest) = strip_utf8_bom(bytes);
    let rest = skip_ascii_whitespace(rest);
    rest.len() > 0 && (rest[0] == 0x7B || rest[0] == 0x5B)
}

/// The file's line endings: CRLF as soon as any carriage return appears,
/// LF otherwise.
pub fn detect_line_ending(bytes: &[u8]) -> (r: LineEnding)
    ensures
        r == (if bytes@.contains(0x0Du8) { LineEnding::Crlf } else { LineEnding::Lf }),
{
    let mut i: usize = 0;
    while i < bytes.len()
        invariant
            i <= bytes.len(),
            forall|k: int| 0 <= k < i ==> bytes@[k] != 0x0Du8,
        decreases bytes.len() - i,
    {
        if bytes[i] == 0x0D {
            proof {
                assert(bytes@[i as int] == 0x0Du8);
            }
            return LineEnding::Crlf;
        }
        i += 1;
    }
    LineEnding::Lf
}

} // verus!

//! Text helpers shared by the title and folder-name treatments.
use vstd::prelude::*;
use crate::text::{chars_of, has_prefix, string_of};

verus! {

/// The Unicode `White_Space` characters (what `char::is_whitespace` and
/// `str::split_whitespace` treat as whitespace).
pub open spec fn is_ws(c: char) -> bool {
    let u = c as u32;
    ||| 0x09 <= u <= 0x0D
    ||| u == 0x20
    ||| u == 0x85
    ||| u == 0xA0
    ||| u == 0x1680
    ||| 0x2000 <= u <= 0x200A
    ||| u == 0x2028
    ||| u == 0x2029
    ||| u == 0x202F
    ||| u == 0x205F
    ||| u == 0x3000
}

/// Whether `c` is a Unicode `White_Space` character.
pub fn is_whitespace(c: char) -> (r: bool)
    ensures
        r == is_ws(c),
{
    let u = c as u32;
    (0x09 <= u && u <= 0x0D) || u == 0x20 || u == 0x85 || u == 0xA0 || u == 0x1680 || (0x2000 <= u
        && u <= 0x200A) || u == 0x2028 || u == 0x2029 || u == 0x202F || u == 0x205F || u == 0x3000
}

/// The maximal runs of non-whitespace characters of `s`, in order.
pub open spec fn words(s: Seq<char>) -> Seq<Seq<char>>
    decreases s.len(),
{
    if s.len() == 0 {
        Seq::empty()
    } else {
        let w = words(s.drop_last());
        let c = s.last();
        if is_ws(c) {
            w
        } else if s.len() > 1 && !is_ws(s[s.len() - 2]) {
            w.update(w.len() - 1, w.last().push(c))
        } else {
            w.push(seq![c])
        }
    }
}

/// The words joined by single spaces.
pub open spec fn join_spaced(ws: Seq<Seq<char>>) -> Seq<char>
    decreases ws.len(),
{
    if ws.len() == 0 {
        Seq::empty()
    } else if ws.len() == 1 {
        ws[0]
    } else {
        join_spaced(ws.drop_last()) + seq![' '] + ws.last()
    }
}

proof fn lemma_words_shape(s: Seq<char>)
    ensures
        s.len() > 0 && !is_ws(s.last()) ==> words(s).len() > 0,
        forall|k: int| 0 <= k < words(s).len() ==> #[trigger] words(s)[k].len() > 0,
    decreases s.len(),
{
    if s.len() > 0 {
        lemma_words_shape(s.drop_last());
        let w = words(s.drop_last());
        if !is_ws(s.last()) && s.len() > 1 && !is_ws(s[s.len() - 2]) {
            assert(s.drop_last().last() == s[s.len() - 2]);
        }
    }
}

proof fn lemma_join_extend(ws: Seq<Seq<char>>, c: char)
    requires
        ws.len() > 0,
    ensures
        join_spaced(ws.update(ws.len() - 1, ws.last().push(c))) == join_spaced(ws).push(c),
{
    let w2 = ws.update(ws.len() - 1, ws.last().push(c));
    if ws.len() > 1 {
        assert(w2.drop_last() =~= ws.drop_last());
    }
}

proof fn lemma_join_len(ws: Seq<Seq<char>>)
    requires
        forall|k: int| 0 <= k < ws.len() ==> #[trigger] ws[k].len() > 0,
    ensures
        (join_spaced(ws).len() == 0) == (ws.len() == 0),
    decreases ws.len(),
{
    if ws.len() > 1 {
        assert(ws.last() == ws[ws.len() - 1]);
    } else if ws.len() == 1 {
        assert(ws[0].len() > 0);
    }
}

/// Trim and collapse every run of whitespace to a single ASCII space.
pub fn normalize_whitespace(s: &str) -> (r: String)
    ensures
        r@ == join_spaced(words(s@)),
{
    let cs = chars_of(s);
    let mut out: Vec<char> = Vec::new();
    let mut prev_ws = true;
    let mut k: usize = 0;
    while k < cs.len()
        invariant
            cs@ == s@,
            k <= cs.len(),
            out@ == join_spaced(words(s@.take(k as int))),
            prev_ws == (k == 0 || is_ws(s@[k - 1])),
            (out.len() == 0) == (words(s@.take(k as int)).len() == 0),
        decreases cs.len() - k,
    {
        let c = cs[k];
        let ghost t = s@.take(k + 1);
        proof {
            assert(t.drop_last() =~= s@.take(k as int));
            assert(t.last() == c);
            if k > 0 {
                assert(t[t.len() - 2] == s@[k - 1]);
            }
            lemma_words_shape(s@.take(k as int));
            lemma_words_shape(t);
        }
        if is_whitespace(c) {
            prev_ws = true;
        } else {
            if prev_ws {
                if out.len() > 0 {
                    out.push(' ');
                }
                out.push(c);
                proof {
                    let w = words(s@.take(k as int));
                    if w.len() > 0 {
                        assert(w.push(seq![c]).drop_last() =~= w);
                        assert(join_spaced(w.push(seq![c])) == join_spaced(w) + seq![' '] + seq![c]);
                    } else {
                        assert(join_spaced(w.push(seq![c])) == seq![c]);
                    }
                }
            } else {
                proof {
                    lemma_join_extend(words(s@.take(k as int)), c);
                }
                out.push(c);
            }
            prev_ws = false;
        }
        k += 1;
        proof {
            lemma_words_shape(t);
            lemma_join_len(words(t));
        }
    }
    proof {
        assert(s@.take(cs.len() as int) =~= s@);
    }
    string_of(out.as_slice())
}

// ---------------------------------------------------------------------------
// HTML entities
// ---------------------------------------------------------------------------

/// An ASCII letter or digit.
pub open spec fn is_ascii_alnum(c: char) -> bool {
    ('0' <= c && c <= '9') || ('a' <= c && c <= 'z') || ('A' <= c && c <= 'Z')
}

/// How many leading characters of `s` can belong to an entity name (ASCII
/// letters, digits and `#`).
pub open spec fn name_len(s: Seq<char>) -> nat
    decreases s.len(),
{
    if s.len() > 0 && (is_ascii_alnum(s[0]) || s[0] == '#') {
        1 + name_len(s.drop_first())
    } else {
        0
    }
}

/// The value of a digit in `radix` (10 or 16), if it is one.
pub open spec fn digit_value(c: char, radix: nat) -> Option<nat> {
    if '0' <= c && c <= '9' {
        Some((c as u32 - '0' as u32) as nat)
    } else if radix == 16 && 'a' <= c && c <= 'f' {
        Some((c as u32 - 'a' as u32 + 10) as nat)
    } else if radix == 16 && 'A' <= c && c <= 'F' {
        Some((c as u32 - 'A' as u32 + 10) as nat)
    } else {
        None
    }
}

/// The number that the digits `s` write in `radix`: `None` when `s` is
/// empty or holds a non-digit.
pub open spec fn number_value(s: Seq<char>, radix: nat) -> Option<nat>
    decreases s.len(),
{
    if s.len() == 0 {
        None
    } else {
        match digit_value(s.last(), radix) {
            None => None,
            Some(d) => if s.len() == 1 {
                Some(d)
            } else {
                match number_value(s.drop_last(), radix) {
                    None => None,
                    Some(v) => Some(v * radix + d),
                }
            },
        }
    }
}

/// A `u32` that is a Unicode scalar value.
pub open spec fn is_scalar(v: nat) -> bool {
    v < 0xD800 || (0xE000 <= v && v <= 0x10FFFF)
}

/// The character a numeric entity (`#` followed by decimal digits, or by
/// `x` / `X` and hex digits) names.
pub open spec fn numeric_entity(name: Seq<char>) -> Option<char> {
    if name.len() == 0 || name[0] != '#' {
        None
    } else {
        let number = name.drop_first();
        let v = if number.len() > 0 && (number[0] == 'x' || number[0] == 'X') {
            number_value(number.drop_first(), 16)
        } else {
            number_value(number, 10)
        };
        match v {
            Some(x) => if x <= u32::MAX && is_scalar(x) { Some(x as char) } else { None },
            None => None,
        }
    }
}

/// The named entities that browsers write into bookmark exports.
pub open spec fn named_entity(name: Seq<char>) -> Option<char> {
    if name == "amp"@ { Some('&') }
    else if name == "lt"@ { Some('<') }
    else if name == "gt"@ { Some('>') }
    else if name == "quot"@ { Some('"') }
    else if name == "apos"@ { Some('\'') }
    else if name == "nbsp"@ { Some(' ') }
    else if name == "copy"@ { Some('©') }
    else if name == "reg"@ { Some('®') }
    else if name == "trade"@ { Some('™') }
    else if name == "mdash"@ { Some('—') }
    else if name == "ndash"@ { Some('–') }
    else if name == "lsquo"@ { Some('\u{2018}') }
    else if name == "rsquo"@ { Some('\u{2019}') }
    else if name == "ldquo"@ { Some('\u{201C}') }
    else if name == "rdquo"@ { Some('\u{201D}') }
    else { None }
}

/// The character for entity `name` (the text between `&` and `;`).
pub open spec fn entity_char(name: Seq<char>) -> Option<char> {
    match named_entity(name) {
        Some(c) => Some(c),
        None => numeric_entity(name),
    }
}

/// `s` with every well-formed, known entity decoded, scanning left to
/// right; anything else, a stray `&` included, is kept as it was.
pub open spec fn decode_v(s: Seq<char>) -> Seq<char>
    decreases s.len(),
{
    if s.len() == 0 {
        Seq::empty()
    } else if s[0] != '&' {
        seq![s[0]] + decode_v(s.drop_first())
    } else {
        let tail = s.drop_first();
        let n = name_len(tail) as int;
        if n < tail.len() && tail[n] == ';' && entity_char(tail.take(n)) is Some {
            seq![entity_char(tail.take(n))->0] + decode_v(tail.skip(n + 1))
        } else {
            seq!['&'] + decode_v(tail)
        }
    }
}

/// `v` saturated at `2^32`: itself when it fits a `u32`.
pub open spec fn sat32(v: nat) -> nat {
    if v <= u32::MAX { v } else { 0x1_0000_0000 }
}

proof fn lemma_sat_step(v: nat, r: nat, d: nat)
    requires
        r >= 1,
    ensures
        sat32(v * r + d) == sat32(sat32(v) * r + d),
{
    if v > u32::MAX {
        assert(v * r >= v) by (nonlinear_arith)
            requires
                r >= 1,
        ;
        assert(0x1_0000_0000 * r >= 0x1_0000_0000) by (nonlinear_arith)
            requires
                r >= 1,
        ;
    }
}

/// Calls `char::from_u32`, which gives the character with that code when
/// the code is a Unicode scalar value, and `None` otherwise (as its
/// documentation states).
#[verifier::external_body]
pub(crate) fn char_from_code(code: u32) -> (r: Option<char>)
    ensures
        r is Some == is_scalar(code as nat),
        r matches Some(c) ==> c == code as char,
{
    char::from_u32(code)
}

/// The value of the digit `c` in `radix`.
fn digit_of(c: char, radix: u64) -> (r: Option<u64>)
    requires
        radix == 10 || radix == 16,
    ensures
        match digit_value(c, radix as nat) {
            None => r is None,
            Some(d) => r == Some(d as u64),
        },
{
    if '0' <= c && c <= '9' {
        Some((c as u32 - '0' as u32) as u64)
    } else if radix == 16 && 'a' <= c && c <= 'f' {
        Some((c as u32 - 'a' as u32 + 10) as u64)
    } else if radix == 16 && 'A' <= c && c <= 'F' {
        Some((c as u32 - 'A' as u32 + 10) as u64)
    } else {
        None
    }
}

/// The number the digits `s[from..to]` write in `radix`, saturated at
/// `2^32`; `None` when there is no digit or a non-digit.
fn parse_number(s: &Vec<char>, from: usize, to: usize, radix: u64) -> (r: Option<u64>)
    requires
        from <= to <= s.len(),
        radix == 10 || radix == 16,
    ensures
        match number_value(s@.subrange(from as int, to as int), radix as nat) {
            None => r is None,
            Some(v) => r == Some(sat32(v) as u64),
        },
{
    if from == to {
        return None;
    }
    let mut k = from;
    while k < to
        invariant
            from <= k <= to <= s.len(),
            radix == 10 || radix == 16,
            forall|x: int| from <= x < k ==> #[trigger] digit_value(s@[x], radix as nat) is Some,
        decreases to - k,
    {
        if digit_of(s[k], radix).is_none() {
            proof {
                lemma_number_invalid(s@, from as int, k as int, to as int, radix as nat);
            }
            return None;
        }
        k += 1;
    }
    let mut acc: u64 = digit_of(s[from], radix).unwrap();
    let mut k = from + 1;
    proof {
        let t = s@.subrange(from as int, k as int);
        assert(t.last() == s@[from as int]);
    }
    while k < to
        invariant
            from < k <= to <= s.len(),
            radix == 10 || radix == 16,
            forall|x: int| from <= x < to ==> #[trigger] digit_value(s@[x], radix as nat) is Some,
            number_value(s@.subrange(from as int, k as int), radix as nat) is Some,
            acc == sat32(number_value(s@.subrange(from as int, k as int), radix as nat)->0),
        decreases to - k,
    {
        let d = digit_of(s[k], radix).unwrap();
        let ghost v = number_value(s@.subrange(from as int, k as int), radix as nat)->0;
        proof {
            let t = s@.subrange(from as int, k + 1);
            assert(t.drop_last() =~= s@.subrange(from as int, k as int));
            assert(t.last() == s@[k as int]);
            lemma_sat_step(v, radix as nat, d as nat);
            assert(acc * radix + d <= 0x1_0000_0000 * 16 + 15) by (nonlinear_arith)
                requires
                    acc <= 0x1_0000_0000,
                    radix <= 16,
                    d <= 15,
            ;
        }
        let next = acc * radix + d;
        acc = if next > 0xFFFF_FFFF { 0x1_0000_0000 } else { next };
        k += 1;
    }
    Some(acc)
}

proof fn lemma_number_invalid(s: Seq<char>, from: int, k: int, to: int, radix: nat)
    requires
        0 <= from <= k < to <= s.len(),
        digit_value(s[k], radix) is None,
    ensures
        number_value(s.subrange(from, to), radix) is None,
    decreases to - k,
{
    let t = s.subrange(from, to);
    assert(t.drop_last() =~= s.subrange(from, to - 1));
    assert(t.last() == s[to - 1]);
    if k < to - 1 {
        lemma_number_invalid(s, from, k, to - 1, radix);
    }
}

/// Whether `s[from..to]` spells `lit`.
fn slice_is(s: &Vec<char>, from: usize, to: usize, lit: &str) -> (r: bool)
    requires
        from <= to <= s.len(),
    ensures
        r == (s@.subrange(from as int, to as int) == lit@),
{
    let l = chars_of(lit);
    if to - from != l.len() {
        return false;
    }
    let mut k: usize = 0;
    while k < l.len()
        invariant
            l@ == lit@,
            to - from == l.len(),
            from <= to <= s.len(),
            k <= l.len(),
            forall|x: int| 0 <= x < k ==> s@[from + x] == l@[x],
        decreases l.len() - k,
    {
        if s[from + k] != l[k] {
            proof {
                assert(s@.subrange(from as int, to as int)[k as int] != lit@[k as int]);
            }
            return false;
        }
        k += 1;
    }
    proof {
        assert(s@.subrange(from as int, to as int) =~= lit@);
    }
    true
}

/// The character for the entity named `s[from..to]`.
fn decode_entity(s: &Vec<char>, from: usize, to: usize) -> (r: Option<char>)
    requires
        from <= to <= s.len(),
    ensures
        r == entity_char(s@.subrange(from as int, to as int)),
{
    let ghost name = s@.subrange(from as int, to as int);
    if slice_is(s, from, to, "amp") { return Some('&'); }
    if slice_is(s, from, to, "lt") { return Some('<'); }
    if slice_is(s, from, to, "gt") { return Some('>'); }
    if slice_is(s, from, to, "quot") { return Some('"'); }
    if slice_is(s, from, to, "apos") { return Some('\''); }
    if slice_is(s, from, to, "nbsp") { return Some(' '); }
    if slice_is(s, from, to, "copy") { return Some('©'); }
    if slice_is(s, from, to, "reg") { return Some('®'); }
    if slice_is(s, from, to, "trade") { return Some('™'); }
    if slice_is(s, from, to, "mdash") { return Some('—'); }
    if slice_is(s, from, to, "ndash") { return Some('–'); }
    if slice_is(s, from, to, "lsquo") { return Some('\u{2018}'); }
    if slice_is(s, from, to, "rsquo") { return Some('\u{2019}'); }
    if slice_is(s, from, to, "ldquo") { return Some('\u{201C}'); }
    if slice_is(s, from, to, "rdquo") { return Some('\u{201D}'); }
    if from == to || s[from] != '#' {
        return None;
    }
    let start = from + 1;
    proof {
        assert(name.drop_first() =~= s@.subrange(start as int, to as int));
    }
    let v = if start < to && (s[start] == 'x' || s[start] == 'X') {
        proof {
            assert(name.drop_first().drop_first() =~= s@.subrange(start + 1, to as int));
        }
        parse_number(s, start + 1, to, 16)
    } else {
        parse_number(s, start, to, 10)
    };
    match v {
        None => None,
        Some(x) => {
            if x > 0xFFFF_FFFF {
                None
            } else {
                char_from_code(x as u32)
            }
        },
    }
}

/// An ASCII letter, digit or `#`: a character that can belong to an entity
/// name.
fn is_name_char(c: char) -> (r: bool)
    ensures
        r == (is_ascii_alnum(c) || c == '#'),
{
    ('0' <= c && c <= '9') || ('a' <= c && c <= 'z') || ('A' <= c && c <= 'Z') || c == '#'
}

/// Decode the named and numeric HTML entities that browsers write into
/// bookmark exports.  Anything that is not a well-formed, known entity is
/// left exactly as it was.
pub fn decode_html_entities(s: &str) -> (r: String)
    ensures
        r@ == decode_v(s@),
{
    let cs = chars_of(s);
    let n = cs.len();
    let mut out: Vec<char> = Vec::new();
    let mut i: usize = 0;
    proof {
        assert(s@.skip(0) =~= s@);
        assert(out@ + decode_v(s@) =~= decode_v(s@));
    }
    while i < n
        invariant
            cs@ == s@,
            n == cs.len(),
            i <= n,
            decode_v(s@) == out@ + decode_v(s@.skip(i as int)),
        decreases n - i,
    {
        let ghost rest = s@.skip(i as int);
        proof {
            assert(rest[0] == s@[i as int]);
            assert(rest.drop_first() =~= s@.skip(i + 1));
        }
        if cs[i] != '&' {
            let ghost before = out@;
            out.push(cs[i]);
            proof {
                assert(out@ + decode_v(s@.skip(i + 1)) =~= before + (seq![s@[i as int]] + decode_v(s@.skip(i + 1))));
            }
            i += 1;
        } else {
            let mut j = i + 1;
            proof {
                assert(s@.skip(j as int) =~= rest.drop_first());
            }
            while j < n && is_name_char(cs[j])
                invariant
                    cs@ == s@,
                    n == cs.len(),
                    i < j <= n,
                    name_len(s@.skip(i + 1)) == (j - (i + 1)) + name_len(s@.skip(j as int)),
                decreases n - j,
            {
                proof {
                    assert(s@.skip(j as int).drop_first() =~= s@.skip(j + 1));
                }
                j += 1;
            }
            let ghost tail = s@.skip(i + 1);
            let ghost nl = (j - (i + 1)) as int;
            proof {
                if j < n {
                    assert(s@.skip(j as int)[0] == s@[j as int]);
                }
                assert(name_len(s@.skip(j as int)) == 0);
                assert(tail.take(nl) =~= s@.subrange(i + 1, j as int));
                if j < n {
                    assert(tail.skip(nl + 1) =~= s@.skip(j + 1));
                    assert(tail[nl] == s@[j as int]);
                }
            }
            let decoded = if j < n && cs[j] == ';' {
                decode_entity(&cs, i + 1, j)
            } else {
                None
            };
            let ghost before = out@;
            match decoded {
                Some(ch) => {
                    out.push(ch);
                    proof {
                        assert(out@ + decode_v(s@.skip(j + 1)) =~= before + (seq![ch] + decode_v(s@.skip(j + 1))));
                    }
                    i = j + 1;
                },
                None => {
                    out.push('&');
                    proof {
                        assert(out@ + decode_v(s@.skip(i + 1)) =~= before + (seq!['&'] + decode_v(s@.skip(i + 1))));
                    }
                    i += 1;
                },
            }
        }
    }
    proof {
        assert(s@.skip(n as int) =~= Seq::<char>::empty());
        assert(out@ + Seq::<char>::empty() =~= out@);
    }
    string_of(out.as_slice())
}

// ---------------------------------------------------------------------------
// Removing fragments and trimming punctuation
// ---------------------------------------------------------------------------

/// `s` with every occurrence of `pat` removed, scanning left to right
/// without overlaps (what `str::replace(pat, "")` gives for a non-empty
/// `pat`).
pub open spec fn remove_all_v(s: Seq<char>, pat: Seq<char>) -> Seq<char>
    decreases s.len(),
{
    if s.len() == 0 {
        Seq::empty()
    } else if pat.len() > 0 && has_prefix(s, pat) {
        remove_all_v(s.skip(pat.len() as int), pat)
    } else {
        seq![s[0]] + remove_all_v(s.drop_first(), pat)
    }
}

/// Whether `ps` occurs in `cs` at position `i`.
fn matches_at(cs: &Vec<char>, i: usize, ps: &Vec<char>) -> (r: bool)
    requires
        i <= cs.len(),
    ensures
        r == has_prefix(cs@.skip(i as int), ps@),
{
    if ps.len() > cs.len() - i {
        return false;
    }
    let mut k: usize = 0;
    while k < ps.len()
        invariant
            i + ps.len() <= cs.len(),
            k <= ps.len(),
            forall|x: int| 0 <= x < k ==> cs@[i + x] == ps@[x],
        decreases ps.len() - k,
    {
        if cs[i + k] != ps[k] {
            proof {
                assert(cs@.skip(i as int).take(ps@.len() as int)[k as int] != ps@[k as int]);
            }
            return false;
        }
        k += 1;
    }
    proof {
        assert(cs@.skip(i as int).take(ps@.len() as int) =~= ps@);
    }
    true
}

/// `s` with every occurrence of `pat` removed, left to right.
pub fn remove_all(s: &str, pat: &str) -> (r: String)
    ensures
        r@ == remove_all_v(s@, pat@),
{
    let cs = chars_of(s);
    let ps = chars_of(pat);
    let mut out: Vec<char> = Vec::new();
    let mut i: usize = 0;
    proof {
        assert(s@.skip(0) =~= s@);
        assert(out@ + remove_all_v(s@, pat@) =~= remove_all_v(s@, pat@));
    }
    while i < cs.len()
        invariant
            cs@ == s@,
            ps@ == pat@,
            i <= cs.len(),
            remove_all_v(s@, pat@) == out@ + remove_all_v(s@.skip(i as int), pat@),
        decreases cs.len() - i,
    {
        let ghost rest = s@.skip(i as int);
        if ps.len() > 0 && matches_at(&cs, i, &ps) {
            proof {
                assert(rest.skip(ps.len() as int) =~= s@.skip(i + ps.len()));
            }
            i += ps.len();
        } else {
            let ghost before = out@;
            out.push(cs[i]);
            proof {
                assert(rest[0] == cs@[i as int]);
                assert(rest.drop_first() =~= s@.skip(i + 1));
                assert(out@ + remove_all_v(s@.skip(i + 1), pat@) =~= before + (seq![cs@[i as int]] + remove_all_v(s@.skip(i + 1), pat@)));
            }
            i += 1;
        }
    }
    proof {
        assert(s@.skip(cs.len() as int) =~= Seq::<char>::empty());
        assert(out@ + Seq::<char>::empty() =~= out@);
    }
    string_of(out.as_slice())
}

/// Punctuation left dangling when a part of a title is removed.
pub open spec fn is_dangling(c: char) -> bool {
    c == ',' || c == ';' || c == '|' || c == '\u{00B7}' || c == '\u{2013}' || c == '-' || is_ws(c)
}

/// `s` without dangling punctuation and whitespace at its start.
pub open spec fn trim_start_v(s: Seq<char>) -> Seq<char>
    decreases s.len(),
{
    if s.len() > 0 && is_dangling(s[0]) { trim_start_v(s.drop_first()) } else { s }
}

/// `s` without dangling punctuation and whitespace at its end.
pub open spec fn trim_end_v(s: Seq<char>) -> Seq<char>
    decreases s.len(),
{
    if s.len() > 0 && is_dangling(s.last()) { trim_end_v(s.drop_last()) } else { s }
}

/// One sweep over `s`: each empty-bracket pattern (`()`, `( )`, `[]`,
/// `[ ]`, `<>`, `< >`, `{}`, `{ }`) removed in turn.
pub open spec fn sweep_v(s: Seq<char>) -> Seq<char> {
    let a = remove_all_v(s, "()"@);
    let b = remove_all_v(a, "( )"@);
    let c = remove_all_v(b, "[]"@);
    let d = remove_all_v(c, "[ ]"@);
    let e = remove_all_v(d, "<>"@);
    let f = remove_all_v(e, "< >"@);
    let g = remove_all_v(f, "{}"@);
    remove_all_v(g, "{ }"@)
}

/// `s` with empty brackets removed until none is left: sweeps repeated
/// while they shorten the text.
pub open spec fn unbracket_v(s: Seq<char>) -> Seq<char>
    decreases s.len(),
{
    let t = sweep_v(s);
    if t.len() < s.len() {
        unbracket_v(t)
    } else {
        s
    }
}

/// Empty brackets removed until none is left, then dangling punctuation
/// and whitespace trimmed from both ends.
pub open spec fn trim_dangling_v(s: Seq<char>) -> Seq<char> {
    trim_end_v(trim_start_v(unbracket_v(s)))
}

/// `pat` occurs somewhere in `s`.
pub open spec fn occurs_in(s: Seq<char>, pat: Seq<char>) -> bool {
    exists|i: int| 0 <= i <= s.len() && #[trigger] has_prefix(s.skip(i), pat)
}

/// Removing a pattern never lengthens the text, shortens it exactly when
/// the pattern occurs, and changes nothing when it does not.
proof fn lemma_remove_len(s: Seq<char>, pat: Seq<char>)
    requires
        pat.len() > 0,
    ensures
        remove_all_v(s, pat).len() <= s.len(),
        occurs_in(s, pat) ==> remove_all_v(s, pat).len() < s.len(),
        !occurs_in(s, pat) ==> remove_all_v(s, pat) == s,
    decreases s.len(),
{
    if s.len() == 0 {
        assert(!occurs_in(s, pat)) by {
            assert forall|i: int| 0 <= i <= s.len() implies !#[trigger] has_prefix(s.skip(i), pat) by {}
        }
    } else if has_prefix(s, pat) {
        lemma_remove_len(s.skip(pat.len() as int), pat);
        assert(s.skip(0) =~= s);
    } else {
        let r = s.drop_first();
        lemma_remove_len(r, pat);
        if occurs_in(s, pat) {
            let i = choose|i: int| 0 <= i <= s.len() && #[trigger] has_prefix(s.skip(i), pat);
            assert(i != 0) by {
                assert(s.skip(0) =~= s);
            }
            assert(s.skip(i) =~= r.skip(i - 1));
            assert(has_prefix(r.skip(i - 1), pat));
        } else {
            assert forall|j: int| 0 <= j <= r.len() implies !#[trigger] has_prefix(r.skip(j), pat) by {
                assert(s.skip(j + 1) =~= r.skip(j));
            }
            assert(seq![s[0]] + r =~= s);
        }
    }
}

/// A pattern that occurs in a part of `s` occurs in `s`.
proof fn lemma_occurs_sub(s: Seq<char>, a: int, b: int, pat: Seq<char>)
    requires
        0 <= a <= b <= s.len(),
        occurs_in(s.subrange(a, b), pat),
    ensures
        occurs_in(s, pat),
{
    let t = s.subrange(a, b);
    let i = choose|i: int| 0 <= i <= t.len() && #[trigger] has_prefix(t.skip(i), pat);
    assert(s.skip(a + i).take(pat.len() as int) =~= t.skip(i).take(pat.len() as int));
    assert(has_prefix(s.skip(a + i), pat));
}

/// None of the eight patterns occurs in `s`.
pub open spec fn bracket_free(s: Seq<char>) -> bool {
    &&& !occurs_in(s, "()"@)
    &&& !occurs_in(s, "( )"@)
    &&& !occurs_in(s, "[]"@)
    &&& !occurs_in(s, "[ ]"@)
    &&& !occurs_in(s, "<>"@)
    &&& !occurs_in(s, "< >"@)
    &&& !occurs_in(s, "{}"@)
    &&& !occurs_in(s, "{ }"@)
}

proof fn lemma_patterns_nonempty()
    ensures
        "()"@.len() > 0,
        "( )"@.len() > 0,
        "[]"@.len() > 0,
        "[ ]"@.len() > 0,
        "<>"@.len() > 0,
        "< >"@.len() > 0,
        "{}"@.len() > 0,
        "{ }"@.len() > 0,
{
    reveal_strlit("()");
    reveal_strlit("( )");
    reveal_strlit("[]");
    reveal_strlit("[ ]");
    reveal_strlit("<>");
    reveal_strlit("< >");
    reveal_strlit("{}");
    reveal_strlit("{ }");
}

/// A sweep never lengthens the text; it keeps the length exactly when the
/// text is bracket-free, and then it changes nothing.
proof fn lemma_sweep(s: Seq<char>)
    ensures
        sweep_v(s).len() <= s.len(),
        sweep_v(s).len() == s.len() ==> bracket_free(s),
        bracket_free(s) ==> sweep_v(s) == s,
{
    lemma_patterns_nonempty();
    let a = remove_all_v(s, "()"@);
    let b = remove_all_v(a, "( )"@);
    let c = remove_all_v(b, "[]"@);
    let d = remove_all_v(c, "[ ]"@);
    let e = remove_all_v(d, "<>"@);
    let f = remove_all_v(e, "< >"@);
    let g = remove_all_v(f, "{}"@);
    lemma_remove_len(s, "()"@);
    lemma_remove_len(a, "( )"@);
    lemma_remove_len(b, "[]"@);
    lemma_remove_len(c, "[ ]"@);
    lemma_remove_len(d, "<>"@);
    lemma_remove_len(e, "< >"@);
    lemma_remove_len(f, "{}"@);
    lemma_remove_len(g, "{ }"@);
    if sweep_v(s).len() == s.len() {
        lemma_remove_len(s, "( )"@);
        lemma_remove_len(s, "[]"@);
        lemma_remove_len(s, "[ ]"@);
        lemma_remove_len(s, "<>"@);
        lemma_remove_len(s, "< >"@);
        lemma_remove_len(s, "{}"@);
        lemma_remove_len(s, "{ }"@);
    }
}

/// What `unbracket_v` leaves is bracket-free.
proof fn lemma_unbracket_free(s: Seq<char>)
    ensures
        bracket_free(unbracket_v(s)),
    decreases s.len(),
{
    lemma_sweep(s);
    let t = sweep_v(s);
    if t.len() < s.len() {
        lemma_unbracket_free(t);
    }
}

/// Trimming the start leaves a suffix that starts with no dangling
/// character.
proof fn lemma_trim_start_shape(s: Seq<char>) -> (k: int)
    ensures
        0 <= k <= s.len(),
        trim_start_v(s) == s.skip(k),
        trim_start_v(s).len() > 0 ==> !is_dangling(trim_start_v(s)[0]),
    decreases s.len(),
{
    if s.len() > 0 && is_dangling(s[0]) {
        let k = lemma_trim_start_shape(s.drop_first());
        assert(s.drop_first().skip(k) =~= s.skip(k + 1));
        k + 1
    } else {
        assert(s.skip(0) =~= s);
        0
    }
}

/// Trimming the end leaves a prefix that ends with no dangling character.
proof fn lemma_trim_end_shape(s: Seq<char>) -> (k: int)
    ensures
        0 <= k <= s.len(),
        trim_end_v(s) == s.take(k),
        trim_end_v(s).len() > 0 ==> !is_dangling(trim_end_v(s).last()),
    decreases s.len(),
{
    if s.len() > 0 && is_dangling(s.last()) {
        let k = lemma_trim_end_shape(s.drop_last());
        assert(s.drop_last().take(k) =~= s.take(k));
        k
    } else {
        assert(s.take(s.len() as int) =~= s);
        s.len() as int
    }
}

/// Trimming dangling punctuation is idempotent: what it leaves has no
/// empty brackets and no dangling punctuation at either end, so a second
/// call changes nothing.
pub proof fn trim_dangling_idempotent(s: Seq<char>)
    ensures
        trim_dangling_v(trim_dangling_v(s)) == trim_dangling_v(s),
{
    let u = unbracket_v(s);
    lemma_unbracket_free(u);
    lemma_unbracket_free(s);
    let k1 = lemma_trim_start_shape(u);
    let w = trim_start_v(u);
    let k2 = lemma_trim_end_shape(w);
    let f = trim_end_v(w);
    assert(f =~= u.subrange(k1, k1 + k2));
    lemma_patterns_nonempty();
    if occurs_in(f, "()"@) { lemma_occurs_sub(u, k1, k1 + k2, "()"@); }
    if occurs_in(f, "( )"@) { lemma_occurs_sub(u, k1, k1 + k2, "( )"@); }
    if occurs_in(f, "[]"@) { lemma_occurs_sub(u, k1, k1 + k2, "[]"@); }
    if occurs_in(f, "[ ]"@) { lemma_occurs_sub(u, k1, k1 + k2, "[ ]"@); }
    if occurs_in(f, "<>"@) { lemma_occurs_sub(u, k1, k1 + k2, "<>"@); }
    if occurs_in(f, "< >"@) { lemma_occurs_sub(u, k1, k1 + k2, "< >"@); }
    if occurs_in(f, "{}"@) { lemma_occurs_sub(u, k1, k1 + k2, "{}"@); }
    if occurs_in(f, "{ }"@) { lemma_occurs_sub(u, k1, k1 + k2, "{ }"@); }
    lemma_sweep(f);
    assert(unbracket_v(f) == f);
    if f.len() > 0 {
        assert(f[0] == w[0]);
    }
    assert(trim_start_v(f) == f);
    assert(trim_end_v(f) == f);
}

fn is_dangling_char(c: char) -> (r: bool)
    ensures
        r == is_dangling(c),
{
    c == ',' || c == ';' || c == '|' || c == '\u{00B7}' || c == '\u{2013}' || c == '-' || is_whitespace(c)
}

/// One sweep of the empty-bracket patterns over `s`.
fn sweep(s: &str) -> (r: String)
    ensures
        r@ == sweep_v(s@),
{
    let a = remove_all(s, "()");
    let b = remove_all(a.as_str(), "( )");
    let c = remove_all(b.as_str(), "[]");
    let d = remove_all(c.as_str(), "[ ]");
    let e = remove_all(d.as_str(), "<>");
    let f = remove_all(e.as_str(), "< >");
    let g = remove_all(f.as_str(), "{}");
    remove_all(g.as_str(), "{ }")
}

/// Remove empty brackets until none is left and trim dangling punctuation
/// (see [`trim_dangling_v`]).
pub fn trim_dangling_punct(s: &str) -> (r: String)
    ensures
        r@ == trim_dangling_v(s@),
{
    let mut cur = s.to_owned();
    let mut len = chars_of(cur.as_str()).len();
    loop
        invariant
            unbracket_v(s@) == unbracket_v(cur@),
            len == cur@.len(),
        ensures
            unbracket_v(s@) == unbracket_v(cur@),
            unbracket_v(cur@) == cur@,
        decreases cur@.len(),
    {
        let t = sweep(cur.as_str());
        let tl = chars_of(t.as_str()).len();
        if tl < len {
            cur = t;
            len = tl;
        } else {
            break;
        }
    }
    let h = cur;
    proof {
        assert(unbracket_v(h@) == h@);
    }
    let cs = chars_of(h.as_str());
    let mut start: usize = 0;
    proof {
        assert(h@.subrange(0, h@.len() as int) =~= h@);
    }
    while start < cs.len() && is_dangling_char(cs[start])
        invariant
            cs@ == h@,
            start <= cs.len(),
            trim_start_v(h@) == trim_start_v(h@.subrange(start as int, h@.len() as int)),
        decreases cs.len() - start,
    {
        proof {
            assert(h@.subrange(start as int, h@.len() as int).drop_first() =~= h@.subrange(start + 1, h@.len() as int));
        }
        start += 1;
    }
    let ghost mid = h@.subrange(start as int, h@.len() as int);
    proof {
        assert(trim_start_v(mid) == mid);
    }
    let mut end: usize = cs.len();
    while end > start && is_dangling_char(cs[end - 1])
        invariant
            cs@ == h@,
            start <= end <= cs.len(),
            mid == h@.subrange(start as int, h@.len() as int),
            trim_end_v(mid) == trim_end_v(h@.subrange(start as int, end as int)),
        decreases end - start,
    {
        proof {
            assert(h@.subrange(start as int, end as int).drop_last() =~= h@.subrange(start as int, end - 1));
        }
        end -= 1;
    }
    proof {
        let t = h@.subrange(start as int, end as int);
        assert(trim_end_v(t) == t);
    }
    crate::text::string_between(&cs, start, end)
}


/// `s` without whitespace at its start.
pub open spec fn ws_start_v(s: Seq<char>) -> Seq<char>
    decreases s.len(),
{
    if s.len() > 0 && is_ws(s[0]) { ws_start_v(s.drop_first()) } else { s }
}

/// `s` without whitespace at its end.
pub open spec fn ws_end_v(s: Seq<char>) -> Seq<char>
    decreases s.len(),
{
    if s.len() > 0 && is_ws(s.last()) { ws_end_v(s.drop_last()) } else { s }
}

/// `s` without whitespace at either end (`str::trim`).
pub open spec fn trim_ws_v(s: Seq<char>) -> Seq<char> {
    ws_end_v(ws_start_v(s))
}

/// Trim whitespace from both ends.
pub fn trim_whitespace(s: &str) -> (r: String)
    ensures
        r@ == trim_ws_v(s@),
{
    let cs = chars_of(s);
    let mut start: usize = 0;
    proof {
        assert(s@.subrange(0, s@.len() as int) =~= s@);
    }
    while start < cs.len() && is_whitespace(cs[start])
        invariant
            cs@ == s@,
            start <= cs.len(),
            ws_start_v(s@) == ws_start_v(s@.subrange(start as int, s@.len() as int)),
        decreases cs.len() - start,
    {
        proof {
            assert(s@.subrange(start as int, s@.len() as int).drop_first() =~= s@.subrange(start + 1, s@.len() as int));
        }
        start += 1;
    }
    let ghost mid = s@.subrange(start as int, s@.len() as int);
    proof {
        assert(ws_start_v(mid) == mid);
    }
    let mut end: usize = cs.len();
    while end > start && is_whitespace(cs[end - 1])
        invariant
            cs@ == s@,
            start <= end <= cs.len(),
            mid == s@.subrange(start as int, s@.len() as int),
            ws_end_v(mid) == ws_end_v(s@.subrange(start as int, end as int)),
        decreases end - start,
    {
        proof {
            assert(s@.subrange(start as int, end as int).drop_last() =~= s@.subrange(start as int, end - 1));
        }
        end -= 1;
    }
    proof {
        let t = s@.subrange(start as int, end as int);
        assert(ws_end_v(t) == t);
    }
    crate::text::string_between(&cs, start, end)
}

/// The named entities that decoding knows, each with its character: the
/// HTML names `amp`, `lt`, `gt`, `quot`, `apos`, `nbsp`, `copy`, `reg`,
/// `trade`, `mdash`, `ndash`, `lsquo`, `rsquo`, `ldquo` and `rdquo`.
pub open spec fn entity_table() -> Seq<(Seq<char>, char)> {
    seq![
        ("amp"@, '&'),
        ("lt"@, '<'),
        ("gt"@, '>'),
        ("quot"@, '"'),
        ("apos"@, '\''),
        ("nbsp"@, ' '),
        ("copy"@, '©'),
        ("reg"@, '®'),
        ("trade"@, '™'),
        ("mdash"@, '—'),
        ("ndash"@, '–'),
        ("lsquo"@, '\u{2018}'),
        ("rsquo"@, '\u{2019}'),
        ("ldquo"@, '\u{201C}'),
        ("rdquo"@, '\u{201D}')
    ]
}

/// How many leading characters can belong to an entity name, over a name
/// of letters and digits followed by more text.
proof fn lemma_name_len_prefix(name: Seq<char>, rest: Seq<char>)
    requires
        forall|i: int| 0 <= i < name.len() ==> is_ascii_alnum(#[trigger] name[i]),
    ensures
        name_len(name + rest) == name.len() + name_len(rest),
    decreases name.len(),
{
    if name.len() > 0 {
        let t = name.drop_first();
        assert((name + rest)[0] == name[0]);
        assert((name + rest).drop_first() =~= t + rest);
        assert forall|i: int| 0 <= i < t.len() implies is_ascii_alnum(#[trigger] t[i]) by {
            assert(t[i] == name[i + 1]);
        }
        lemma_name_len_prefix(t, rest);
    } else {
        assert(name + rest =~= rest);
    }
}

/// `&name;` of a known name of letters and digits decodes to its character,
/// and decoding goes on after the `;`.
proof fn lemma_decode_named(name: Seq<char>, c: char, x: Seq<char>)
    requires
        name.len() > 0,
        forall|i: int| 0 <= i < name.len() ==> is_ascii_alnum(#[trigger] name[i]),
        named_entity(name) == Some(c),
    ensures
        decode_v(seq!['&'] + name + seq![';'] + x) == seq![c] + decode_v(x),
{
    let s = seq!['&'] + name + seq![';'] + x;
    let tail = s.drop_first();
    let r = seq![';'] + x;
    assert(tail =~= name + r);
    lemma_name_len_prefix(name, r);
    assert(!is_ascii_alnum(r[0]) && r[0] != '#');
    assert(name_len(r) == 0);
    assert(tail[name.len() as int] == ';');
    assert(tail.take(name.len() as int) =~= name);
    assert(tail.skip(name.len() + 1int) =~= x);
    assert(s[0] == '&');
}

/// Decoding turns each named entity of the table into its character,
/// wherever it stands: `&name;` followed by any text decodes to the
/// character followed by that text decoded.
pub proof fn named_entities_decode(k: int, x: Seq<char>)
    requires
        0 <= k < entity_table().len(),
    ensures
        decode_v(seq!['&'] + entity_table()[k].0 + seq![';'] + x) == seq![entity_table()[k].1] + decode_v(x),
{
    reveal_strlit("amp");
    reveal_strlit("lt");
    reveal_strlit("gt");
    reveal_strlit("quot");
    reveal_strlit("apos");
    reveal_strlit("nbsp");
    reveal_strlit("copy");
    reveal_strlit("reg");
    reveal_strlit("trade");
    reveal_strlit("mdash");
    reveal_strlit("ndash");
    reveal_strlit("lsquo");
    reveal_strlit("rsquo");
    reveal_strlit("ldquo");
    reveal_strlit("rdquo");
    let t = entity_table();
    let name = t[k].0;
    {
        if k == 0 {
            assert(t[0] == ("amp"@, '&'));
            assert(named_entity("amp"@) == Some('&'));
        } else if k == 1 {
            assert(t[1] == ("lt"@, '<'));
            assert("lt"@.len() != "amp"@.len());
            assert(named_entity("lt"@) == Some('<'));
        } else if k == 2 {
            assert(t[2] == ("gt"@, '>'));
            assert("gt"@.len() != "amp"@.len());
            assert("gt"@[0] != "lt"@[0]);
            assert(named_entity("gt"@) == Some('>'));
        } else if k == 3 {
            assert(t[3] == ("quot"@, '"'));
            assert("quot"@.len() != "amp"@.len());
            assert("quot"@.len() != "lt"@.len());
            assert("quot"@.len() != "gt"@.len());
            assert(named_entity("quot"@) == Some('"'));
        } else if k == 4 {
            assert(t[4] == ("apos"@, '\''));
            assert("apos"@.len() != "amp"@.len());
            assert("apos"@.len() != "lt"@.len());
            assert("apos"@.len() != "gt"@.len());
            assert("apos"@[0] != "quot"@[0]);
            assert(named_entity("apos"@) == Some('\''));
        } else if k == 5 {
            assert(t[5] == ("nbsp"@, ' '));
            assert("nbsp"@.len() != "amp"@.len());
            assert("nbsp"@.len() != "lt"@.len());
            assert("nbsp"@.len() != "gt"@.len());
            assert("nbsp"@[0] != "quot"@[0]);
            assert("nbsp"@[0] != "apos"@[0]);
            assert(named_entity("nbsp"@) == Some(' '));
        } else if k == 6 {
            assert(t[6] == ("copy"@, '©'));
            assert("copy"@.len() != "amp"@.len());
            assert("copy"@.len() != "lt"@.len());
            assert("copy"@.len() != "gt"@.len());
            assert("copy"@[0] != "quot"@[0]);
            assert("copy"@[0] != "apos"@[0]);
            assert("copy"@[0] != "nbsp"@[0]);
            assert(named_entity("copy"@) == Some('©'));
        } else if k == 7 {
            assert(t[7] == ("reg"@, '®'));
            assert("reg"@[0] != "amp"@[0]);
            assert("reg"@.len() != "lt"@.len());
            assert("reg"@.len() != "gt"@.len());
            assert("reg"@.len() != "quot"@.len());
            assert("reg"@.len() != "apos"@.len());
            assert("reg"@.len() != "nbsp"@.len());
            assert("reg"@.len() != "copy"@.len());
            assert(named_entity("reg"@) == Some('®'));
        } else if k == 8 {
            assert(t[8] == ("trade"@, '™'));
            assert("trade"@.len() != "amp"@.len());
            assert("trade"@.len() != "lt"@.len());
            assert("trade"@.len() != "gt"@.len());
            assert("trade"@.len() != "quot"@.len());
            assert("trade"@.len() != "apos"@.len());
            assert("trade"@.len() != "nbsp"@.len());
            assert("trade"@.len() != "copy"@.len());
            assert("trade"@.len() != "reg"@.len());
            assert(named_entity("trade"@) == Some('™'));
        } else if k == 9 {
            assert(t[9] == ("mdash"@, '—'));
            assert("mdash"@.len() != "amp"@.len());
            assert("mdash"@.len() != "lt"@.len());
            assert("mdash"@.len() != "gt"@.len());
            assert("mdash"@.len() != "quot"@.len());
            assert("mdash"@.len() != "apos"@.len());
            assert("mdash"@.len() != "nbsp"@.len());
            assert("mdash"@.len() != "copy"@.len());
            assert("mdash"@.len() != "reg"@.len());
            assert("mdash"@[0] != "trade"@[0]);
            assert(named_entity("mdash"@) == Some('—'));
        } else if k == 10 {
            assert(t[10] == ("ndash"@, '–'));
            assert("ndash"@.len() != "amp"@.len());
            assert("ndash"@.len() != "lt"@.len());
            assert("ndash"@.len() != "gt"@.len());
            assert("ndash"@.len() != "quot"@.len());
            assert("ndash"@.len() != "apos"@.len());
            assert("ndash"@.len() != "nbsp"@.len());
            assert("ndash"@.len() != "copy"@.len());
            assert("ndash"@.len() != "reg"@.len());
            assert("ndash"@[0] != "trade"@[0]);
            assert("ndash"@[0] != "mdash"@[0]);
            assert(named_entity("ndash"@) == Some('–'));
        } else if k == 11 {
            assert(t[11] == ("lsquo"@, '\u{2018}'));
            assert("lsquo"@.len() != "amp"@.len());
            assert("lsquo"@.len() != "lt"@.len());
            assert("lsquo"@.len() != "gt"@.len());
            assert("lsquo"@.len() != "quot"@.len());
            assert("lsquo"@.len() != "apos"@.len());
            assert("lsquo"@.len() != "nbsp"@.len());
            assert("lsquo"@.len() != "copy"@.len());
            assert("lsquo"@.len() != "reg"@.len());
            assert("lsquo"@[0] != "trade"@[0]);
            assert("lsquo"@[0] != "mdash"@[0]);
            assert("lsquo"@[0] != "ndash"@[0]);
            assert(named_entity("lsquo"@) == Some('\u{2018}'));
        } else if k == 12 {
            assert(t[12] == ("rsquo"@, '\u{2019}'));
            assert("rsquo"@.len() != "amp"@.len());
            assert("rsquo"@.len() != "lt"@.len());
            assert("rsquo"@.len() != "gt"@.len());
            assert("rsquo"@.len() != "quot"@.len());
            assert("rsquo"@.len() != "apos"@.len());
            assert("rsquo"@.len() != "nbsp"@.len());
            assert("rsquo"@.len() != "copy"@.len());
            assert("rsquo"@.len() != "reg"@.len());
            assert("rsquo"@[0] != "trade"@[0]);
            assert("rsquo"@[0] != "mdash"@[0]);
            assert("rsquo"@[0] != "ndash"@[0]);
            assert("rsquo"@[0] != "lsquo"@[0]);
            assert(named_entity("rsquo"@) == Some('\u{2019}'));
        } else if k == 13 {
            assert(t[13] == ("ldquo"@, '\u{201C}'));
            assert("ldquo"@.len() != "amp"@.len());
            assert("ldquo"@.len() != "lt"@.len());
            assert("ldquo"@.len() != "gt"@.len());
            assert("ldquo"@.len() != "quot"@.len());
            assert("ldquo"@.len() != "apos"@.len());
            assert("ldquo"@.len() != "nbsp"@.len());
            assert("ldquo"@.len() != "copy"@.len());
            assert("ldquo"@.len() != "reg"@.len());
            assert("ldquo"@[0] != "trade"@[0]);
            assert("ldquo"@[0] != "mdash"@[0]);
            assert("ldquo"@[0] != "ndash"@[0]);
            assert("ldquo"@[1] != "lsquo"@[1]);
            assert("ldquo"@[0] != "rsquo"@[0]);
            assert(named_entity("ldquo"@) == Some('\u{201C}'));
        } else if k == 14 {
            assert(t[14] == ("rdquo"@, '\u{201D}'));
            assert("rdquo"@.len() != "amp"@.len());
            assert("rdquo"@.len() != "lt"@.len());
            assert("rdquo"@.len() != "gt"@.len());
            assert("rdquo"@.len() != "quot"@.len());
            assert("rdquo"@.len() != "apos"@.len());
            assert("rdquo"@.len() != "nbsp"@.len());
            assert("rdquo"@.len() != "copy"@.len());
            assert("rdquo"@.len() != "reg"@.len());
            assert("rdquo"@[0] != "trade"@[0]);
            assert("rdquo"@[0] != "mdash"@[0]);
            assert("rdquo"@[0] != "ndash"@[0]);
            assert("rdquo"@[0] != "lsquo"@[0]);
            assert("rdquo"@[1] != "rsquo"@[1]);
            assert("rdquo"@[0] != "ldquo"@[0]);
            assert(named_entity("rdquo"@) == Some('\u{201D}'));
        }
    }
    assert(forall|i: int| 0 <= i < name.len() ==> is_ascii_alnum(#[trigger] name[i]));
    lemma_decode_named(name, t[k].1, x);
}

} // verus!

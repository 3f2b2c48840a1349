//! Case-insensitive glob patterns for search: `*` matches any run of
//! characters, `?` exactly one, `\` makes the next character literal.
use vstd::prelude::*;
use crate::search::index::{code_at, gram_at, has_gram};
use crate::text::{chars_of, lowercase_of, to_lower};

verus! {

/// One token of a parsed glob pattern.
#[derive(Debug, Clone, Copy, PartialEq, Eq, Structural)]
pub enum GlobToken {
    AnySeq,
    AnyChar,
    Literal(char),
}

/// The tokens and the "escape pending" state after reading `cs`.
pub open spec fn glob_state(cs: Seq<char>) -> (Seq<GlobToken>, bool)
    decreases cs.len(),
{
    if cs.len() == 0 {
        (Seq::empty(), false)
    } else {
        let (acc, esc) = glob_state(cs.drop_last());
        let c = cs.last();
        if esc {
            (acc.push(GlobToken::Literal(c)), false)
        } else if c == '\\' {
            (acc, true)
        } else if c == '*' {
            if acc.len() > 0 && acc.last() == GlobToken::AnySeq { (acc, false) } else { (acc.push(GlobToken::AnySeq), false) }
        } else if c == '?' {
            (acc.push(GlobToken::AnyChar), false)
        } else {
            (acc.push(GlobToken::Literal(c)), false)
        }
    }
}

/// The tokens of the (already lowercased) pattern text `cs`: a trailing
/// lone `\` stands for itself.
pub open spec fn glob_tokens(cs: Seq<char>) -> Seq<GlobToken> {
    let (acc, esc) = glob_state(cs);
    if esc { acc.push(GlobToken::Literal('\\')) } else { acc }
}

/// Whether the tokens `t` match the whole of `c`.
pub open spec fn glob_match(t: Seq<GlobToken>, c: Seq<char>) -> bool
    decreases t.len() + c.len(),
{
    if t.len() == 0 {
        c.len() == 0
    } else {
        match t.last() {
            GlobToken::AnySeq => glob_match(t.drop_last(), c) || (c.len() > 0 && glob_match(t, c.drop_last())),
            GlobToken::AnyChar => c.len() > 0 && glob_match(t.drop_last(), c.drop_last()),
            GlobToken::Literal(x) => c.len() > 0 && c.last() == x && glob_match(t.drop_last(), c.drop_last()),
        }
    }
}

/// `p` ends in a backslash that no backslash before it escapes.
pub open spec fn pending_escape(p: Seq<char>) -> bool
    decreases p.len(),
{
    p.len() > 0 && p.last() == '\\' && !pending_escape(p.drop_last())
}

/// `s` as a whole matches the pattern text `p` read as a glob: `*` matches
/// any run of characters (possibly empty), `?` exactly one character, `\`
/// followed by a character that character itself, a trailing lone `\` a
/// backslash, and any other character itself.
pub open spec fn glob_text_match(p: Seq<char>, s: Seq<char>) -> bool
    decreases p.len() + s.len(),
{
    if p.len() == 0 {
        s.len() == 0
    } else {
        let q = p.drop_last();
        let c = p.last();
        if pending_escape(p) {
            s.len() > 0 && s.last() == c && glob_text_match(q, s.drop_last())
        } else if pending_escape(q) {
            s.len() > 0 && s.last() == c && glob_text_match(q.drop_last(), s.drop_last())
        } else if c == '*' {
            glob_text_match(q, s) || (s.len() > 0 && glob_text_match(p, s.drop_last()))
        } else if c == '?' {
            s.len() > 0 && glob_text_match(q, s.drop_last())
        } else {
            s.len() > 0 && s.last() == c && glob_text_match(q, s.drop_last())
        }
    }
}

/// The escape state after reading `p` is whether `p` ends in a pending
/// escape.
proof fn lemma_glob_state_escape(p: Seq<char>)
    ensures
        glob_state(p).1 == pending_escape(p),
    decreases p.len(),
{
    if p.len() > 0 {
        lemma_glob_state_escape(p.drop_last());
    }
}

/// Matching tokens that end in `tok`, one step.
proof fn lemma_match_push(acc: Seq<GlobToken>, tok: GlobToken, s: Seq<char>)
    ensures
        glob_match(acc.push(tok), s) == match tok {
            GlobToken::AnySeq => glob_match(acc, s) || (s.len() > 0 && glob_match(acc.push(tok), s.drop_last())),
            GlobToken::AnyChar => s.len() > 0 && glob_match(acc, s.drop_last()),
            GlobToken::Literal(x) => s.len() > 0 && s.last() == x && glob_match(acc, s.drop_last()),
        },
{
    assert(acc.push(tok).drop_last() =~= acc);
}

/// The tokens of a pattern match a text exactly when the text matches the
/// pattern read as a glob (see [`glob_text_match`]).
pub proof fn glob_tokens_match_the_pattern(p: Seq<char>, s: Seq<char>)
    ensures
        glob_match(glob_tokens(p), s) == glob_text_match(p, s),
    decreases p.len() + s.len(),
{
    if p.len() > 0 {
        let q = p.drop_last();
        let c = p.last();
        lemma_glob_state_escape(p);
        lemma_glob_state_escape(q);
        let acc = glob_state(q).0;
        if s.len() > 0 {
            glob_tokens_match_the_pattern(p, s.drop_last());
        }
        if pending_escape(p) {
            assert(glob_tokens(p) == acc.push(GlobToken::Literal('\\')));
            assert(glob_tokens(q) == acc);
            if s.len() > 0 {
                glob_tokens_match_the_pattern(q, s.drop_last());
            }
            lemma_match_push(acc, GlobToken::Literal('\\'), s);
        } else if pending_escape(q) {
            let q2 = q.drop_last();
            lemma_glob_state_escape(q2);
            assert(glob_tokens(q2) == acc);
            assert(glob_tokens(p) == acc.push(GlobToken::Literal(c)));
            if s.len() > 0 {
                glob_tokens_match_the_pattern(q2, s.drop_last());
            }
            lemma_match_push(acc, GlobToken::Literal(c), s);
        } else {
            assert(glob_tokens(q) == acc);
            glob_tokens_match_the_pattern(q, s);
            if s.len() > 0 {
                glob_tokens_match_the_pattern(q, s.drop_last());
            }
            if c == '*' {
                if acc.len() > 0 && acc.last() == GlobToken::AnySeq {
                    assert(glob_tokens(p) == acc);
                    lemma_match_push(acc.drop_last(), GlobToken::AnySeq, s);
                    assert(acc.drop_last().push(GlobToken::AnySeq) =~= acc);
                } else {
                    assert(glob_tokens(p) == acc.push(GlobToken::AnySeq));
                    lemma_match_push(acc, GlobToken::AnySeq, s);
                }
            } else if c == '?' {
                assert(glob_tokens(p) == acc.push(GlobToken::AnyChar));
                lemma_match_push(acc, GlobToken::AnyChar, s);
            } else {
                assert(glob_tokens(p) == acc.push(GlobToken::Literal(c)));
                lemma_match_push(acc, GlobToken::Literal(c), s);
            }
        }
    }
}

/// A trigram of `s` without its last character is a trigram of `s`.
proof fn lemma_gram_of_prefix(s: Seq<char>, g: int)
    requires
        s.len() > 0,
        has_gram(s.drop_last(), g),
    ensures
        has_gram(s, g),
{
    let t = s.drop_last();
    let j = choose|j: int| #[trigger] gram_at(t, j) && code_at(t, j) == g;
    assert(gram_at(s, j) && code_at(s, j) == g);
}

/// The three letters or digits of a trigram of the pattern are literal
/// characters, so a text that the pattern matches holds that trigram too.
proof fn lemma_text_match_gram(p: Seq<char>, s: Seq<char>, i: int)
    requires
        glob_text_match(p, s),
        gram_at(p, i),
    ensures
        has_gram(s, code_at(p, i)),
    decreases p.len() + s.len(),
{
    let n = p.len() as int;
    let q = p.drop_last();
    let c = p.last();
    if i + 3 == n {
        let q2 = q.drop_last();
        let q3 = q2.drop_last();
        assert(c == p[i + 2] && q.last() == p[i + 1] && q2.last() == p[i]);
        assert(!pending_escape(p));
        assert(!pending_escape(q));
        assert(!pending_escape(q2));
        let s1 = s.drop_last();
        assert(s.len() > 0 && s.last() == p[i + 2] && glob_text_match(q, s1));
        let s2 = s1.drop_last();
        assert(s1.len() > 0 && s1.last() == p[i + 1] && glob_text_match(q2, s2));
        assert(s2.len() > 0 && s2.last() == p[i]) by {
            if pending_escape(q3) {
                assert(glob_text_match(q3.drop_last(), s2.drop_last()));
            }
        }
        let j = s.len() - 3;
        assert(s[j] == p[i] && s[j + 1] == p[i + 1] && s[j + 2] == p[i + 2]);
        assert(gram_at(s, j) && code_at(s, j) == code_at(p, i));
    } else {
        let g = code_at(p, i);
        assert(gram_at(q, i) && code_at(q, i) == g);
        if pending_escape(p) {
            lemma_text_match_gram(q, s.drop_last(), i);
            lemma_gram_of_prefix(s, g);
        } else if pending_escape(q) {
            let q2 = q.drop_last();
            assert(q.last() == '\\' && p[n - 2] == '\\');
            assert(i + 3 <= n - 2);
            assert(gram_at(q2, i) && code_at(q2, i) == g);
            lemma_text_match_gram(q2, s.drop_last(), i);
            lemma_gram_of_prefix(s, g);
        } else if c == '*' {
            if glob_text_match(q, s) {
                lemma_text_match_gram(q, s, i);
            } else {
                lemma_text_match_gram(p, s.drop_last(), i);
                lemma_gram_of_prefix(s, g);
            }
        } else {
            lemma_text_match_gram(q, s.drop_last(), i);
            lemma_gram_of_prefix(s, g);
        }
    }
}

/// Every trigram of a glob pattern occurs in any text that the pattern's
/// tokens match.
pub proof fn glob_match_keeps_grams(p: Seq<char>, s: Seq<char>, g: int)
    requires
        glob_match(glob_tokens(p), s),
        has_gram(p, g),
    ensures
        has_gram(s, g),
{
    glob_tokens_match_the_pattern(p, s);
    let i = choose|i: int| #[trigger] gram_at(p, i) && code_at(p, i) == g;
    lemma_text_match_gram(p, s, i);
}

/// Parse `*` (any run), `?` (one char) and `\` escapes; the pattern is
/// lowercased first so matching ignores case.  Consecutive `*` collapse
/// into one token.
pub fn parse_glob_pattern(pattern: &str) -> (r: Vec<GlobToken>)
    ensures
        r@ == glob_tokens(lowercase_of(pattern@)),
{
    let lower = to_lower(pattern);
    let cs = chars_of(lower.as_str());
    let mut tokens: Vec<GlobToken> = Vec::new();
    let mut escaped = false;
    let mut k: usize = 0;
    while k < cs.len()
        invariant
            cs@ == lowercase_of(pattern@),
            k <= cs.len(),
            glob_state(cs@.take(k as int)) == (tokens@, escaped),
        decreases cs.len() - k,
    {
        let ch = cs[k];
        proof {
            assert(cs@.take(k + 1).drop_last() =~= cs@.take(k as int));
            assert(cs@.take(k + 1).last() == ch);
        }
        if escaped {
            tokens.push(GlobToken::Literal(ch));
            escaped = false;
        } else if ch == '\\' {
            escaped = true;
        } else if ch == '*' {
            let n = tokens.len();
            if !(n > 0 && tokens[n - 1] == GlobToken::AnySeq) {
                tokens.push(GlobToken::AnySeq);
            }
        } else if ch == '?' {
            tokens.push(GlobToken::AnyChar);
        } else {
            tokens.push(GlobToken::Literal(ch));
        }
        k += 1;
    }
    proof {
        assert(cs@.take(cs.len() as int) =~= cs@);
    }
    if escaped {
        tokens.push(GlobToken::Literal('\\'));
    }
    tokens
}

/// Whole-string, case-insensitive glob match of `candidate` against
/// `tokens`.
pub fn glob_matches_tokens(tokens: &[GlobToken], candidate: &str) -> (r: bool)
    ensures
        r == glob_match(tokens@, lowercase_of(candidate@)),
{
    let lower = to_lower(candidate);
    let cs = chars_of(lower.as_str());
    let m = cs.len();
    let ghost c = cs@;
    // row[j]: the first k tokens match the first j characters.
    let mut row: Vec<bool> = Vec::new();
    row.push(true);
    let mut j: usize = 0;
    while j < m
        invariant
            m == cs.len(),
            c == cs@,
            j <= m,
            row.len() == j + 1,
            forall|x: int| 0 <= x <= j ==> #[trigger] row@[x] == glob_match(Seq::empty(), c.take(x)),
        decreases m - j,
    {
        row.push(false);
        j += 1;
        proof {
            assert(c.take(j as int).len() == j);
        }
    }
    let mut k: usize = 0;
    while k < tokens.len()
        invariant
            m == cs.len(),
            c == cs@,
            k <= tokens.len(),
            row.len() == m + 1,
            forall|x: int| 0 <= x <= m ==> #[trigger] row@[x] == glob_match(tokens@.take(k as int), c.take(x)),
        decreases tokens.len() - k,
    {
        let tok = tokens[k];
        let ghost tk = tokens@.take(k + 1);
        proof {
            assert(tk.drop_last() =~= tokens@.take(k as int));
            assert(tk.last() == tok);
        }
        let mut next: Vec<bool> = Vec::new();
        let first = match tok {
            GlobToken::AnySeq => row[0],
            _ => false,
        };
        next.push(first);
        proof {
            assert(c.take(0).len() == 0);
        }
        let mut j: usize = 0;
        while j < m
            invariant
                m == cs.len(),
                c == cs@,
                j <= m,
                k < tokens.len(),
                row.len() == m + 1,
                tk == tokens@.take(k + 1),
                tk.drop_last() == tokens@.take(k as int),
                tk.last() == tok,
                forall|x: int| 0 <= x <= m ==> #[trigger] row@[x] == glob_match(tokens@.take(k as int), c.take(x)),
                next.len() == j + 1,
                forall|x: int| 0 <= x <= j ==> #[trigger] next@[x] == glob_match(tk, c.take(x)),
            decreases m - j,
        {
            let ghost cj = c.take(j + 1);
            proof {
                assert(cj.drop_last() =~= c.take(j as int));
                assert(cj.last() == c[j as int]);
                assert(row@[j + 1] == glob_match(tokens@.take(k as int), cj));
                assert(row@[j as int] == glob_match(tokens@.take(k as int), c.take(j as int)));
                assert(next@[j as int] == glob_match(tk, c.take(j as int)));
                assert(tk.len() > 0);
            }
            let v = match tok {
                GlobToken::AnySeq => row[j + 1] || next[j],
                GlobToken::AnyChar => row[j],
                GlobToken::Literal(x) => cs[j] == x && row[j],
            };
            next.push(v);
            proof {
                assert(next@[j + 1] == glob_match(tk, cj));
            }
            j += 1;
        }
        row = next;
        k += 1;
    }
    proof {
        assert(tokens@.take(tokens.len() as int) =~= tokens@);
        assert(c.take(m as int) =~= c);
    }
    row[m]
}

/// Parse a search glob (see [`parse_glob_pattern`]).
pub fn parse_glob(pattern: &str) -> (r: Vec<GlobToken>)
    ensures
        r@ == glob_tokens(lowercase_of(pattern@)),
{
    parse_glob_pattern(pattern)
}

/// Match a search glob (see [`glob_matches_tokens`]).
pub fn glob_matches(tokens: &[GlobToken], candidate: &str) -> (r: bool)
    ensures
        r == glob_match(tokens@, lowercase_of(candidate@)),
{
    glob_matches_tokens(tokens, candidate)
}

} // verus!

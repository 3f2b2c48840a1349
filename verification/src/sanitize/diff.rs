//! Character-level diff for the change-preview UI.
//!
//! Produces two parallel span sequences (one for the *before* text and one
//! for the *after* text) where each span is tagged [`DiffTag::Equal`],
//! [`DiffTag::Removed`], or [`DiffTag::Added`].  The characters tagged
//! `Equal` form a longest common subsequence of the two texts, computed with
//! the classic dynamic-programming table over `char`s.  An input length
//! guard ([`MAX_DIFF_INPUT`]) falls back to whole-string removed / added
//! spans for pathological inputs.
use vstd::prelude::*;
use crate::text::{chars_of, string_of};

verus! {

/// Tag on one run of characters in a diff result.
#[derive(Debug, Clone, Copy, PartialEq, Eq, Structural)]
pub enum DiffTag {
    /// Present in both inputs unchanged: render neutrally.
    Equal,
    /// Present in `before` only: render struck-through.
    Removed,
    /// Present in `after` only: render highlighted.
    Added,
}

/// One contiguous run of same-tag characters in a diff result.
#[derive(Debug, Clone)]
pub struct DiffSpan {
    pub tag: DiffTag,
    pub text: String,
}

/// Maximum input length (in chars per side) before falling back to
/// whole-string diff spans.
pub const MAX_DIFF_INPUT: usize = 4096;

/// The spans as (tag, text) pairs.
pub open spec fn spans_v(s: Seq<DiffSpan>) -> Seq<(DiffTag, Seq<char>)> {
    s.map_values(|d: DiffSpan| (d.tag, d.text@))
}

/// Every character of the spans, in order, with its span's tag.
pub open spec fn expand(spans: Seq<(DiffTag, Seq<char>)>) -> Seq<(DiffTag, char)>
    decreases spans.len(),
{
    if spans.len() == 0 {
        Seq::empty()
    } else {
        let last = spans.last();
        expand(spans.drop_last()) + last.1.map_values(|c: char| (last.0, c))
    }
}

/// No span is empty and no two neighbours share a tag.
pub open spec fn coalesced(spans: Seq<(DiffTag, Seq<char>)>) -> bool {
    &&& forall|k: int| 0 <= k < spans.len() ==> #[trigger] spans[k].1.len() > 0
    &&& forall|k: int| 0 < k < spans.len() ==> #[trigger] spans[k - 1].0 != spans[k].0
}

/// The characters of tagged characters.
pub open spec fn op_chars(ops: Seq<(DiffTag, char)>) -> Seq<char> {
    ops.map_values(|o: (DiffTag, char)| o.1)
}

/// The characters tagged `Equal`, in order.
pub open spec fn equal_chars(ops: Seq<(DiffTag, char)>) -> Seq<char>
    decreases ops.len(),
{
    if ops.len() == 0 {
        Seq::empty()
    } else {
        let rest = equal_chars(ops.drop_first());
        if ops[0].0 == DiffTag::Equal { seq![ops[0].1] + rest } else { rest }
    }
}

/// Length of a longest common subsequence of `a` and `b`.
pub open spec fn lcs_len(a: Seq<char>, b: Seq<char>) -> nat
    decreases a.len() + b.len(),
{
    if a.len() == 0 || b.len() == 0 {
        0
    } else if a.last() == b.last() {
        lcs_len(a.drop_last(), b.drop_last()) + 1
    } else {
        let x = lcs_len(a.drop_last(), b);
        let y = lcs_len(a, b.drop_last());
        if x >= y { x } else { y }
    }
}

/// `ix` lists increasing positions of `a` that spell `z`.
pub open spec fn embeds(z: Seq<char>, a: Seq<char>, ix: Seq<int>) -> bool {
    &&& ix.len() == z.len()
    &&& forall|i: int| 0 <= i < ix.len() ==> 0 <= #[trigger] ix[i] < a.len() && a[ix[i]] == z[i]
    &&& forall|i: int, j: int| 0 <= i < j < ix.len() ==> ix[i] < ix[j]
}

/// `z` is a subsequence of `a`.
pub open spec fn is_subseq(z: Seq<char>, a: Seq<char>) -> bool {
    exists|ix: Seq<int>| embeds(z, a, ix)
}

/// No common subsequence of `a` and `b` is longer than `lcs_len(a, b)`.
pub proof fn lcs_len_is_longest(a: Seq<char>, b: Seq<char>, z: Seq<char>)
    requires
        is_subseq(z, a),
        is_subseq(z, b),
    ensures
        z.len() <= lcs_len(a, b),
    decreases a.len() + b.len(),
{
    if z.len() > 0 {
        let ia = choose|ix: Seq<int>| embeds(z, a, ix);
        let ib = choose|ix: Seq<int>| embeds(z, b, ix);
        let l = z.len() - 1;
        assert(0 <= ia[l] < a.len());
        assert(0 <= ib[l] < b.len());
        let a2 = a.drop_last();
        let b2 = b.drop_last();
        if a.last() == b.last() {
            let z2 = z.drop_last();
            assert forall|i: int| 0 <= i < l implies ia[i] < ia[l] && ib[i] < ib[l] by {}
            assert(embeds(z2, a2, ia.drop_last()));
            assert(embeds(z2, b2, ib.drop_last()));
            lcs_len_is_longest(a2, b2, z2);
        } else if ia[l] < a.len() - 1 {
            assert forall|i: int| 0 <= i <= l implies ia[i] <= ia[l] by {}
            assert(embeds(z, a2, ia));
            lcs_len_is_longest(a2, b, z);
        } else {
            assert(z[l] == a.last());
            assert(ib[l] < b.len() - 1);
            assert forall|i: int| 0 <= i <= l implies ib[i] <= ib[l] by {}
            assert(embeds(z, b2, ib));
            lcs_len_is_longest(a, b2, z);
        }
    }
}

/// `spans` describe one side of a diff of `text`: in order they spell
/// `text`, and no character carries `other` (the tag of the other side).
pub open spec fn side_of(spans: Seq<(DiffTag, Seq<char>)>, text: Seq<char>, other: DiffTag) -> bool {
    &&& coalesced(spans)
    &&& op_chars(expand(spans)) == text
    &&& forall|k: int| 0 <= k < expand(spans).len() ==> #[trigger] expand(spans)[k].0 != other
}

/// A character diff of `a` into `b`: each side spells its text, and the
/// characters tagged `Equal` are the same on both sides and as many as a
/// longest common subsequence has.
pub open spec fn is_char_diff(
    a: Seq<char>,
    b: Seq<char>,
    before: Seq<(DiffTag, Seq<char>)>,
    after: Seq<(DiffTag, Seq<char>)>,
) -> bool {
    &&& side_of(before, a, DiffTag::Added)
    &&& side_of(after, b, DiffTag::Removed)
    &&& equal_chars(expand(before)) == equal_chars(expand(after))
    &&& equal_chars(expand(before)).len() == lcs_len(a, b)
}

/// The characters tagged `Equal` are a subsequence of all the characters.
proof fn lemma_equal_chars_subseq(ops: Seq<(DiffTag, char)>)
    ensures
        is_subseq(equal_chars(ops), op_chars(ops)),
    decreases ops.len(),
{
    if ops.len() == 0 {
        assert(embeds(equal_chars(ops), op_chars(ops), Seq::<int>::empty()));
    } else {
        let rest = ops.drop_first();
        lemma_equal_chars_subseq(rest);
        let e = equal_chars(rest);
        let ix = choose|ix: Seq<int>| embeds(e, op_chars(rest), ix);
        let sh = ix.map_values(|k: int| k + 1);
        let all = op_chars(ops);
        assert forall|k: int| 0 <= k < op_chars(rest).len() implies all[k + 1] == op_chars(rest)[k] by {
            assert(rest[k] == ops[k + 1]);
        }
        assert forall|i: int| 0 <= i < sh.len() implies 0 <= #[trigger] sh[i] < all.len() && all[sh[i]] == e[i] by {
            assert(0 <= ix[i] < op_chars(rest).len());
        }
        assert forall|i: int, j: int| 0 <= i < j < sh.len() implies sh[i] < sh[j] by {
            assert(ix[i] < ix[j]);
        }
        if ops[0].0 == DiffTag::Equal {
            let jx = seq![0int] + sh;
            assert forall|i: int| 0 <= i < jx.len() implies 0 <= #[trigger] jx[i] < all.len() && all[jx[i]] == equal_chars(ops)[i] by {
                if i > 0 {
                    assert(jx[i] == sh[i - 1]);
                }
            }
            assert forall|i: int, j: int| 0 <= i < j < jx.len() implies jx[i] < jx[j] by {
                if i > 0 {
                    assert(jx[i] == sh[i - 1]);
                }
                assert(jx[j] == sh[j - 1]);
                assert(0 <= ix[j - 1]);
            }
            assert(embeds(equal_chars(ops), all, jx));
        } else {
            assert(embeds(equal_chars(ops), all, sh));
        }
    }
}

/// The characters that a character diff tags `Equal` form a longest common
/// subsequence of its two texts.
pub proof fn equal_chars_are_a_longest_common_subsequence(
    a: Seq<char>,
    b: Seq<char>,
    before: Seq<(DiffTag, Seq<char>)>,
    after: Seq<(DiffTag, Seq<char>)>,
    z: Seq<char>,
)
    requires
        is_char_diff(a, b, before, after),
    ensures
        is_subseq(equal_chars(expand(before)), a),
        is_subseq(equal_chars(expand(before)), b),
        is_subseq(z, a) && is_subseq(z, b) ==> z.len() <= equal_chars(expand(before)).len(),
{
    lemma_equal_chars_subseq(expand(before));
    lemma_equal_chars_subseq(expand(after));
    if is_subseq(z, a) && is_subseq(z, b) {
        lcs_len_is_longest(a, b, z);
    }
}

/// One span holding all of `t` with tag `tag`, or none when `t` is empty.
pub open spec fn whole(t: Seq<char>, tag: DiffTag) -> Seq<(DiffTag, Seq<char>)> {
    if t.len() == 0 { Seq::empty() } else { seq![(tag, t)] }
}

proof fn lemma_lcs_bound(a: Seq<char>, b: Seq<char>)
    ensures
        lcs_len(a, b) <= a.len(),
        lcs_len(a, b) <= b.len(),
    decreases a.len() + b.len(),
{
    if a.len() > 0 && b.len() > 0 {
        lemma_lcs_bound(a.drop_last(), b.drop_last());
        lemma_lcs_bound(a.drop_last(), b);
        lemma_lcs_bound(a, b.drop_last());
    }
}

/// Non-`Equal` characters before position `i` add nothing to the `Equal`
/// characters.
proof fn lemma_equal_skip(ops: Seq<(DiffTag, char)>, k: int, i: int)
    requires
        0 <= k <= i <= ops.len(),
        forall|x: int| k <= x < i ==> #[trigger] ops[x].0 != DiffTag::Equal,
    ensures
        equal_chars(ops.subrange(k, ops.len() as int)) == equal_chars(ops.subrange(i, ops.len() as int)),
    decreases i - k,
{
    if k < i {
        lemma_equal_skip(ops, k + 1, i);
        assert(ops.subrange(k, ops.len() as int).drop_first() =~= ops.subrange(k + 1, ops.len() as int));
    }
}

proof fn lemma_expand_push(spans: Seq<(DiffTag, Seq<char>)>, tag: DiffTag, t: Seq<char>)
    ensures
        expand(spans.push((tag, t))) == expand(spans) + t.map_values(|c: char| (tag, c)),
{
    assert(spans.push((tag, t)).drop_last() =~= spans);
}

proof fn lemma_expand_update_last(spans: Seq<(DiffTag, Seq<char>)>, c: char)
    requires
        spans.len() > 0,
    ensures
        expand(spans.update(spans.len() - 1, (spans.last().0, spans.last().1.push(c))))
            == expand(spans).push((spans.last().0, c)),
{
    let s2 = spans.update(spans.len() - 1, (spans.last().0, spans.last().1.push(c)));
    assert(s2.drop_last() =~= spans.drop_last());
    let tag = spans.last().0;
    assert(spans.last().1.push(c).map_values(|x: char| (tag, x))
        =~= spans.last().1.map_values(|x: char| (tag, x)).push((tag, c)));
}

/// Merge adjacent same-tag characters into spans.
fn coalesce(ops: &Vec<(DiffTag, char)>) -> (r: Vec<DiffSpan>)
    ensures
        expand(spans_v(r@)) == ops@,
        coalesced(spans_v(r@)),
{
    let mut out: Vec<DiffSpan> = Vec::new();
    let mut run: Vec<char> = Vec::new();
    let mut run_tag = DiffTag::Equal;
    let mut k: usize = 0;
    while k < ops.len()
        invariant
            k <= ops.len(),
            ({
                let done = spans_v(out@);
                let all = if run.len() > 0 { done.push((run_tag, run@)) } else { done };
                &&& expand(all) == ops@.subrange(0, k as int)
                &&& coalesced(all)
                &&& run.len() == 0 ==> k == 0 && out.len() == 0
            }),
        decreases ops.len() - k,
    {
        let (tag, ch) = ops[k];
        let ghost done = spans_v(out@);
        let ghost all = if run.len() > 0 { done.push((run_tag, run@)) } else { done };
        proof {
            assert(ops@.subrange(0, k + 1) =~= ops@.subrange(0, k as int).push((tag, ch)));
        }
        if run.len() > 0 && run_tag == tag {
            proof {
                lemma_expand_update_last(all, ch);
                assert(all.update(all.len() - 1, (all.last().0, all.last().1.push(ch)))
                    =~= done.push((run_tag, run@.push(ch))));
            }
            run.push(ch);
        } else {
            if run.len() > 0 {
                let text = string_of(run.as_slice());
                out.push(DiffSpan { tag: run_tag, text });
                proof {
                    assert(spans_v(out@) =~= all);
                }
            }
            let mut fresh: Vec<char> = Vec::new();
            fresh.push(ch);
            run = fresh;
            run_tag = tag;
            proof {
                lemma_expand_push(all, tag, run@);
                assert(run@.map_values(|c: char| (tag, c)) =~= seq![(tag, ch)]);
            }
        }
        k += 1;
    }
    let ghost done = spans_v(out@);
    let ghost all = if run.len() > 0 { done.push((run_tag, run@)) } else { done };
    if run.len() > 0 {
        let text = string_of(run.as_slice());
        out.push(DiffSpan { tag: run_tag, text });
    }
    proof {
        assert(ops@.subrange(0, ops.len() as int) =~= ops@);
        assert(spans_v(out@) =~= all);
    }
    out
}

/// The whole text as one span, or no span when it is empty.
fn whole_span(t: &str, tag: DiffTag) -> (r: Vec<DiffSpan>)
    ensures
        spans_v(r@) == whole(t@, tag),
{
    let mut v: Vec<DiffSpan> = Vec::new();
    if !t.is_empty() {
        v.push(DiffSpan { tag, text: t.to_owned() });
    }
    proof {
        assert(spans_v(v@) =~= whole(t@, tag));
    }
    v
}

/// Whether two character sequences are equal.
fn same_chars(a: &Vec<char>, b: &Vec<char>) -> (r: bool)
    ensures
        r == (a@ == b@),
{
    if a.len() != b.len() {
        return false;
    }
    let mut i: usize = 0;
    while i < a.len()
        invariant
            a.len() == b.len(),
            i <= a.len(),
            forall|k: int| 0 <= k < i ==> a@[k] == b@[k],
        decreases a.len() - i,
    {
        if a[i] != b[i] {
            return false;
        }
        i += 1;
    }
    proof {
        assert(a@ =~= b@);
    }
    true
}

/// The LCS table: row `r`, column `c` holds `lcs_len` of the first `r`
/// characters of `a` and the first `c` of `b`.
fn lcs_table(a: &Vec<char>, b: &Vec<char>) -> (t: Vec<Vec<usize>>)
    requires
        a.len() <= MAX_DIFF_INPUT,
        b.len() <= MAX_DIFF_INPUT,
    ensures
        t.len() == a.len() + 1,
        forall|r: int| 0 <= r <= a.len() ==> #[trigger] t[r].len() == b.len() + 1,
        forall|r: int, c: int| 0 <= r <= a.len() && 0 <= c <= b.len()
            ==> #[trigger] t[r][c] == lcs_len(a@.take(r), b@.take(c)),
{
    let n = a.len();
    let m = b.len();
    let mut t: Vec<Vec<usize>> = Vec::new();
    let mut row0: Vec<usize> = Vec::new();
    let mut c: usize = 0;
    while c <= m
        invariant
            c <= m + 1,
            m == b.len(),
            m <= MAX_DIFF_INPUT,
            row0.len() == c,
            forall|x: int| 0 <= x < c ==> #[trigger] row0[x] == lcs_len(a@.take(0), b@.take(x)),
        decreases m + 1 - c,
    {
        row0.push(0);
        c += 1;
    }
    t.push(row0);
    let mut i: usize = 0;
    while i < n
        invariant
            n == a.len(),
            m == b.len(),
            n <= MAX_DIFF_INPUT,
            i <= n,
            t.len() == i + 1,
            forall|r: int| 0 <= r <= i ==> #[trigger] t[r].len() == m + 1,
            forall|r: int, x: int| 0 <= r <= i && 0 <= x <= m
                ==> #[trigger] t[r][x] == lcs_len(a@.take(r), b@.take(x)),
        decreases n - i,
    {
        let mut row: Vec<usize> = Vec::new();
        row.push(0);
        let mut j: usize = 0;
        while j < m
            invariant
                n == a.len(),
                m == b.len(),
                n <= MAX_DIFF_INPUT,
                i < n,
                j <= m,
                t.len() == i + 1,
                forall|r: int| 0 <= r <= i ==> #[trigger] t[r].len() == m + 1,
                forall|r: int, x: int| 0 <= r <= i && 0 <= x <= m
                    ==> #[trigger] t[r][x] == lcs_len(a@.take(r), b@.take(x)),
                row.len() == j + 1,
                forall|x: int| 0 <= x <= j ==> #[trigger] row[x] == lcs_len(a@.take(i + 1), b@.take(x)),
            decreases m - j,
        {
            let ghost ai = a@.take(i + 1);
            let ghost bj = b@.take(j + 1);
            proof {
                assert(ai.drop_last() =~= a@.take(i as int));
                assert(bj.drop_last() =~= b@.take(j as int));
                assert(ai.last() == a@[i as int]);
                assert(bj.last() == b@[j as int]);
                lemma_lcs_bound(a@.take(i as int), b@.take(j as int));
            }
            proof {
                assert(t[i as int].len() == m + 1);
            }
            let v = if a[i] == b[j] {
                t[i][j] + 1
            } else {
                let x = t[i][j + 1];
                let y = row[j];
                if x >= y { x } else { y }
            };
            row.push(v);
            j += 1;
        }
        t.push(row);
        i += 1;
    }
    t
}

/// The spans `sb` and `sa` are the character diff of `a` and `b`: equal
/// inputs give one `Equal` span each (none when empty); an input longer than
/// [`MAX_DIFF_INPUT`] gives one `Removed` and one `Added` span; otherwise
/// the spans are a diff through a longest common subsequence.
pub open spec fn diff_of(a: Seq<char>, b: Seq<char>, sb: Seq<(DiffTag, Seq<char>)>, sa: Seq<(DiffTag, Seq<char>)>) -> bool {
    &&& a == b ==> sb == whole(a, DiffTag::Equal) && sa == whole(b, DiffTag::Equal)
    &&& a != b && (a.len() > MAX_DIFF_INPUT || b.len() > MAX_DIFF_INPUT) ==> sb == whole(a, DiffTag::Removed) && sa == whole(
        b,
        DiffTag::Added,
    )
    &&& a.len() <= MAX_DIFF_INPUT && b.len() <= MAX_DIFF_INPUT ==> is_char_diff(a, b, sb, sa)
}

/// Compute character-level diff spans for the `before` and `after` strings.
///
/// Returns `(before_spans, after_spans)`: each vector spells its source
/// string when the `text` fields are concatenated in order, and the `Equal`
/// spans appear in the same relative positions in both vectors.  Identical
/// inputs give one `Equal` span on each side (none when empty); an input
/// longer than [`MAX_DIFF_INPUT`] characters gives one `Removed` and one
/// `Added` span.
pub fn char_diff(before: &str, after: &str) -> (r: (Vec<DiffSpan>, Vec<DiffSpan>))
    ensures
        diff_of(before@, after@, spans_v(r.0@), spans_v(r.1@)),
{
    let a = chars_of(before);
    let b = chars_of(after);
    if same_chars(&a, &b) {
        let r = (whole_span(before, DiffTag::Equal), whole_span(after, DiffTag::Equal));
        proof {
            lemma_whole_equal_diff(before@);
        }
        return r;
    }
    if a.len() > MAX_DIFF_INPUT || b.len() > MAX_DIFF_INPUT {
        return (whole_span(before, DiffTag::Removed), whole_span(after, DiffTag::Added));
    }
    let n = a.len();
    let m = b.len();
    let t = lcs_table(&a, &b);
    let mut ops_b: Vec<(DiffTag, char)> = Vec::new();
    let mut k: usize = 0;
    while k < n
        invariant
            n == a.len(),
            k <= n,
            ops_b.len() == k,
            forall|x: int| 0 <= x < k ==> #[trigger] ops_b@[x] == (DiffTag::Removed, a@[x]),
        decreases n - k,
    {
        ops_b.push((DiffTag::Removed, a[k]));
        k += 1;
    }
    let mut ops_a: Vec<(DiffTag, char)> = Vec::new();
    let mut k: usize = 0;
    while k < m
        invariant
            m == b.len(),
            k <= m,
            ops_a.len() == k,
            forall|x: int| 0 <= x < k ==> #[trigger] ops_a@[x] == (DiffTag::Added, b@[x]),
        decreases m - k,
    {
        ops_a.push((DiffTag::Added, b[k]));
        k += 1;
    }
    let mut i = n;
    let mut j = m;
    proof {
        assert(ops_b@.subrange(n as int, n as int) =~= Seq::<(DiffTag, char)>::empty());
        assert(ops_a@.subrange(m as int, m as int) =~= Seq::<(DiffTag, char)>::empty());
        assert(a@.take(n as int) =~= a@);
        assert(b@.take(m as int) =~= b@);
    }
    while i > 0 && j > 0
        invariant
            n == a.len(),
            m == b.len(),
            i <= n,
            j <= m,
            t.len() == n + 1,
            forall|r: int| 0 <= r <= n ==> #[trigger] t[r].len() == m + 1,
            forall|r: int, c: int| 0 <= r <= n && 0 <= c <= m
                ==> #[trigger] t[r][c] == lcs_len(a@.take(r), b@.take(c)),
            ops_b.len() == n,
            ops_a.len() == m,
            forall|x: int| #![trigger ops_b@[x]] 0 <= x < n ==> ops_b@[x].1 == a@[x] && ops_b@[x].0 != DiffTag::Added,
            forall|x: int| #![trigger ops_a@[x]] 0 <= x < m ==> ops_a@[x].1 == b@[x] && ops_a@[x].0 != DiffTag::Removed,
            forall|x: int| 0 <= x < i ==> #[trigger] ops_b@[x].0 == DiffTag::Removed,
            forall|x: int| 0 <= x < j ==> #[trigger] ops_a@[x].0 == DiffTag::Added,
            equal_chars(ops_b@.subrange(i as int, n as int)) == equal_chars(ops_a@.subrange(j as int, m as int)),
            equal_chars(ops_b@.subrange(i as int, n as int)).len() + lcs_len(a@.take(i as int), b@.take(j as int))
                == lcs_len(a@, b@),
        decreases i + j,
    {
        let ghost ai = a@.take(i as int);
        let ghost bj = b@.take(j as int);
        proof {
            assert(ai.drop_last() =~= a@.take(i - 1));
            assert(bj.drop_last() =~= b@.take(j - 1));
            assert(ai.last() == a@[i - 1]);
            assert(bj.last() == b@[j - 1]);
            assert(ops_b@.subrange(i - 1, n as int).drop_first() =~= ops_b@.subrange(i as int, n as int));
            assert(ops_a@.subrange(j - 1, m as int).drop_first() =~= ops_a@.subrange(j as int, m as int));
        }
        if a[i - 1] == b[j - 1] {
            let ghost ob = ops_b@;
            let ghost oa = ops_a@;
            ops_b.set(i - 1, (DiffTag::Equal, a[i - 1]));
            ops_a.set(j - 1, (DiffTag::Equal, b[j - 1]));
            proof {
                assert(ops_b@ == ob.update(i - 1, (DiffTag::Equal, a@[i - 1])));
                assert(ops_b@[i - 1] == (DiffTag::Equal, a@[i - 1]));
                assert(ob[i - 1].1 == a@[i - 1]);
                assert forall|x: int| #![trigger ops_b@[x]] 0 <= x < n implies ops_b@[x].1 == a@[x] && ops_b@[x].0 != DiffTag::Added by {
                    if x != i - 1 {
                        assert(ops_b@[x] == ob[x]);
                        assert(ob[x].1 == a@[x]);
                    }
                }
                assert forall|x: int| #![trigger ops_a@[x]] 0 <= x < m implies ops_a@[x].1 == b@[x] && ops_a@[x].0 != DiffTag::Removed by {
                    if x != j - 1 {
                        assert(ops_a@[x] == oa[x]);
                        assert(oa[x].1 == b@[x]);
                    }
                }
                assert(ops_b@.subrange(i as int, n as int) =~= ob.subrange(i as int, n as int));
                assert(ops_a@.subrange(j as int, m as int) =~= oa.subrange(j as int, m as int));
                assert(ops_b@.subrange(i - 1, n as int).drop_first() =~= ops_b@.subrange(i as int, n as int));
                assert(ops_a@.subrange(j - 1, m as int).drop_first() =~= ops_a@.subrange(j as int, m as int));
            }
            i -= 1;
            j -= 1;
        } else if {
            proof {
                assert(t[i - 1].len() == m + 1);
                assert(t[i as int].len() == m + 1);
            }
            t[i - 1][j] >= t[i][j - 1]
        } {
            i -= 1;
        } else {
            j -= 1;
        }
    }
    proof {
        lemma_equal_skip(ops_b@, 0, i as int);
        lemma_equal_skip(ops_a@, 0, j as int);
        assert(ops_b@.subrange(0, n as int) =~= ops_b@);
        assert(ops_a@.subrange(0, m as int) =~= ops_a@);
        assert(op_chars(ops_b@) =~= a@);
        assert(op_chars(ops_a@) =~= b@);
        assert(lcs_len(a@.take(i as int), b@.take(j as int)) == 0);
    }
    let sb = coalesce(&ops_b);
    let sa = coalesce(&ops_a);
    proof {
        assert(expand(spans_v(sb@)) == ops_b@);
        assert(expand(spans_v(sa@)) == ops_a@);
        assert(side_of(spans_v(sb@), before@, DiffTag::Added));
        assert(side_of(spans_v(sa@), after@, DiffTag::Removed));
    }
    (sb, sa)
}

/// Identical texts as whole `Equal` spans form a character diff.
proof fn lemma_whole_equal_diff(t: Seq<char>)
    ensures
        is_char_diff(t, t, whole(t, DiffTag::Equal), whole(t, DiffTag::Equal)),
{
    let w = whole(t, DiffTag::Equal);
    let ops = t.map_values(|c: char| (DiffTag::Equal, c));
    if t.len() > 0 {
        assert(w.drop_last() =~= Seq::<(DiffTag, Seq<char>)>::empty());
        assert(w.last() == (DiffTag::Equal, t));
        assert(expand(w.drop_last()) =~= Seq::<(DiffTag, char)>::empty());
        assert(expand(w) =~= Seq::<(DiffTag, char)>::empty() + ops);
        assert(expand(w) =~= ops);
    } else {
        assert(expand(w) =~= ops);
    }
    assert(op_chars(ops) =~= t);
    lemma_equal_all(t);
    lemma_lcs_self(t);
}

/// All-`Equal` characters are all kept.
proof fn lemma_equal_all(t: Seq<char>)
    ensures
        equal_chars(t.map_values(|c: char| (DiffTag::Equal, c))) == t,
    decreases t.len(),
{
    if t.len() > 0 {
        lemma_equal_all(t.drop_first());
        assert(t.map_values(|c: char| (DiffTag::Equal, c)).drop_first()
            =~= t.drop_first().map_values(|c: char| (DiffTag::Equal, c)));
        assert(seq![t[0]] + t.drop_first() =~= t);
    }
}

/// A text's longest common subsequence with itself is the whole text.
proof fn lemma_lcs_self(t: Seq<char>)
    ensures
        lcs_len(t, t) == t.len(),
    decreases t.len(),
{
    if t.len() > 0 {
        lemma_lcs_self(t.drop_last());
    }
}

/// Reassemble one side's spans into its string: for the `Removed` side the
/// `Added` spans are skipped, for the `Added` side the `Removed` ones, and
/// for `Equal` none.
pub fn reassemble(spans: &[DiffSpan], side: DiffTag) -> (r: String)
    ensures
        r@ == side_text(spans_v(spans@), side),
{
    let mut buf = String::new();
    let mut k: usize = 0;
    while k < spans.len()
        invariant
            k <= spans.len(),
            buf@ == side_text(spans_v(spans@).subrange(0, k as int), side),
        decreases spans.len() - k,
    {
        let s = &spans[k];
        let skip = match side {
            DiffTag::Removed => s.tag == DiffTag::Added,
            DiffTag::Added => s.tag == DiffTag::Removed,
            DiffTag::Equal => false,
        };
        proof {
            assert(spans_v(spans@).subrange(0, k + 1).drop_last() =~= spans_v(spans@).subrange(0, k as int));
        }
        if !skip {
            buf.append(s.text.as_str());
        }
        k += 1;
    }
    proof {
        assert(spans_v(spans@).subrange(0, spans.len() as int) =~= spans_v(spans@));
    }
    buf
}

/// The text of the spans kept for `side` (see [`reassemble`]).
pub open spec fn side_text(spans: Seq<(DiffTag, Seq<char>)>, side: DiffTag) -> Seq<char>
    decreases spans.len(),
{
    if spans.len() == 0 {
        Seq::empty()
    } else {
        let rest = side_text(spans.drop_last(), side);
        let tag = spans.last().0;
        let skip = match side {
            DiffTag::Removed => tag == DiffTag::Added,
            DiffTag::Added => tag == DiffTag::Removed,
            DiffTag::Equal => false,
        };
        if skip { rest } else { rest + spans.last().1 }
    }
}

} // verus!

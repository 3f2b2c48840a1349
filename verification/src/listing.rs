//! Listings sorted by a text key: a sequence of (key, value) entries whose
//! keys strictly increase, standing for a finite map.
use vstd::prelude::*;
use crate::text::{lemma_text_lt_asym, lemma_text_lt_total, lemma_text_lt_trans, text_lt};

verus! {

/// `s` lists each key of `keys` exactly once, in increasing text order,
/// each with its value in `m`.
pub open spec fn lists<V>(s: Seq<(Seq<char>, V)>, keys: Set<Seq<char>>, m: Map<Seq<char>, V>) -> bool {
    &&& forall|i: int, j: int| 0 <= i < j < s.len() ==> text_lt(#[trigger] s[i].0, #[trigger] s[j].0)
    &&& forall|i: int|
        0 <= i < s.len() ==> keys.contains(#[trigger] s[i].0) && m.dom().contains(s[i].0) && s[i].1 == m[s[i].0]
    &&& forall|u: Seq<char>| #[trigger] keys.contains(u) ==> exists|i: int| 0 <= i < s.len() && #[trigger] s[i].0 == u
}

/// Overwriting the value of a listed key keeps the listing.
pub proof fn lemma_lists_update<V>(v: Seq<(Seq<char>, V)>, m: Map<Seq<char>, V>, k: int, t: V)
    requires
        lists(v, m.dom(), m),
        0 <= k < v.len(),
    ensures
        lists(v.update(k, (v[k].0, t)), m.insert(v[k].0, t).dom(), m.insert(v[k].0, t)),
{
    let u = v[k].0;
    let w = v.update(k, (u, t));
    let m2 = m.insert(u, t);
    assert(m2.dom() =~= m.dom());
    assert forall|i: int| 0 <= i < w.len() implies m2.dom().contains(#[trigger] w[i].0) && w[i].1 == m2[w[i].0] by {
        if i != k {
            if i < k {
                assert(text_lt(v[i].0, v[k].0));
            } else {
                assert(text_lt(v[k].0, v[i].0));
            }
            lemma_text_lt_asym(v[i].0, v[k].0);
        }
    }
    assert forall|x: Seq<char>| #[trigger] m2.dom().contains(x) implies exists|i: int| 0 <= i < w.len() && #[trigger] w[i].0 == x by {
        assert(m.dom().contains(x));
        let i = choose|i: int| 0 <= i < v.len() && #[trigger] v[i].0 == x;
        assert(w[i].0 == x);
    }
    assert forall|i: int, j: int| 0 <= i < j < w.len() implies text_lt(#[trigger] w[i].0, #[trigger] w[j].0) by {
        assert(text_lt(v[i].0, v[j].0));
    }
}

/// Inserting a new key at its place in the order keeps the listing.
pub proof fn lemma_lists_insert<V>(v: Seq<(Seq<char>, V)>, m: Map<Seq<char>, V>, k: int, u: Seq<char>, t: V)
    requires
        lists(v, m.dom(), m),
        0 <= k <= v.len(),
        forall|a: int| 0 <= a < k ==> text_lt(#[trigger] v[a].0, u),
        k < v.len() ==> text_lt(u, v[k].0),
    ensures
        lists(v.insert(k, (u, t)), m.insert(u, t).dom(), m.insert(u, t)),
{
    let w = v.insert(k, (u, t));
    let m2 = m.insert(u, t);
    assert forall|i: int| 0 <= i < v.len() implies #[trigger] v[i].0 != u by {
        lemma_text_lt_asym(v[i].0, u);
        if i > k {
            assert(text_lt(v[k].0, v[i].0));
            lemma_text_lt_trans(u, v[k].0, v[i].0);
            lemma_text_lt_asym(u, v[i].0);
        } else if i == k {
            lemma_text_lt_asym(u, v[k].0);
        }
    }
    assert forall|i: int, j: int| 0 <= i < j < w.len() implies text_lt(#[trigger] w[i].0, #[trigger] w[j].0) by {
        if j < k {
            assert(text_lt(v[i].0, v[j].0));
        } else if j == k {
            assert(w[j].0 == u);
        } else if i < k {
            assert(w[j].0 == v[j - 1].0);
            assert(text_lt(v[i].0, u));
            if j - 1 == k {
                lemma_text_lt_trans(v[i].0, u, v[k].0);
            } else {
                assert(text_lt(v[k].0, v[j - 1].0));
                lemma_text_lt_trans(u, v[k].0, v[j - 1].0);
                lemma_text_lt_trans(v[i].0, u, v[j - 1].0);
            }
        } else if i == k {
            assert(w[j].0 == v[j - 1].0);
            if j - 1 > k {
                assert(text_lt(v[k].0, v[j - 1].0));
                lemma_text_lt_trans(u, v[k].0, v[j - 1].0);
            }
        } else {
            assert(text_lt(v[i - 1].0, v[j - 1].0));
        }
    }
    assert forall|i: int| 0 <= i < w.len() implies m2.dom().contains(#[trigger] w[i].0) && w[i].1 == m2[w[i].0] by {
        if i < k {
            assert(w[i] == v[i]);
        } else if i > k {
            assert(w[i] == v[i - 1]);
        }
    }
    assert forall|x: Seq<char>| #[trigger] m2.dom().contains(x) implies exists|i: int| 0 <= i < w.len() && #[trigger] w[i].0 == x by {
        if x == u {
            assert(w[k].0 == u);
        } else {
            assert(m.dom().contains(x));
            let i = choose|i: int| 0 <= i < v.len() && #[trigger] v[i].0 == x;
            if i < k {
                assert(w[i].0 == x);
            } else {
                assert(w[i + 1].0 == x);
            }
        }
    }
}

} // verus!

//! Node ids listed in document order, and what their distinctness gives:
//! a tree whose ids, listed, have no repeats has an id of its own at every
//! node.
use vstd::prelude::*;
use crate::model::node::{FolderV, NodeId, NodeV};
use crate::model::tree::{id_at, ids_below, lemma_id_at_child, unique_ids};

verus! {

/// The ids of `n` and of every node below it, the node's own first.
pub open spec fn node_ids(n: NodeV) -> Seq<NodeId>
    decreases n, 1int,
{
    match n {
        NodeV::Folder(g) => seq![g.id] + forest_ids(g.children),
        _ => seq![n.id()],
    }
}

/// The ids of the nodes among `ns` and below them, in document order.
pub open spec fn forest_ids(ns: Seq<NodeV>) -> Seq<NodeId>
    decreases ns, 0int,
{
    if ns.len() == 0 {
        Seq::empty()
    } else {
        node_ids(ns[0]) + forest_ids(ns.subrange(1, ns.len() as int))
    }
}

/// The ids of a folder and of everything below it.
pub open spec fn tree_ids(f: FolderV) -> Seq<NodeId> {
    seq![f.id] + forest_ids(f.children)
}

/// The ids below the `j`-th node of `ns` sit, in order, after those of the
/// nodes before it.
pub proof fn lemma_forest_at(ns: Seq<NodeV>, j: int)
    requires
        0 <= j < ns.len(),
    ensures
        forest_ids(ns) == forest_ids(ns.take(j)) + node_ids(ns[j]) + forest_ids(ns.skip(j + 1)),
    decreases j,
{
    let t = ns.subrange(1, ns.len() as int);
    if j == 0 {
        assert(ns.take(0) =~= Seq::<NodeV>::empty());
        assert(ns.skip(1) =~= t);
        assert(forest_ids(ns.take(0)) =~= Seq::<NodeId>::empty());
        assert(Seq::<NodeId>::empty() + node_ids(ns[0]) =~= node_ids(ns[0]));
    } else {
        lemma_forest_at(t, j - 1);
        assert(t[j - 1] == ns[j]);
        assert(t.skip(j) =~= ns.skip(j + 1));
        let h = ns.take(j);
        assert(h.len() > 0 && h[0] == ns[0]);
        assert(h.subrange(1, h.len() as int) =~= t.take(j - 1));
        assert(forest_ids(h) == node_ids(ns[0]) + forest_ids(t.take(j - 1)));
        assert(forest_ids(ns) =~= forest_ids(h) + node_ids(ns[j]) + forest_ids(ns.skip(j + 1)));
    }
}

/// Every id of `s` lies in `lo..hi` and none repeats.
pub open spec fn fresh_in(s: Seq<NodeId>, lo: int, hi: int) -> bool {
    &&& s.no_duplicates()
    &&& forall|i: int| 0 <= i < s.len() ==> lo <= #[trigger] s[i] < hi
}

/// Ids drawn from two ranges that do not overlap stay distinct together.
pub proof fn lemma_fresh_join(a: Seq<NodeId>, b: Seq<NodeId>, la: int, ha: int, lb: int, hb: int, lo: int, hi: int)
    requires
        fresh_in(a, la, ha),
        fresh_in(b, lb, hb),
        ha <= lb || hb <= la,
        lo <= la,
        lo <= lb,
        ha <= hi,
        hb <= hi,
    ensures
        fresh_in(a + b, lo, hi),
{
    let s = a + b;
    assert forall|i: int, j: int| 0 <= i < s.len() && 0 <= j < s.len() && i != j implies s[i] != s[j] by {
        if i < a.len() && j >= a.len() {
            assert(s[i] == a[i] && s[j] == b[j - a.len()]);
        } else if j < a.len() && i >= a.len() {
            assert(s[j] == a[j] && s[i] == b[i - a.len()]);
        } else if i < a.len() {
            assert(s[i] == a[i] && s[j] == a[j]);
        } else {
            assert(s[i] == b[i - a.len()] && s[j] == b[j - a.len()]);
        }
    }
    assert forall|i: int| 0 <= i < s.len() implies lo <= #[trigger] s[i] < hi by {
        if i < a.len() {
            assert(s[i] == a[i]);
        } else {
            assert(s[i] == b[i - a.len()]);
        }
    }
}

/// The ids of a node put before some nodes are its own, then theirs.
pub proof fn lemma_forest_cons(x: NodeV, r: Seq<NodeV>)
    ensures
        forest_ids(seq![x] + r) == node_ids(x) + forest_ids(r),
{
    let s = seq![x] + r;
    assert(s[0] == x);
    assert(s.subrange(1, s.len() as int) =~= r);
}

/// The ids of two runs of nodes are those of the first, then the second's.
pub proof fn lemma_forest_concat(a: Seq<NodeV>, b: Seq<NodeV>)
    ensures
        forest_ids(a + b) == forest_ids(a) + forest_ids(b),
    decreases a.len(),
{
    if a.len() == 0 {
        assert(a + b =~= b);
        assert(forest_ids(a) =~= Seq::<NodeId>::empty());
        assert(Seq::<NodeId>::empty() + forest_ids(b) =~= forest_ids(b));
    } else {
        let t = a.subrange(1, a.len() as int);
        lemma_forest_concat(t, b);
        assert((a + b)[0] == a[0]);
        assert((a + b).subrange(1, (a + b).len() as int) =~= t + b);
        assert(node_ids(a[0]) + (forest_ids(t) + forest_ids(b)) =~= (node_ids(a[0]) + forest_ids(t)) + forest_ids(b));
    }
}

/// A single id is fresh in its own one-wide range.
pub proof fn lemma_fresh_one(x: NodeId)
    ensures
        fresh_in(seq![x], x as int, x + 1int),
{
}

/// No id of `a` is an id of `b`.
pub open spec fn apart(a: Seq<NodeId>, b: Seq<NodeId>) -> bool {
    forall|x: NodeId| a.contains(x) ==> !b.contains(x)
}

/// The ids of two lists together are those of one or the other.
pub proof fn lemma_concat_contains(a: Seq<NodeId>, b: Seq<NodeId>)
    ensures
        forall|x: NodeId| #[trigger] (a + b).contains(x) <==> a.contains(x) || b.contains(x),
{
    let s = a + b;
    assert forall|x: NodeId| #[trigger] s.contains(x) <==> a.contains(x) || b.contains(x) by {
        if s.contains(x) {
            let i = choose|i: int| 0 <= i < s.len() && s[i] == x;
            if i < a.len() {
                assert(a[i] == x);
            } else {
                assert(b[i - a.len()] == x);
            }
        }
        if a.contains(x) {
            let i = choose|i: int| 0 <= i < a.len() && a[i] == x;
            assert(s[i] == x);
        }
        if b.contains(x) {
            let i = choose|i: int| 0 <= i < b.len() && b[i] == x;
            assert(s[a.len() + i] == x);
        }
    }
}

/// A list without repeats splits into two without repeats and apart.
pub proof fn lemma_distinct_split(a: Seq<NodeId>, b: Seq<NodeId>)
    requires
        (a + b).no_duplicates(),
    ensures
        a.no_duplicates(),
        b.no_duplicates(),
        apart(a, b),
{
    let s = a + b;
    assert forall|i: int, j: int| 0 <= i < a.len() && 0 <= j < a.len() && i != j implies a[i] != a[j] by {
        assert(s[i] == a[i] && s[j] == a[j]);
    }
    assert forall|i: int, j: int| 0 <= i < b.len() && 0 <= j < b.len() && i != j implies b[i] != b[j] by {
        assert(s[a.len() + i] == b[i] && s[a.len() + j] == b[j]);
    }
    assert forall|x: NodeId| a.contains(x) implies !b.contains(x) by {
        let i = choose|i: int| 0 <= i < a.len() && a[i] == x;
        if b.contains(x) {
            let j = choose|j: int| 0 <= j < b.len() && b[j] == x;
            assert(s[i] == x && s[a.len() + j] == x);
        }
    }
}

/// Putting `y` in place of the `i`-th of `cs`, where `y` holds only ids of
/// the node it replaces or of `extra`, ids that `cs` lacks, keeps the ids
/// of `cs` without repeats.
pub proof fn lemma_update_ids(cs: Seq<NodeV>, i: int, y: NodeV, extra: Seq<NodeId>)
    requires
        0 <= i < cs.len(),
        forest_ids(cs).no_duplicates(),
        node_ids(y).no_duplicates(),
        forall|x: NodeId| #[trigger] node_ids(y).contains(x) ==> node_ids(cs[i]).contains(x) || extra.contains(x),
        apart(forest_ids(cs), extra),
    ensures
        forest_ids(cs.update(i, y)).no_duplicates(),
        forall|x: NodeId| #[trigger] forest_ids(cs.update(i, y)).contains(x) ==> forest_ids(cs).contains(x) || extra.contains(x),
{
    let u = cs.update(i, y);
    lemma_forest_at(cs, i);
    lemma_forest_at(u, i);
    assert(u.take(i) =~= cs.take(i));
    assert(u.skip(i + 1) =~= cs.skip(i + 1));
    let a = forest_ids(cs.take(i));
    let b = forest_ids(cs.skip(i + 1));
    let c = node_ids(cs[i]);
    let yi = node_ids(y);
    lemma_distinct_split(a + c, b);
    lemma_distinct_split(a, c);
    lemma_concat_contains(a + c, b);
    lemma_concat_contains(a, c);
    assert(apart(a, yi)) by {
        assert forall|x: NodeId| a.contains(x) implies !yi.contains(x) by {
            assert((a + c).contains(x));
            assert(forest_ids(cs).contains(x));
        }
    }
    lemma_distinct_concat(a, yi);
    assert(apart(a + yi, b)) by {
        assert forall|x: NodeId| (a + yi).contains(x) implies !b.contains(x) by {
            if b.contains(x) {
                assert(forest_ids(cs).contains(x));
                if yi.contains(x) {
                    assert(!extra.contains(x));
                    assert(c.contains(x));
                    assert((a + c).contains(x));
                }
            }
        }
    }
    lemma_distinct_concat(a + yi, b);
    assert forall|x: NodeId| #[trigger] forest_ids(u).contains(x) implies forest_ids(cs).contains(x) || extra.contains(x) by {
        if (a + yi).contains(x) {
            if a.contains(x) {
                assert((a + c).contains(x));
            } else if c.contains(x) {
                assert((a + c).contains(x));
            }
        }
    }
}

/// Two lists of ids without repeats and with no id in common have no
/// repeats together, and hold exactly the ids of both.
pub proof fn lemma_distinct_concat(a: Seq<NodeId>, b: Seq<NodeId>)
    requires
        a.no_duplicates(),
        b.no_duplicates(),
        forall|x: NodeId| a.contains(x) ==> !b.contains(x),
    ensures
        (a + b).no_duplicates(),
        forall|x: NodeId| #[trigger] (a + b).contains(x) <==> a.contains(x) || b.contains(x),
{
    let s = a + b;
    assert forall|i: int, j: int| 0 <= i < s.len() && 0 <= j < s.len() && i != j implies s[i] != s[j] by {
        if i < a.len() && j >= a.len() {
            assert(s[i] == a[i] && s[j] == b[j - a.len()]);
            assert(a.contains(s[i]) && b.contains(s[j]));
        } else if j < a.len() && i >= a.len() {
            assert(s[j] == a[j] && s[i] == b[i - a.len()]);
            assert(a.contains(s[j]) && b.contains(s[i]));
        } else if i < a.len() {
            assert(s[i] == a[i] && s[j] == a[j]);
        } else {
            assert(s[i] == b[i - a.len()] && s[j] == b[j - a.len()]);
        }
    }
    assert forall|x: NodeId| #[trigger] s.contains(x) <==> a.contains(x) || b.contains(x) by {
        if s.contains(x) {
            let i = choose|i: int| 0 <= i < s.len() && s[i] == x;
            if i < a.len() {
                assert(a[i] == x);
            } else {
                assert(b[i - a.len()] == x);
            }
        }
        if a.contains(x) {
            let i = choose|i: int| 0 <= i < a.len() && a[i] == x;
            assert(s[i] == x);
        }
        if b.contains(x) {
            let i = choose|i: int| 0 <= i < b.len() && b[i] == x;
            assert(s[a.len() + i] == x);
        }
    }
}

/// Where the node that `p` names is listed in `tree_ids(f)`.
pub open spec fn path_pos(f: FolderV, p: Seq<int>) -> int
    decreases p.len(),
{
    if p.len() == 0 {
        0
    } else if 0 <= p[0] < f.children.len() {
        1 + forest_ids(f.children.take(p[0])).len() + match f.children[p[0]] {
            NodeV::Folder(c) => path_pos(c, p.subrange(1, p.len() as int)),
            _ => 0,
        }
    } else {
        0
    }
}

/// The node that a path names is listed at `path_pos`.
proof fn lemma_path_pos(f: FolderV, p: Seq<int>)
    requires
        id_at(f, p) is Some,
    ensures
        0 <= path_pos(f, p) < tree_ids(f).len(),
        tree_ids(f)[path_pos(f, p)] == id_at(f, p)->0,
    decreases p.len(),
{
    if p.len() > 0 {
        let j = p[0];
        let r = p.subrange(1, p.len() as int);
        assert(p =~= seq![j] + r);
        assert(0 <= j < f.children.len());
        lemma_id_at_child(f, j, r);
        let c = f.children[j];
        lemma_forest_at(f.children, j);
        let o = forest_ids(f.children.take(j)).len() as int;
        match c {
            NodeV::Folder(g) => {
                lemma_path_pos(g, r);
                assert(node_ids(c) == tree_ids(g));
                assert(tree_ids(f)[1 + o + path_pos(g, r)] == node_ids(c)[path_pos(g, r)]);
            },
            _ => {
                assert(tree_ids(f)[1 + o] == node_ids(c)[0]);
            },
        }
    }
}

/// Two paths that name nodes listed at one place are the same path.
proof fn lemma_path_pos_injective(f: FolderV, p: Seq<int>, q: Seq<int>)
    requires
        id_at(f, p) is Some,
        id_at(f, q) is Some,
        path_pos(f, p) == path_pos(f, q),
    ensures
        p == q,
    decreases p.len(),
{
    lemma_path_pos(f, p);
    lemma_path_pos(f, q);
    if p.len() > 0 && q.len() > 0 {
        let j = p[0];
        let k = q[0];
        let rp = p.subrange(1, p.len() as int);
        let rq = q.subrange(1, q.len() as int);
        assert(p =~= seq![j] + rp);
        assert(q =~= seq![k] + rq);
        lemma_id_at_child(f, j, rp);
        lemma_id_at_child(f, k, rq);
        if j == k {
            if let NodeV::Folder(g) = f.children[j] {
                lemma_path_pos_injective(g, rp, rq);
            } else {
                assert(rp.len() == 0 && rq.len() == 0);
                assert(rp =~= rq);
            }
            assert(p =~= q);
        } else {
            let (a, ra, b, rb) = if j < k { (j, rp, k, rq) } else { (k, rq, j, rp) };
            let ca = f.children[a];
            let pa = match ca {
                NodeV::Folder(g) => path_pos(g, ra),
                _ => 0,
            };
            assert(pa < node_ids(ca).len()) by {
                if let NodeV::Folder(g) = ca {
                    lemma_path_pos(g, ra);
                }
            }
            if let NodeV::Folder(g) = f.children[b] {
                lemma_path_pos(g, rb);
            }
            let tk = f.children.take(b);
            lemma_forest_at(tk, a);
            assert(tk.take(a) =~= f.children.take(a));
            assert(tk[a] == ca);
            assert(forest_ids(tk).len() >= forest_ids(f.children.take(a)).len() + node_ids(ca).len());
        }
    } else if p.len() > 0 {
        if let NodeV::Folder(g) = f.children[p[0]] {
            lemma_path_pos(g, p.subrange(1, p.len() as int));
        }
        assert(0 <= p[0] < f.children.len()) by {
            lemma_id_at_child(f, p[0], p.subrange(1, p.len() as int));
            assert(p =~= seq![p[0]] + p.subrange(1, p.len() as int));
        }
    } else if q.len() > 0 {
        if let NodeV::Folder(g) = f.children[q[0]] {
            lemma_path_pos(g, q.subrange(1, q.len() as int));
        }
        assert(0 <= q[0] < f.children.len()) by {
            lemma_id_at_child(f, q[0], q.subrange(1, q.len() as int));
            assert(q =~= seq![q[0]] + q.subrange(1, q.len() as int));
        }
    }
}

/// A tree whose listed ids have no repeats has an id of its own at every
/// node, and every id it holds is listed.
pub proof fn lemma_distinct_ids_unique(f: FolderV, bound: int)
    requires
        tree_ids(f).no_duplicates(),
        forall|i: int| 0 <= i < tree_ids(f).len() ==> tree_ids(f)[i] < bound,
    ensures
        unique_ids(f),
        ids_below(f, bound),
{
    assert forall|p: Seq<int>, q: Seq<int>|
        #![trigger id_at(f, p), id_at(f, q)]
        id_at(f, p) is Some && id_at(f, p) == id_at(f, q) implies p == q by {
        lemma_path_pos(f, p);
        lemma_path_pos(f, q);
        lemma_path_pos_injective(f, p, q);
    }
    assert forall|p: Seq<int>| #[trigger] id_at(f, p) is Some implies id_at(f, p)->0 < bound by {
        lemma_path_pos(f, p);
    }
}

} // verus!

//! Finding nodes by id, and replacing a folder somewhere in a tree.
use vstd::prelude::*;
use crate::model::attrs::attr_map_new;
use crate::model::node::{lemma_folder_v, lemma_nodes_v, node_v, nodes_v, Folder, FolderV, Node, NodeId, NodeV};
use crate::model::tree::{
    contains_id, first_from, first_path, folder_at, id_at, ipath, lemma_id_at_child, with_folder_at,
};

verus! {

broadcast use {lemma_nodes_v, lemma_folder_v};

/// A path from `f` to a node (or `f` itself) whose id is `id`; `None` when
/// the tree holds no such node.
pub fn find_path(f: &Folder, id: NodeId) -> (r: Option<Vec<usize>>)
    ensures
        match r {
            Some(p) => id_at(f@, ipath(p@)) == Some(id) && first_path(f@, id) == Some(ipath(p@)),
            None => !contains_id(f@, id) && first_path(f@, id) is None,
        },
    decreases f,
{
    if f.id == id {
        let p: Vec<usize> = Vec::new();
        assert(ipath(p@) =~= Seq::<int>::empty());
        return Some(p);
    }
    let n = f.children.len();
    let mut i: usize = 0;
    while i < n
        invariant
            n == f.children.len(),
            i <= n,
            f.id != id,
            first_path(f@, id) == first_from(f@.children, id, i as int),
            forall|j: int, s: Seq<int>|
                #![trigger id_at(f@, seq![j] + s)]
                0 <= j < i ==> id_at(f@, seq![j] + s) != Some(id),
        decreases n - i,
    {
        let child = &f.children[i];
        proof {
            assert(f@.children[i as int] == node_v(f.children@[i as int]));
        }
        match child {
            Node::Folder(c) => {
                proof {
                    assert(decreases_to!(f => f.children));
                    assert(decreases_to!(f.children => f.children@));
                    assert(decreases_to!(f.children@ => f.children@[i as int]));
                }
                match find_path(c, id) {
                    Some(mut p) => {
                        let ghost old_p = p@;
                        p.insert(0, i);
                        proof {
                            lemma_id_at_child(f@, i as int, ipath(old_p));
                            assert(ipath(p@) =~= seq![i as int] + ipath(old_p));
                        }
                        return Some(p);
                    },
                    None => {
                        proof {
                            assert forall|s: Seq<int>| id_at(f@, #[trigger] (seq![i as int] + s)) != Some(id) by {
                                lemma_id_at_child(f@, i as int, s);
                                if id_at(c@, s) == Some(id) {
                                    assert(contains_id(c@, id));
                                }
                            }
                        }
                    },
                }
            },
            _ => {
                if child.id() == id {
                    let p: Vec<usize> = vec![i];
                    proof {
                        lemma_id_at_child(f@, i as int, Seq::empty());
                        assert(ipath(p@) =~= seq![i as int] + Seq::<int>::empty());
                    }
                    return Some(p);
                }
                proof {
                    assert forall|s: Seq<int>| id_at(f@, #[trigger] (seq![i as int] + s)) != Some(id) by {
                        lemma_id_at_child(f@, i as int, s);
                    }
                }
            },
        }
        i += 1;
    }
    proof {
        assert forall|p: Seq<int>| id_at(f@, p) != Some(id) by {
            if p.len() > 0 && 0 <= p[0] < n {
                let s = p.subrange(1, p.len() as int);
                assert(p =~= seq![p[0]] + s);
            }
        }
    }
    None
}

} // verus!

verus! {

/// An empty, unnamed folder with id 0.
pub fn placeholder_folder() -> (r: Folder)
    ensures
        r@ == (FolderV {
            id: 0,
            name: Seq::empty(),
            add_date: None,
            last_modified: None,
            is_toolbar: false,
            attrs: Seq::empty(),
            children: Seq::empty(),
        }),
{
    let r = Folder {
        id: 0,
        name: String::new(),
        add_date: None,
        last_modified: None,
        is_toolbar: false,
        attrs: attr_map_new(),
        children: Vec::new(),
    };
    proof {
        assert(r@.children == nodes_v(r.children@));
        assert(r@ =~= (FolderV {
            id: 0,
            name: Seq::empty(),
            add_date: None,
            last_modified: None,
            is_toolbar: false,
            attrs: Seq::empty(),
            children: Seq::empty(),
        }));
    }
    r
}

/// Put `g` in place of the folder at `path[k..]` and return the folder that
/// was there.
pub fn swap_folder_at(f: &mut Folder, path: &Vec<usize>, k: usize, g: Folder) -> (r: Folder)
    requires
        k <= path.len(),
        folder_at(old(f)@, ipath(path@).subrange(k as int, path.len() as int)) is Some,
    ensures
        r@ == folder_at(old(f)@, ipath(path@).subrange(k as int, path.len() as int))->0,
        final(f)@ == with_folder_at(old(f)@, ipath(path@).subrange(k as int, path.len() as int), g@),
    decreases path.len() - k,
{
    let ghost q = ipath(path@).subrange(k as int, path.len() as int);
    if k == path.len() {
        let mut g = g;
        std::mem::swap(f, &mut g);
        return g;
    }
    let i = path[k];
    proof {
        assert(q[0] == i as int);
        assert(q.subrange(1, q.len() as int) =~= ipath(path@).subrange(k + 1, path.len() as int));
    }
    let ghost old_children = f.children@;
    let child = f.children.remove(i);
    match child {
        Node::Folder(mut c) => {
            let r = swap_folder_at(&mut c, path, k + 1, g);
            f.children.insert(i, Node::Folder(c));
            proof {
                let new_children = old_children.update(i as int, Node::Folder(c));
                assert(f.children@ =~= new_children);
                assert(nodes_v(new_children) =~= nodes_v(old_children).update(i as int, node_v(Node::Folder(c))));
                assert(f@ =~= with_folder_at(old(f)@, q, g@));
            }
            r
        },
        other => {
            f.children.insert(i, other);
            proof {
                assert(false);
            }
            g
        },
    }
}

} // verus!

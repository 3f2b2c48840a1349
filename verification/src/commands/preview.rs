//! The review of a change set: each proposed change with its field, its
//! before and after texts and their character diff, and the node it
//! touches (title, URL and the folders above it).
use vstd::prelude::*;
use crate::commands::search::holds_id;
use crate::commands::types::{ChangeEntry, ChangeSetId, ChangeSetPreview, DiffSpan as PreviewSpan, DiffTag as PreviewTag};
use crate::model::document::Field;
use crate::model::node::{lemma_folder_v, lemma_nodes_v, node_v, Folder, FolderV, Node, NodeId, NodeV};
use crate::sanitize::diff::{char_diff, diff_of, spans_v, DiffSpan, DiffTag};
use crate::sanitize::treatment::{changes_v, Change, ChangeKind, ChangeKindV, ChangeSet, ChangeV};
use crate::search::index::{increasing, insert_id};
use crate::urls::opt_view;

verus! {

broadcast use {lemma_nodes_v, lemma_folder_v};

/// What the review shows about the node a change touches.
pub struct NodeContext {
    pub title: String,
    pub url: Option<String>,
    /// Names of the folders from below the root down to the node's parent.
    pub location: Vec<String>,
}

pub struct ContextV {
    pub title: Seq<char>,
    pub url: Option<Seq<char>>,
    pub location: Seq<Seq<char>>,
}

pub open spec fn names_v(v: Seq<String>) -> Seq<Seq<char>> {
    v.map_values(|s: String| s@)
}

impl View for NodeContext {
    type V = ContextV;

    open spec fn view(&self) -> ContextV {
        ContextV { title: self.title@, url: opt_view(self.url), location: names_v(self.location@) }
    }
}

/// The context of node `n` below the folders named `path`.
pub open spec fn context_of(n: NodeV, path: Seq<Seq<char>>) -> ContextV {
    match n {
        NodeV::Bookmark(b) => ContextV { title: b.title, url: Some(b.url.text()), location: path },
        NodeV::Folder(f) => ContextV { title: f.name, url: None, location: path },
        NodeV::Separator(_) => ContextV { title: Seq::empty(), url: None, location: path },
    }
}

/// The context of every node among `ns` and below them, in document order.
pub open spec fn contexts_in(ns: Seq<NodeV>, path: Seq<Seq<char>>) -> Seq<(NodeId, ContextV)>
    decreases ns,
{
    if ns.len() == 0 {
        Seq::empty()
    } else {
        let rest = contexts_in(ns.subrange(0, ns.len() - 1), path);
        let n = ns[ns.len() - 1];
        let own = rest.push((n.id(), context_of(n, path)));
        match n {
            NodeV::Folder(f) => own + contexts_in(f.children, path.push(f.name)),
            _ => own,
        }
    }
}

/// The context of the last node with id `id`.
pub open spec fn last_context(cs: Seq<(NodeId, ContextV)>, id: NodeId) -> Option<ContextV>
    decreases cs.len(),
{
    if cs.len() == 0 {
        None
    } else if cs.last().0 == id {
        Some(cs.last().1)
    } else {
        last_context(cs.drop_last(), id)
    }
}

pub open spec fn ctx_list_v(v: Seq<(NodeId, NodeContext)>) -> Seq<(NodeId, ContextV)> {
    v.map_values(|e: (NodeId, NodeContext)| (e.0, e.1@))
}

/// The listing `v` holds, once each, the wanted ids met in `done`, each
/// with its last context there.
pub open spec fn holds_contexts(v: Seq<(NodeId, ContextV)>, wanted: Seq<NodeId>, done: Seq<(NodeId, ContextV)>) -> bool {
    &&& forall|a: int, b: int| 0 <= a < b < v.len() ==> #[trigger] v[a].0 != #[trigger] v[b].0
    &&& forall|a: int| 0 <= a < v.len() ==> wanted.contains(#[trigger] v[a].0)
    &&& forall|id: NodeId| wanted.contains(id) ==> #[trigger] last_context(v, id) == last_context(done, id)
}

proof fn lemma_last_context_distinct(v: Seq<(NodeId, ContextV)>, id: NodeId, k: int)
    requires
        forall|a: int, b: int| 0 <= a < b < v.len() ==> #[trigger] v[a].0 != #[trigger] v[b].0,
        0 <= k < v.len(),
        v[k].0 == id,
    ensures
        last_context(v, id) == Some(v[k].1),
    decreases v.len(),
{
    if k < v.len() - 1 {
        assert(v[v.len() - 1].0 != id);
        lemma_last_context_distinct(v.drop_last(), id, k);
    }
}

proof fn lemma_last_context_absent(v: Seq<(NodeId, ContextV)>, id: NodeId)
    requires
        forall|a: int| 0 <= a < v.len() ==> #[trigger] v[a].0 != id,
    ensures
        last_context(v, id) is None,
    decreases v.len(),
{
    if v.len() > 0 {
        lemma_last_context_absent(v.drop_last(), id);
    }
}

proof fn lemma_last_context_concat(a: Seq<(NodeId, ContextV)>, b: Seq<(NodeId, ContextV)>, id: NodeId)
    ensures
        last_context(a + b, id) == (match last_context(b, id) {
            Some(c) => Some(c),
            None => last_context(a, id),
        }),
    decreases b.len(),
{
    if b.len() == 0 {
        assert(a + b =~= a);
    } else {
        assert((a + b).drop_last() =~= a + b.drop_last());
        lemma_last_context_concat(a, b.drop_last(), id);
    }
}

fn context_for(n: &Node, path: &Vec<String>) -> (r: NodeContext)
    ensures
        r@ == context_of(n@, names_v(path@)),
{
    let location = copy_names(path);
    match n {
        Node::Bookmark(b) => NodeContext { title: b.title.clone(), url: Some(b.url.as_str().to_owned()), location },
        Node::Folder(f) => NodeContext { title: f.name.clone(), url: None, location },
        Node::Separator(_) => NodeContext { title: String::new(), url: None, location },
    }
}

fn copy_names(v: &Vec<String>) -> (r: Vec<String>)
    ensures
        names_v(r@) == names_v(v@),
{
    let mut out: Vec<String> = Vec::new();
    let mut i: usize = 0;
    while i < v.len()
        invariant
            i <= v.len(),
            out@.len() == i,
            names_v(out@) == names_v(v@).take(i as int),
        decreases v.len() - i,
    {
        let x = v[i].as_str().to_owned();
        let ghost before = out@;
        out.push(x);
        proof {
            assert(out@ == before.push(x));
            assert(names_v(out@)[i as int] == x@);
            assert(names_v(v@)[i as int] == v@[i as int]@);
            assert(names_v(out@) =~= names_v(v@).take(i + 1));
        }
        i += 1;
    }
    proof {
        assert(names_v(v@).take(v.len() as int) =~= names_v(v@));
    }
    out
}

/// Record context `c` for `id` in the listing.
fn record(out: &mut Vec<(NodeId, NodeContext)>, id: NodeId, c: NodeContext, Ghost(wanted): Ghost<Seq<NodeId>>, Ghost(done): Ghost<Seq<(NodeId, ContextV)>>)
    requires
        holds_contexts(ctx_list_v(old(out)@), wanted, done),
        wanted.contains(id),
    ensures
        holds_contexts(ctx_list_v(final(out)@), wanted, done.push((id, c@))),
{
    let ghost v = ctx_list_v(out@);
    let ghost cv = c@;
    let ghost d2 = done.push((id, cv));
    let mut k: usize = 0;
    while k < out.len() && out[k].0 != id
        invariant
            v == ctx_list_v(out@),
            k <= out.len(),
            forall|a: int| 0 <= a < k ==> #[trigger] v[a].0 != id,
        decreases out.len() - k,
    {
        k += 1;
    }
    proof {
        assert(d2.drop_last() =~= done);
    }
    if k < out.len() {
        out.set(k, (id, c));
        proof {
            let w = ctx_list_v(out@);
            assert(w =~= v.update(k as int, (id, cv)));
            assert(v[k as int].0 == id);
            assert forall|a: int, b: int| 0 <= a < b < w.len() implies #[trigger] w[a].0 != #[trigger] w[b].0 by {
                assert(w[a].0 == v[a].0);
                assert(w[b].0 == v[b].0);
            }
            assert forall|a: int| 0 <= a < w.len() implies wanted.contains(#[trigger] w[a].0) by {
                assert(w[a].0 == v[a].0);
            }
            assert forall|x: NodeId| wanted.contains(x) implies #[trigger] last_context(w, x) == last_context(d2, x) by {
                if x == id {
                    lemma_last_context_distinct(w, x, k as int);
                } else {
                    if exists|a: int| 0 <= a < v.len() && v[a].0 == x {
                        let a = choose|a: int| 0 <= a < v.len() && v[a].0 == x;
                        assert(a != k);
                        assert(w[a] == v[a]);
                        lemma_last_context_distinct(v, x, a);
                        lemma_last_context_distinct(w, x, a);
                    } else {
                        lemma_last_context_absent(v, x);
                        assert forall|a: int| 0 <= a < w.len() implies #[trigger] w[a].0 != x by {
                            assert(w[a].0 == v[a].0);
                        }
                        lemma_last_context_absent(w, x);
                    }
                }
            }
        }
    } else {
        out.push((id, c));
        proof {
            let w = ctx_list_v(out@);
            assert(w =~= v.push((id, cv)));
            assert(w.drop_last() =~= v);
            assert forall|a: int, b: int| 0 <= a < b < w.len() implies #[trigger] w[a].0 != #[trigger] w[b].0 by {
                if b == v.len() {
                    assert(w[a].0 == v[a].0);
                } else {
                    assert(w[a].0 == v[a].0);
                    assert(w[b].0 == v[b].0);
                }
            }
            assert forall|a: int| 0 <= a < w.len() implies wanted.contains(#[trigger] w[a].0) by {
                if a < v.len() {
                    assert(w[a].0 == v[a].0);
                }
            }
            assert forall|x: NodeId| wanted.contains(x) implies #[trigger] last_context(w, x) == last_context(d2, x) by {
                if x != id {
                    assert(last_context(w, x) == last_context(v, x));
                    assert(last_context(d2, x) == last_context(done, x));
                }
            }
        }
    }
}

/// Record the contexts of the wanted nodes among `folder`'s children and
/// below them (`path` names the folders down to `folder`).
fn collect_contexts(
    folder: &Folder,
    path: &mut Vec<String>,
    wanted: &Vec<NodeId>,
    out: &mut Vec<(NodeId, NodeContext)>,
    Ghost(done): Ghost<Seq<(NodeId, ContextV)>>,
)
    requires
        increasing(wanted@),
        holds_contexts(ctx_list_v(old(out)@), wanted@, done),
    ensures
        names_v(final(path)@) == names_v(old(path)@),
        holds_contexts(ctx_list_v(final(out)@), wanted@, done + contexts_in(folder@.children, names_v(old(path)@))),
    decreases folder,
{
    let ghost cs = folder@.children;
    let ghost p = names_v(path@);
    let mut i: usize = 0;
    proof {
        assert(cs.subrange(0, 0) =~= Seq::<NodeV>::empty());
        assert(done + contexts_in(cs.subrange(0, 0), p) =~= done);
    }
    while i < folder.children.len()
        invariant
            cs == folder@.children,
            increasing(wanted@),
            names_v(path@) == p,
            i <= folder.children.len(),
            holds_contexts(ctx_list_v(out@), wanted@, done + contexts_in(cs.subrange(0, i as int), p)),
        decreases folder.children.len() - i,
    {
        proof {
            assert(cs.subrange(0, i + 1).subrange(0, i as int) =~= cs.subrange(0, i as int));
            assert(cs[i as int] == node_v(folder.children@[i as int]));
        }
        let ghost before = done + contexts_in(cs.subrange(0, i as int), p);
        let ghost own = before.push((cs[i as int].id(), context_of(cs[i as int], p)));
        let child = &folder.children[i];
        if holds_id(wanted, child.id()) {
            let c = context_for(child, path);
            record(out, child.id(), c, Ghost(wanted@), Ghost(before));
        } else {
            proof {
                let v = ctx_list_v(out@);
                assert(own.drop_last() =~= before);
                assert forall|x: NodeId| wanted@.contains(x) implies #[trigger] last_context(v, x) == last_context(own, x) by {
                    assert(x != cs[i as int].id());
                }
            }
        }
        if let Node::Folder(f) = child {
            proof {
                assert(decreases_to!(folder => folder.children));
                assert(decreases_to!(folder.children => folder.children@));
                assert(decreases_to!(folder.children@ => folder.children@[i as int]));
            }
            path.push(f.name.clone());
            proof {
                assert(names_v(path@) =~= p.push(f@.name));
            }
            collect_contexts(f, path, wanted, out, Ghost(own));
            let ghost full = path@;
            path.pop();
            proof {
                assert(path@ == full.drop_last());
                assert(names_v(full) == p.push(f@.name));
                assert(names_v(path@) =~= names_v(full).drop_last());
                assert(names_v(path@) =~= p);
                assert(contexts_in(cs.subrange(0, i + 1), p) == contexts_in(cs.subrange(0, i as int), p).push(
                    (cs[i as int].id(), context_of(cs[i as int], p)),
                ) + contexts_in(f@.children, p.push(f@.name)));
                assert(own + contexts_in(f@.children, p.push(f@.name)) =~= done + contexts_in(cs.subrange(0, i + 1), p));
            }
        } else {
            proof {
                assert(own =~= done + contexts_in(cs.subrange(0, i + 1), p));
            }
        }
        i += 1;
    }
    proof {
        assert(cs.subrange(0, cs.len() as int) =~= cs);
    }
}

// ---------------------------------------------------------------------------
// Entries
// ---------------------------------------------------------------------------

pub open spec fn field_name_v(f: Field) -> Seq<char> {
    match f {
        Field::Url => "url"@,
        Field::Title => "title"@,
        Field::FolderName => "folder_name"@,
    }
}

pub open spec fn bool_text(b: bool) -> Seq<char> {
    if b { "true"@ } else { "false"@ }
}

/// The field, before and after texts a change shows.
pub open spec fn shown_texts(k: ChangeKindV) -> (Seq<char>, Seq<char>, Seq<char>) {
    match k {
        ChangeKindV::SetField { field, before, after } => (field_name_v(field), before, after),
        ChangeKindV::DeleteNode => ("node"@, Seq::empty(), "(deleted)"@),
        ChangeKindV::SetFlag { flag, before, after } => ("flag:isshortener"@, bool_text(before), bool_text(after)),
    }
}

pub open spec fn tag_back(t: PreviewTag) -> DiffTag {
    match t {
        PreviewTag::Equal => DiffTag::Equal,
        PreviewTag::Removed => DiffTag::Removed,
        PreviewTag::Added => DiffTag::Added,
    }
}

/// The spans of a preview, as the diff tags and texts.
pub open spec fn shown_spans(s: Seq<PreviewSpan>) -> Seq<(DiffTag, Seq<char>)> {
    s.map_values(|d: PreviewSpan| (tag_back(d.tag), d.text@))
}

/// Entry `e` shows change `c`, the `i`-th of its set, with the context of
/// its node (none when the node is not in the tree).
pub open spec fn entry_shows(e: ChangeEntry, i: int, c: ChangeV, ctx: Option<ContextV>) -> bool {
    let t = shown_texts(c.kind);
    &&& e.index == i
    &&& e.node_id == c.node_id
    &&& e.field@ == t.0
    &&& e.before@ == t.1
    &&& e.after@ == t.2
    &&& diff_of(t.1, t.2, shown_spans(e.before_spans@), shown_spans(e.after_spans@))
    &&& e.treatment_id@ == c.treatment_id
    &&& e.rationale@ == c.rationale
    &&& e.destructive == c.destructive
    &&& e.approved == c.approved
    &&& match ctx {
        Some(x) => e.node_title@ == x.title && opt_view(e.node_url) == x.url && names_v(e.location@) == x.location,
        None => e.node_title@.len() == 0 && e.node_url is None && e.location@.len() == 0,
    }
}

fn to_preview_spans(s: Vec<DiffSpan>) -> (r: Vec<PreviewSpan>)
    ensures
        shown_spans(r@) == spans_v(s@),
{
    let mut out: Vec<PreviewSpan> = Vec::new();
    let mut i: usize = 0;
    while i < s.len()
        invariant
            i <= s.len(),
            out@.len() == i,
            shown_spans(out@) == spans_v(s@).take(i as int),
        decreases s.len() - i,
    {
        let tag = match s[i].tag {
            DiffTag::Equal => PreviewTag::Equal,
            DiffTag::Removed => PreviewTag::Removed,
            DiffTag::Added => PreviewTag::Added,
        };
        let text = s[i].text.as_str().to_owned();
        let ghost before = out@;
        out.push(PreviewSpan { tag, text });
        proof {
            assert(out@ == before.push(PreviewSpan { tag, text }));
            assert(shown_spans(out@)[i as int] == (tag_back(tag), text@));
            assert(spans_v(s@)[i as int] == (s@[i as int].tag, s@[i as int].text@));
            assert(shown_spans(out@) =~= spans_v(s@).take(i + 1));
        }
        i += 1;
    }
    proof {
        assert(spans_v(s@).take(s.len() as int) =~= spans_v(s@));
    }
    out
}

fn bool_string(b: bool) -> (r: String)
    ensures
        r@ == bool_text(b),
{
    if b { "true".to_owned() } else { "false".to_owned() }
}

/// The entry of the `index`-th change `c`, with its node's context.
fn change_to_entry(index: usize, c: &Change, ctx: Option<&NodeContext>) -> (r: ChangeEntry)
    ensures
        entry_shows(
            r,
            index as int,
            c@,
            match ctx {
                Some(x) => Some(x@),
                None => None,
            },
        ),
{
    let (field, before, after) = match &c.kind {
        ChangeKind::SetField { field, before, after } => {
            let name = match field {
                Field::Url => "url",
                Field::Title => "title",
                Field::FolderName => "folder_name",
            };
            (name.to_owned(), before.clone(), after.clone())
        },
        ChangeKind::DeleteNode => ("node".to_owned(), String::new(), "(deleted)".to_owned()),
        ChangeKind::SetFlag { flag, before, after } => ("flag:isshortener".to_owned(), bool_string(*before), bool_string(*after)),
    };
    let (bs, as_) = char_diff(before.as_str(), after.as_str());
    let before_spans = to_preview_spans(bs);
    let after_spans = to_preview_spans(as_);
    let (node_title, node_url, location) = match ctx {
        Some(x) => (x.title.clone(), x.url.clone(), copy_names(&x.location)),
        None => {
            let none: Vec<String> = Vec::new();
            proof {
                assert(names_v(none@) =~= Seq::<Seq<char>>::empty());
            }
            (String::new(), None, none)
        },
    };
    ChangeEntry {
        index,
        node_id: c.node_id,
        field,
        before,
        after,
        before_spans,
        after_spans,
        treatment_id: c.treatment_id.clone(),
        rationale: c.rationale.clone(),
        destructive: c.destructive,
        approved: c.approved,
        node_title,
        node_url,
        location,
    }
}

fn find_context(v: &Vec<(NodeId, NodeContext)>, id: NodeId) -> (r: Option<&NodeContext>)
    requires
        forall|a: int, b: int| 0 <= a < b < v.len() ==> #[trigger] v@[a].0 != #[trigger] v@[b].0,
    ensures
        match r {
            Some(x) => last_context(ctx_list_v(v@), id) == Some(x@),
            None => last_context(ctx_list_v(v@), id) is None,
        },
{
    let ghost w = ctx_list_v(v@);
    proof {
        assert forall|a: int, b: int| 0 <= a < b < w.len() implies #[trigger] w[a].0 != #[trigger] w[b].0 by {
            assert(v@[a].0 != v@[b].0);
        }
    }
    let mut k: usize = 0;
    while k < v.len()
        invariant
            w == ctx_list_v(v@),
            forall|a: int, b: int| 0 <= a < b < w.len() ==> #[trigger] w[a].0 != #[trigger] w[b].0,
            k <= v.len(),
            forall|a: int| 0 <= a < k ==> #[trigger] w[a].0 != id,
        decreases v.len() - k,
    {
        if v[k].0 == id {
            proof {
                lemma_last_context_distinct(w, id, k as int);
            }
            return Some(&v[k].1);
        }
        k += 1;
    }
    proof {
        lemma_last_context_absent(w, id);
    }
    None
}

/// The review of change set `cs` over the tree `root`: one entry per change,
/// in order, each with the context of the last node of the tree with its id.
pub fn preview(cs_id: ChangeSetId, cs: &ChangeSet, root: &Folder) -> (r: ChangeSetPreview)
    ensures
        r.changeset_id == cs_id,
        r.rule_set_name@ == cs.rule_set_name@,
        r.changes@.len() == cs.changes@.len(),
        forall|i: int|
            0 <= i < r.changes@.len() ==> entry_shows(
                #[trigger] r.changes@[i],
                i,
                cs.changes@[i]@,
                last_context(contexts_in(root@.children, Seq::empty()), cs.changes@[i].node_id),
            ),
{
    let mut wanted: Vec<NodeId> = Vec::new();
    let mut i: usize = 0;
    while i < cs.changes.len()
        invariant
            i <= cs.changes.len(),
            increasing(wanted@),
            forall|k: int| 0 <= k < i ==> wanted@.contains(#[trigger] cs.changes@[k].node_id),
        decreases cs.changes.len() - i,
    {
        insert_id(&mut wanted, cs.changes[i].node_id);
        i += 1;
    }
    let mut ctxs: Vec<(NodeId, NodeContext)> = Vec::new();
    let mut path: Vec<String> = Vec::new();
    proof {
        assert(ctx_list_v(ctxs@) =~= Seq::<(NodeId, ContextV)>::empty());
        assert(names_v(path@) =~= Seq::<Seq<char>>::empty());
    }
    collect_contexts(root, &mut path, &wanted, &mut ctxs, Ghost(Seq::empty()));
    let ghost all = contexts_in(root@.children, Seq::empty());
    proof {
        assert(Seq::<(NodeId, ContextV)>::empty() + all =~= all);
    }
    let mut changes: Vec<ChangeEntry> = Vec::new();
    let mut i: usize = 0;
    while i < cs.changes.len()
        invariant
            i <= cs.changes.len(),
            changes@.len() == i,
            holds_contexts(ctx_list_v(ctxs@), wanted@, all),
            forall|k: int| 0 <= k < cs.changes.len() ==> wanted@.contains(#[trigger] cs.changes@[k].node_id),
            forall|k: int|
                0 <= k < i ==> entry_shows(#[trigger] changes@[k], k, cs.changes@[k]@, last_context(all, cs.changes@[k].node_id)),
        decreases cs.changes.len() - i,
    {
        proof {
            assert forall|a: int, b: int| 0 <= a < b < ctxs.len() implies #[trigger] ctxs@[a].0 != #[trigger] ctxs@[b].0 by {
                assert(ctx_list_v(ctxs@)[a].0 != ctx_list_v(ctxs@)[b].0);
            }
            assert(wanted@.contains(cs.changes@[i as int].node_id));
        }
        let ctx = find_context(&ctxs, cs.changes[i].node_id);
        let e = change_to_entry(i, &cs.changes[i], ctx);
        changes.push(e);
        i += 1;
    }
    ChangeSetPreview { changeset_id: cs_id, rule_set_name: cs.rule_set_name.clone(), changes }
}

} // verus!

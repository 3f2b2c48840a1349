//! The HTML document tree that `html5ever` builds, read into plain values.
//!
//! `html5ever` runs the HTML5 tree-construction algorithm into an
//! `markup5ever_rcdom` tree of reference-counted nodes.  The trusted items
//! below expose that tree node by node; `dom_tree` walks it (verified) into
//! a [`DomNode`], the library's own copy that the bookmark builder reads.
use vstd::prelude::*;
use std::rc::Rc;
use html5ever::tendril::TendrilSink;
use markup5ever_rcdom::{Node as RcNode, NodeData, RcDom};

verus! {

#[verifier::external_type_specification]
#[verifier::external_body]
pub struct ExRcNode(RcNode);

/// What one DOM node holds besides its children: an element's local name
/// and attributes (local names and values, in source order), a text node's
/// contents, or nothing (the document, a doctype, a comment, ...).
#[derive(Debug)]
pub enum DomData {
    Element { tag: String, attrs: Vec<(String, String)> },
    Text(String),
    Other,
}

pub enum DomDataV {
    Element { tag: Seq<char>, attrs: Seq<(Seq<char>, Seq<char>)> },
    Text(Seq<char>),
    Other,
}

/// Names and values of attribute pairs.
pub open spec fn attr_pairs_v(s: Seq<(String, String)>) -> Seq<(Seq<char>, Seq<char>)> {
    s.map_values(|p: (String, String)| (p.0@, p.1@))
}

impl View for DomData {
    type V = DomDataV;

    open spec fn view(&self) -> DomDataV {
        match self {
            DomData::Element { tag, attrs } => DomDataV::Element { tag: tag@, attrs: attr_pairs_v(attrs@) },
            DomData::Text(t) => DomDataV::Text(t@),
            DomData::Other => DomDataV::Other,
        }
    }
}

/// A DOM subtree as plain values.
pub struct DomV {
    pub data: DomDataV,
    pub children: Seq<DomV>,
}

/// A DOM subtree: a node's data and its children in document order.
#[derive(Debug)]
pub struct DomNode {
    pub data: DomData,
    pub children: Vec<DomNode>,
}

pub open spec fn dom_v(n: DomNode) -> DomV
    decreases n,
{
    DomV { data: n.data@, children: doms_v(n.children@) }
}

pub open spec fn doms_v(ns: Seq<DomNode>) -> Seq<DomV>
    decreases ns,
{
    if ns.len() == 0 {
        Seq::empty()
    } else {
        doms_v(ns.subrange(0, ns.len() - 1)).push(dom_v(ns[ns.len() - 1]))
    }
}

pub broadcast proof fn lemma_doms_v(ns: Seq<DomNode>)
    ensures
        #[trigger] doms_v(ns).len() == ns.len(),
        forall|i: int| 0 <= i < ns.len() ==> #[trigger] doms_v(ns)[i] == dom_v(ns[i]),
    decreases ns.len(),
{
    if ns.len() > 0 {
        lemma_doms_v(ns.subrange(0, ns.len() - 1));
    }
}

impl View for DomNode {
    type V = DomV;

    open spec fn view(&self) -> DomV {
        dom_v(*self)
    }
}

/// The document tree that `html5ever::parse_document`, with an `RcDom`
/// sink and default options, builds from `bytes` read as UTF-8 (invalid
/// sequences replaced).
pub uninterp spec fn html_tree_of(bytes: Seq<u8>) -> DomV;

/// The subtree below an `RcDom` node: its data and, recursively, its
/// children, as plain values.
pub uninterp spec fn rc_node_view(n: RcNode) -> DomV;

/// Runs `html5ever::parse_document` into an `RcDom`, reading `bytes` through
/// the UTF-8 decoding sink (`read_from`), and returns the document node.
/// Claims that the tree below it is the named tree of `bytes`.  Reading from
/// a byte slice cannot fail; the error arm only satisfies the type.
#[verifier::external_body]
fn html_document(bytes: &[u8]) -> (r: Rc<RcNode>)
    ensures
        rc_node_view(*r) == html_tree_of(bytes@),
{
    let mut input: &[u8] = bytes;
    match html5ever::parse_document(RcDom::default(), Default::default()).from_utf8().read_from(&mut input) {
        Ok(dom) => dom.document,
        Err(_) => RcDom::default().document,
    }
}

/// `Node::children` of an `RcDom` node, cloned in order.  Claims that they
/// are the children of the node's view.
#[verifier::external_body]
fn rc_children(h: &Rc<RcNode>) -> (r: Vec<Rc<RcNode>>)
    ensures
        r@.len() == rc_node_view(**h).children.len(),
        forall|i: int| 0 <= i < r@.len() ==> rc_node_view(*r@[i]) == #[trigger] rc_node_view(**h).children[i],
{
    h.children.borrow().clone()
}

/// `Node::data` of an `RcDom` node as plain values: an element's local name
/// and its attributes' local names and values, a text node's contents, and
/// nothing for every other kind.  Claims that this is the data of the node's
/// view.
#[verifier::external_body]
fn rc_data(h: &Rc<RcNode>) -> (r: DomData)
    ensures
        r@ == rc_node_view(**h).data,
{
    match &h.data {
        NodeData::Element { name, attrs, .. } => DomData::Element {
            tag: name.local.to_string(),
            attrs: attrs.borrow().iter().map(|a| (a.name.local.to_string(), a.value.to_string())).collect(),
        },
        NodeData::Text { contents } => DomData::Text(contents.borrow().to_string()),
        _ => DomData::Other,
    }
}

/// The view of the subtree below the node that `h` points to.
pub open spec fn handle_view(h: &Rc<RcNode>) -> DomV {
    rc_node_view(**h)
}

/// The subtree below `h`, read into the library's own tree.
fn dom_tree(h: &Rc<RcNode>) -> (r: DomNode)
    ensures
        r@ == rc_node_view(**h),
    decreases rc_node_view(**h),
{
    broadcast use lemma_doms_v;

    let data = rc_data(h);
    let kids = rc_children(h);
    let ghost v = handle_view(h);
    let mut children: Vec<DomNode> = Vec::new();
    let mut i: usize = 0;
    while i < kids.len()
        invariant
            i <= kids.len(),
            kids@.len() == v.children.len(),
            v == rc_node_view(**h),
            forall|k: int| 0 <= k < kids@.len() ==> rc_node_view(*kids@[k]) == #[trigger] v.children[k],
            children@.len() == i,
            forall|k: int| 0 <= k < i ==> (#[trigger] children@[k])@ == v.children[k],
        decreases kids.len() - i,
    {
        proof {
            assert(rc_node_view(*kids@[i as int]) == v.children[i as int]);
            assert(decreases_to!(v => v.children));
            assert(decreases_to!(v.children => v.children[i as int]));
        }
        let c = dom_tree(&kids[i]);
        children.push(c);
        i += 1;
    }
    let r = DomNode { data, children };
    proof {
        assert(doms_v(r.children@) =~= v.children);
    }
    r
}

/// The document tree of `bytes` (without a byte order mark) as `html5ever`
/// builds it.
pub fn html_tree(bytes: &[u8]) -> (r: DomNode)
    ensures
        r@ == html_tree_of(bytes@),
{
    let doc = html_document(bytes);
    dom_tree(&doc)
}

} // verus!

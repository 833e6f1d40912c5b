//! The mathematical image of the document tree: each node as plain
//! sequences, so that contracts can speak of exactly what the parser built.

use crate::structure::{ElementData, Node};
use vstd::prelude::*;

verus! {

/// The image of one element: its optional namespace prefix, name,
/// attribute pairs, and children, all as sequences.
#[verifier::ext_equal]
pub struct ElemModel {
    pub namespace: Option<Seq<char>>,
    pub name: Seq<char>,
    pub attributes: Seq<(Seq<char>, Seq<char>)>,
    pub children: Seq<NodeModel>,
}

/// The image of one node.
#[verifier::ext_equal]
pub enum NodeModel {
    Element(ElemModel),
    Text(Seq<char>),
    CData(Seq<char>),
    Comment(Seq<char>),
    ProcessingInstruction(Seq<char>, Seq<(Seq<char>, Seq<char>)>),
    DocType(Seq<char>),
}

/// The image of an optional namespace prefix.
pub open spec fn ns_model(o: Option<String>) -> Option<Seq<char>> {
    match o {
        Some(ns) => Some(ns@),
        None => None,
    }
}

/// The image of an element value.
pub open spec fn elem_model(e: ElementData) -> ElemModel
    decreases e,
{
    ElemModel {
        namespace: match e.namespace {
            Some(ns) => Some(ns@),
            None => None,
        },
        name: e.name@,
        attributes: e.attributes@,
        children: nodes_model(e.nodes@),
    }
}

/// The image of a run of nodes, in order.
pub open spec fn nodes_model(s: Seq<Node>) -> Seq<NodeModel>
    decreases s,
{
    if s.len() == 0 {
        Seq::<NodeModel>::empty()
    } else {
        seq![node_model(s[0])] + nodes_model(s.drop_first())
    }
}

/// The image of one node value.
pub open spec fn node_model(n: Node) -> NodeModel
    decreases n,
{
    match n {
        Node::Element(e) => NodeModel::Element(elem_model(e)),
        Node::Text(s) => NodeModel::Text(s@),
        Node::CData(s) => NodeModel::CData(s@),
        Node::Comment(s) => NodeModel::Comment(s@),
        Node::ProcessingInstruction(p) => NodeModel::ProcessingInstruction(
            p.target@,
            p.instructions@,
        ),
        Node::DocType(s) => NodeModel::DocType(s@),
    }
}

/// A run's image has one entry per node, each the node's own image.
pub proof fn lemma_nodes_model(s: Seq<Node>)
    ensures
        nodes_model(s).len() == s.len(),
        forall|i: int| 0 <= i < s.len() ==> nodes_model(s)[i] == node_model(#[trigger] s[i]),
    decreases s,
{
    if s.len() > 0 {
        lemma_nodes_model(s.drop_first());
        assert forall|i: int| 0 <= i < s.len() implies nodes_model(s)[i] == node_model(
            #[trigger] s[i],
        ) by {
            if i > 0 {
                assert(s.drop_first()[i - 1] == s[i]);
                assert(nodes_model(s)[i] == nodes_model(s.drop_first())[i - 1]);
            }
        }
    }
}

/// Appending a node appends its image.
pub proof fn lemma_nodes_model_push(s: Seq<Node>, x: Node)
    ensures
        nodes_model(s.push(x)) == nodes_model(s).push(node_model(x)),
{
    lemma_nodes_model(s);
    lemma_nodes_model(s.push(x));
    assert forall|i: int| 0 <= i < s.push(x).len() implies nodes_model(s.push(x))[i]
        == nodes_model(s).push(node_model(x))[i] by {
        if i < s.len() {
            assert(s.push(x)[i] == s[i]);
        } else {
            assert(s.push(x)[i] == x);
        }
    }
    assert(nodes_model(s.push(x)) =~= nodes_model(s).push(node_model(x)));
}

} // verus!

//! The program tree: a nested sequence of instruction nodes, with loop
//! bodies as exclusively owned sub-sequences.
//!
//! Only a `LoopStart` node owns a body — the ordered nodes found between
//! its bracket pair, exclusive of the brackets. A `LoopEnd` node that
//! appears outside any enclosing loop is a structurally valid, inert
//! leaf. For contracts, every node has a mathematical view [`NodeV`]
//! whose body is a `Seq` instead of an owned vector.

use vstd::prelude::*;

use crate::lexer::Token;

verus! {

broadcast use vstd::group_vstd_default;

/// The instruction a node stands for. `Ignore`, `WhiteSpace`, `LoopEnd`
/// and `EOF` nodes are inert at evaluation time.
#[derive(Clone, Copy, Debug, PartialEq, Eq, Structural)]
pub enum NodeType {
    CellIncrement,
    CellDecrement,
    PointerIncrement,
    PointerDecrement,
    Output,
    Input,
    Ignore,
    WhiteSpace,
    LoopStart,
    LoopEnd,
    EOF,
}

/// The parse root: an ordered sequence of nodes that owns all its
/// descendants.
#[derive(Debug, PartialEq, Eq)]
pub struct Ast {
    pub body: Vec<Node>,
}

/// One node of the program tree: the token it was built from, the
/// instruction it stands for, and — for a `LoopStart` node only — the
/// owned body between its bracket pair.
#[derive(Debug, PartialEq, Eq)]
pub struct Node {
    pub token: Token,
    pub kind: NodeType,
    pub body: Option<Box<Ast>>,
}

/// The mathematical view of a node: the same token and kind, with the
/// loop body as a sequence of views.
pub struct NodeV {
    pub token: Token,
    pub kind: NodeType,
    pub body: Option<Seq<NodeV>>,
}

/// The view of a node sequence, element by element.
pub open spec fn nodes_view(ns: Seq<Node>) -> Seq<NodeV>
    decreases ns,
{
    if ns.len() == 0 {
        Seq::empty()
    } else {
        nodes_view(ns.drop_last()).push(ns.last()@)
    }
}

impl View for Node {
    type V = NodeV;

    open spec fn view(&self) -> NodeV
        decreases self,
    {
        NodeV {
            token: self.token,
            kind: self.kind,
            body: match self.body {
                Some(b) => Some(nodes_view(b.body@)),
                None => None,
            },
        }
    }
}

impl View for Ast {
    type V = Seq<NodeV>;

    open spec fn view(&self) -> Seq<NodeV> {
        nodes_view(self.body@)
    }
}

/// The view of a sequence is as long as the sequence and is taken
/// element by element.
pub proof fn lemma_nodes_view_len(ns: Seq<Node>)
    ensures
        nodes_view(ns).len() == ns.len(),
        forall|i: int| 0 <= i < ns.len() ==> nodes_view(ns)[i] == #[trigger] ns[i]@,
    decreases ns,
{
    if ns.len() > 0 {
        lemma_nodes_view_len(ns.drop_last());
        assert(nodes_view(ns) == nodes_view(ns.drop_last()).push(ns.last()@));
        assert forall|i: int| 0 <= i < ns.len() implies nodes_view(ns)[i] == #[trigger] ns[i]@ by {
            if i < ns.len() - 1 {
                assert(ns.drop_last()[i] == ns[i]);
                assert(nodes_view(ns)[i] == nodes_view(ns.drop_last())[i]);
            } else {
                assert(ns.last() == ns[i]);
            }
        }
    }
}

/// A loop node's body, as node views. Meaningful for well-formed
/// `LoopStart` nodes, whose body is never absent.
pub open spec fn body_of(n: NodeV) -> Seq<NodeV> {
    n.body.unwrap()
}

/// Well-formedness of one node view: a `LoopStart` node always owns a
/// body, itself well-formed; every other node is a leaf.
pub open spec fn wf_node(n: NodeV) -> bool
    decreases n,
{
    if n.kind == NodeType::LoopStart {
        &&& n.body is Some
        &&& wf_nodes(body_of(n))
    } else {
        n.body is None
    }
}

/// Well-formedness of a node-view sequence: every node in it is
/// well-formed.
pub open spec fn wf_nodes(ns: Seq<NodeV>) -> bool
    decreases ns,
{
    forall|i: int| 0 <= i < ns.len() ==> wf_node(#[trigger] ns[i])
}

} // verus!

//! The scene-tree model the engine matches against: plain nodes with an
//! identifier, an optional name, an optional class list, named component
//! tags, an interaction state and a parent link. The host mirrors its own
//! scene graph into this shape; nodes are listed parents-first, so every
//! parent index is smaller than its child's index.

use crate::component::Class;
use vstd::prelude::*;
use vstd::string::*;

verus! {

/// The interaction state of a node, as pseudo-class selectors read it.
#[derive(Debug, Clone, Copy, PartialEq, Eq, Structural)]
pub enum Interaction {
    /// No pointer interaction.
    Idle,
    /// The pointer rests on the node.
    Hovered,
    /// The node is pressed.
    Pressed,
}

/// One node of the scene tree, as the engine sees it.
#[derive(Debug)]
pub struct Node {
    /// The host's identifier for the node; selections report these.
    pub id: u64,
    /// The node's name, matched exactly by id selectors.
    pub name: Option<String>,
    /// The node's class list, matched by class selectors.
    pub class: Option<Class>,
    /// The names of the component tags the node carries, matched by
    /// component selectors.
    pub components: Vec<String>,
    /// The node's interaction state, matched by pseudo-class selectors.
    pub interaction: Option<Interaction>,
    /// Whether the node carries the marker that the universal selector
    /// matches.
    pub ui_node: bool,
    /// The index of the node's parent, which must be smaller than the
    /// node's own index.
    pub parent: Option<usize>,
}

/// The mathematical shape of a [`Node`].
pub struct NodeV {
    pub id: u64,
    pub name: Option<Seq<char>>,
    pub class: Option<Seq<char>>,
    pub components: Seq<Seq<char>>,
    pub interaction: Option<Interaction>,
    pub ui_node: bool,
    pub parent: Option<int>,
}

impl DeepView for Node {
    type V = NodeV;

    open spec fn deep_view(&self) -> NodeV {
        NodeV {
            id: self.id,
            name: match &self.name {
                Some(n) => Some(n@),
                None => None,
            },
            class: match &self.class {
                Some(c) => Some(c@),
                None => None,
            },
            components: self.components.deep_view(),
            interaction: self.interaction,
            ui_node: self.ui_node,
            parent: match self.parent {
                Some(p) => Some(p as int),
                None => None,
            },
        }
    }
}

/// Parent links point strictly backwards: the tree is acyclic and listed
/// parents-first.
pub open spec fn wf_nodes(t: Seq<NodeV>) -> bool {
    forall|i: int|
        #![trigger t[i]]
        0 <= i < t.len() ==> (t[i].parent matches Some(p) ==> 0 <= p < i)
}

/// The scene tree: nodes listed parents-first.
#[derive(Debug)]
pub struct Tree {
    nodes: Vec<Node>,
}

impl View for Tree {
    type V = Seq<NodeV>;

    closed spec fn view(&self) -> Seq<NodeV> {
        self.nodes.deep_view()
    }
}

impl Tree {
    /// A well-formed tree: every parent stands before its children.
    pub open spec fn wf(&self) -> bool {
        wf_nodes(self@)
    }

    /// Creates an empty tree.
    pub fn new() -> (r: Tree)
        ensures
            r@ == Seq::<NodeV>::empty(),
            r.wf(),
    {
        let r = Tree { nodes: Vec::new() };
        proof {
            assert(r@ =~= Seq::<NodeV>::empty());
        }
        r
    }

    /// How many nodes the tree holds.
    pub fn len(&self) -> (r: usize)
        ensures
            r == self@.len(),
    {
        self.nodes.len()
    }

    /// Appends a node and returns its index. The node's parent, if any,
    /// must already be in the tree.
    pub fn push_node(&mut self, node: Node) -> (r: usize)
        requires
            old(self).wf(),
            node.parent matches Some(p) ==> p < old(self)@.len(),
        ensures
            r == old(self)@.len(),
            final(self)@ == old(self)@.push(node.deep_view()),
            final(self).wf(),
    {
        let ghost nv = node.deep_view();
        let r = self.nodes.len();
        self.nodes.push(node);
        proof {
            assert(self@ =~= old(self)@.push(nv));
        }
        r
    }

    /// Reads the node at the given index.
    pub fn node_at(&self, i: usize) -> (r: &Node)
        requires
            i < self@.len(),
        ensures
            r.deep_view() == self@[i as int],
    {
        &self.nodes[i]
    }
}

} // verus!

//! The outline sub-graph: four stage nodes wired by slot edges.
//!
//! The pipeline's dependency graph is fixed and small, so it is kept as
//! an explicit ordered node list plus the slot edges between consecutive
//! stages.  Validity is the render-graph invariant: every input slot is
//! fed by exactly one producing output slot, every edge runs from an
//! earlier node to a later one (so the listed order is a topological
//! order and the graph is acyclic), and the driver executes the nodes in
//! exactly that order, once per view.

use vstd::prelude::*;

verus! {

/// The four stage nodes of the outline sub-graph.
#[derive(Clone, Copy, PartialEq, Eq, Structural, Debug)]
pub enum StageNode {
    /// Rasterizes the enabled outline targets into the coverage mask.
    MeshMask,
    /// Converts the coverage mask into the initial seed field.
    JfaInit,
    /// Runs the jump-flood passes over the ping-pong seed buffers.
    Jfa,
    /// Blends the distance-mapped outline onto the view's color target.
    OutlineComposite,
}

impl StageNode {
    /// Number of input slots the stage declares.
    pub open spec fn input_slots(self) -> int {
        match self {
            StageNode::MeshMask => 0,
            StageNode::JfaInit => 1,
            StageNode::Jfa => 1,
            StageNode::OutlineComposite => 1,
        }
    }

    /// Whether the stage declares an output slot.
    pub open spec fn has_output(self) -> bool {
        match self {
            StageNode::MeshMask => true,
            StageNode::JfaInit => true,
            StageNode::Jfa => true,
            StageNode::OutlineComposite => false,
        }
    }
}

/// A slot edge: the output of node `from` feeds the input of node `to`.
#[derive(Clone, Copy, PartialEq, Eq, Structural, Debug)]
pub struct SlotEdge {
    pub from: usize,
    pub to: usize,
}

/// Number of edges feeding the input of node `node`.
pub open spec fn edges_into(edges: Seq<SlotEdge>, node: int) -> int
    decreases edges.len(),
{
    if edges.len() == 0 {
        0
    } else {
        edges_into(edges.drop_last(), node) + if edges.last().to == node {
            1int
        } else {
            0int
        }
    }
}

/// The outline sub-graph: an ordered node list and the slot edges.
pub struct OutlineGraph {
    /// Stage nodes, in execution order.
    pub nodes: Vec<StageNode>,
    /// Slot edges between them.
    pub edges: Vec<SlotEdge>,
}

impl OutlineGraph {
    /// The render-graph invariant: edges stay inside the node list and
    /// run strictly forward (no cycles; the list order is topological),
    /// every edge leaves a node that declares an output, and every
    /// node's input slots are fed by exactly one edge each.
    pub open spec fn valid(self) -> bool {
        &&& forall|k: int| 0 <= k < self.edges@.len() ==> {
            let e = #[trigger] self.edges@[k];
            e.from < e.to < self.nodes@.len() && self.nodes@[e.from as int].has_output()
        }
        &&& forall|j: int| 0 <= j < self.nodes@.len() ==> edges_into(self.edges@, j)
            == (#[trigger] self.nodes@[j]).input_slots()
    }
}

/// Builds the render graph for applying the JFA outline: mask, then seed
/// init, then jump flood, then composite, each stage's output slot wired
/// to the next stage's input slot.  The result satisfies the graph
/// invariant, so the fixed execution order is a topological order.
pub fn outline() -> (g: OutlineGraph)
    ensures
        g.valid(),
        g.nodes@ == seq![
            StageNode::MeshMask,
            StageNode::JfaInit,
            StageNode::Jfa,
            StageNode::OutlineComposite,
        ],
        g.edges@ == seq![
            SlotEdge { from: 0, to: 1 },
            SlotEdge { from: 1, to: 2 },
            SlotEdge { from: 2, to: 3 },
        ],
{
    let mut nodes: Vec<StageNode> = Vec::new();
    nodes.push(StageNode::MeshMask);
    nodes.push(StageNode::JfaInit);
    nodes.push(StageNode::Jfa);
    nodes.push(StageNode::OutlineComposite);

    let mut edges: Vec<SlotEdge> = Vec::new();
    // Mask -> JFA Init
    edges.push(SlotEdge { from: 0, to: 1 });
    // JFA Init -> JFA
    edges.push(SlotEdge { from: 1, to: 2 });
    // JFA -> Outline
    edges.push(SlotEdge { from: 2, to: 3 });

    let g = OutlineGraph { nodes, edges };
    proof {
        assert(g.nodes@ =~= seq![
            StageNode::MeshMask,
            StageNode::JfaInit,
            StageNode::Jfa,
            StageNode::OutlineComposite,
        ]);
        assert(g.edges@ =~= seq![
            SlotEdge { from: 0, to: 1 },
            SlotEdge { from: 1, to: 2 },
            SlotEdge { from: 2, to: 3 },
        ]);
        assert forall|j: int| 0 <= j < g.nodes@.len() implies edges_into(g.edges@, j)
            == (#[trigger] g.nodes@[j]).input_slots() by {
            let e3 = g.edges@;
            let e2 = e3.drop_last();
            let e1 = e2.drop_last();
            let e0 = e1.drop_last();
            assert(e0.len() == 0);
            assert(edges_into(e0, j) == 0);
            assert(e1.last() == SlotEdge { from: 0, to: 1 });
            assert(edges_into(e1, j) == if j == 1 { 1int } else { 0int });
            assert(e2.last() == SlotEdge { from: 1, to: 2 });
            assert(edges_into(e2, j) == edges_into(e1, j) + if j == 2 { 1int } else { 0int });
            assert(e3.last() == SlotEdge { from: 2, to: 3 });
            assert(edges_into(e3, j) == edges_into(e2, j) + if j == 3 { 1int } else { 0int });
        }
    }
    g
}

} // verus!

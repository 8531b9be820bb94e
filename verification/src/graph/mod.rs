//! A graph of named workers, built node by node and edge by edge, and laid
//! out in layers for execution.

use vstd::prelude::*;
use vstd::string::StringExecFns;
use crate::text::{decimal, push_decimal};

pub mod acyclic;
pub mod layers;

pub use layers::kahn_layers;
use acyclic::{
    acyclic, consistent, is_layering, lemma_pending_none, lemma_pending_one_more,
    lemma_pending_rows, pending,
};
use layers::{fault_error, layering, layers_view, out_edges};

verus! {


/// Why a graph could not be built or laid out.
#[derive(Debug)]
pub enum HAGraphError {
    CycleDetected(String),
    InvalidGraph(String),
    InvalidNodeId(String),
}

/// A graph error with its text as a sequence of characters.
pub enum GraphErrorText {
    CycleDetected(Seq<char>),
    InvalidGraph(Seq<char>),
    InvalidNodeId(Seq<char>),
}

impl View for HAGraphError {
    type V = GraphErrorText;

    open spec fn view(&self) -> GraphErrorText {
        match self {
            HAGraphError::CycleDetected(text) => GraphErrorText::CycleDetected(text@),
            HAGraphError::InvalidGraph(text) => GraphErrorText::InvalidGraph(text@),
            HAGraphError::InvalidNodeId(text) => GraphErrorText::InvalidNodeId(text@),
        }
    }
}

impl GraphErrorText {
    /// The error as a line for the user: what kind it is, then its text.
    pub open spec fn line(self) -> Seq<char> {
        match self {
            GraphErrorText::CycleDetected(text) => "cycle detected (not a DAG): "@ + text,
            GraphErrorText::InvalidGraph(text) => "invalid graph: "@ + text,
            GraphErrorText::InvalidNodeId(text) => "invalid node id: "@ + text,
        }
    }
}

impl HAGraphError {
    /// The error as a line for the user.
    pub fn message(&self) -> (line: String)
        ensures
            line@ == self@.line(),
    {
        match self {
            HAGraphError::CycleDetected(text) => {
                let mut line = String::from_str("cycle detected (not a DAG): ");
                line.append(text.as_str());
                line
            },
            HAGraphError::InvalidGraph(text) => {
                let mut line = String::from_str("invalid graph: ");
                line.append(text.as_str());
                line
            },
            HAGraphError::InvalidNodeId(text) => {
                let mut line = String::from_str("invalid node id: ");
                line.append(text.as_str());
                line
            },
        }
    }
}

/// The index of a node in its graph.
#[derive(Copy, Clone, Debug, Eq, PartialEq, Hash, Structural)]
pub struct NodeId(pub usize);

/// A node: its name and the worker that runs in it.
pub struct Node<W> {
    pub name: String,
    pub worker: W,
}

/// A finished graph: the nodes, the edges that leave each node, and the
/// layers in which the nodes can run.
pub struct Graph<W> {
    pub nodes: Vec<Node<W>>,
    pub out: Vec<Vec<NodeId>>,
    pub layers: Vec<Vec<NodeId>>,
}

/// A graph under construction.
pub struct GraphBuilder<W> {
    pub nodes: Vec<Node<W>>,
    pub out: Vec<Vec<NodeId>>,
    pub indegree: Vec<usize>,
}

/// The text of the error for an edge between nodes that do not both exist.
pub open spec fn invalid_edge_text(from: nat, to: nat, node_count: nat) -> Seq<char> {
    "Invalid edge: from="@ + decimal(from) + " to="@ + decimal(to) + " (node count="@ + decimal(
        node_count,
    ) + ")"@
}

fn invalid_edge(from: usize, to: usize, node_count: usize) -> (error: HAGraphError)
    ensures
        error@ == GraphErrorText::InvalidNodeId(
            invalid_edge_text(from as nat, to as nat, node_count as nat),
        ),
{
    let mut text = String::from_str("Invalid edge: from=");
    push_decimal(&mut text, from as u64);
    text.append(" to=");
    push_decimal(&mut text, to as u64);
    text.append(" (node count=");
    push_decimal(&mut text, node_count as u64);
    text.append(")");
    HAGraphError::InvalidNodeId(text)
}

impl<W> GraphBuilder<W> {
    /// Whether the three tables are of one length: one entry for each node.
    pub open spec fn well_formed(&self) -> bool {
        self.out@.len() == self.nodes@.len() && self.indegree@.len() == self.nodes@.len()
    }

    /// Whether the tables describe one graph: each edge points to a node,
    /// and each degree is the number of edges that point to the node. A
    /// builder that is only changed through its methods keeps this.
    pub open spec fn is_consistent(&self) -> bool {
        consistent(self.nodes@.len(), out_edges(self.out@), self.indegree@)
    }

    /// A builder without nodes.
    pub fn new() -> (builder: Self)
        ensures
            builder.well_formed(),
            builder.is_consistent(),
            builder.nodes@.len() == 0,
    {
        GraphBuilder { nodes: Vec::new(), out: Vec::new(), indegree: Vec::new() }
    }

    /// Adds a node without edges and returns its index, which is the number
    /// of nodes added before it.
    pub fn add_node(&mut self, name: String, worker: W) -> (id: NodeId)
        ensures
            id.0 == old(self).nodes@.len(),
            final(self).nodes@ == old(self).nodes@.push(Node { name, worker }),
            final(self).out@.len() == old(self).out@.len() + 1,
            forall|node: int|
                0 <= node < old(self).out@.len() ==> #[trigger] final(self).out@[node] == old(self).out@[node],
            final(self).out@.last()@ == Seq::<NodeId>::empty(),
            final(self).indegree@ == old(self).indegree@.push(0),
            old(self).well_formed() ==> final(self).well_formed(),
            old(self).is_consistent() ==> final(self).is_consistent(),
    {
        let id = NodeId(self.nodes.len());
        self.nodes.push(Node { name, worker });
        self.out.push(Vec::new());
        self.indegree.push(0);
        proof {
            if old(self).is_consistent() {
                let n = old(self).nodes@.len();
                let before = out_edges(old(self).out@);
                let after = out_edges(self.out@);
                assert(self.nodes@.len() == n + 1);
                assert(after.len() == n + 1);
                assert(after[n as int] =~= Seq::<NodeId>::empty());
                assert forall|u: int| 0 <= u < n implies after[u] == before[u] by {}
                assert forall|node: usize| node < n + 1 implies #[trigger] self.indegree@[node as int]
                    == pending(after, node, seq![], n + 1) by {
                    if node < n {
                        lemma_pending_rows(after, before, node, seq![], n);
                        assert(!Seq::<NodeId>::empty().contains(NodeId(n as usize)));
                        assert(pending(after, node, seq![], n + 1) == pending(
                            after,
                            node,
                            seq![],
                            n,
                        ) + acyclic::count_node(after[n as int], node));
                    } else {
                        assert forall|u: int, k: int|
                            0 <= u < after.len() && 0 <= k < after[u].len() implies (
                        #[trigger] after[u][k]).0 != node by {
                            assert(before[u][k].0 < n);
                        }
                        lemma_pending_none(after, node, seq![], n + 1);
                    }
                }
                assert forall|u: int, k: int|
                    0 <= u < after.len() && 0 <= k < after[u].len() implies (#[trigger] after[u][k]).0
                    < n + 1 by {
                    assert(before[u][k].0 < n);
                }
                assert(n + 1 <= usize::MAX) by {
                    vstd::std_specs::vec::axiom_spec_len(&self.nodes);
                }
            }
        }
        id
    }

    /// Adds an edge from `from` to `to`. If one of the two is not a node of
    /// the graph, the edge is refused with `InvalidNodeId` and nothing changes.
    pub fn add_edge(&mut self, from: NodeId, to: NodeId) -> (added: Result<(), HAGraphError>)
        requires
            old(self).well_formed(),
            from.0 < old(self).nodes@.len() && to.0 < old(self).nodes@.len() ==> old(self).indegree@[to.0 as int] < usize::MAX,
        ensures
            final(self).well_formed(),
            old(self).is_consistent() ==> final(self).is_consistent(),
            final(self).nodes@ == old(self).nodes@,
            from.0 >= old(self).nodes@.len() || to.0 >= old(self).nodes@.len() ==> {
                &&& added matches Err(error)
                &&& error@ == GraphErrorText::InvalidNodeId(
                    invalid_edge_text(from.0 as nat, to.0 as nat, old(self).nodes@.len()),
                )
                &&& final(self).out@ == old(self).out@
                &&& final(self).indegree@ == old(self).indegree@
            },
            from.0 < old(self).nodes@.len() && to.0 < old(self).nodes@.len() ==> {
                &&& added is Ok
                &&& final(self).out@.len() == old(self).out@.len()
                &&& final(self).out@[from.0 as int]@ == old(self).out@[from.0 as int]@.push(to)
                &&& forall|node: int|
                    0 <= node < old(self).out@.len() && node != from.0 ==> #[trigger] final(self).out@[node] == old(self).out@[node]
                &&& final(self).indegree@ == old(self).indegree@.update(
                    to.0 as int,
                    (old(self).indegree@[to.0 as int] + 1) as usize,
                )
            },
    {
        let n = self.nodes.len();
        if from.0 >= n || to.0 >= n {
            return Err(invalid_edge(from.0, to.0, n));
        }
        self.out[from.0].push(to);
        self.indegree[to.0] = self.indegree[to.0] + 1;
        proof {
            if old(self).is_consistent() {
                let before = out_edges(old(self).out@);
                let after = out_edges(self.out@);
                assert(after =~= before.update(from.0 as int, before[from.0 as int].push(to)));
                assert forall|node: usize| node < n implies #[trigger] self.indegree@[node as int]
                    == pending(after, node, seq![], n as nat) by {
                    lemma_pending_one_more(before, from.0 as int, to, node, n as nat);
                }
                assert forall|u: int, k: int|
                    0 <= u < after.len() && 0 <= k < after[u].len() implies (#[trigger] after[u][k]).0
                    < n by {
                    if u == from.0 && k == before[u].len() {
                    } else {
                        assert(after[u][k] == before[u][k]);
                    }
                }
            }
        }
        Ok(())
    }

    /// Finishes the graph: its nodes are laid out in layers, as `layering`
    /// describes, and each fault is reported as its error. A consistent
    /// builder gives a graph exactly if its edges hold no cycle, and then
    /// every edge points from a layer to a later one; else it reports the cycle.
    pub fn build(self) -> (built: Result<Graph<W>, HAGraphError>)
        ensures
            match layering(self.nodes@.len(), out_edges(self.out@), self.indegree@) {
                Ok(layers) => {
                    &&& built matches Ok(graph)
                    &&& graph.nodes == self.nodes
                    &&& graph.out == self.out
                    &&& layers_view(graph.layers@) == layers
                },
                Err(fault) => built matches Err(error) && error@ == fault_error(
                    fault,
                    self.nodes@.len(),
                ),
            },
            self.is_consistent() ==> {
                &&& built is Ok <==> acyclic(self.nodes@.len(), out_edges(self.out@))
                &&& built matches Ok(graph) ==> is_layering(
                    layers_view(graph.layers@),
                    self.nodes@.len(),
                    out_edges(self.out@),
                )
                &&& built matches Err(error) ==> error@ is CycleDetected
            },
    {
        match kahn_layers(self.nodes.len(), self.out.as_slice(), self.indegree.as_slice()) {
            Ok(layers) => Ok(Graph { nodes: self.nodes, out: self.out, layers }),
            Err(error) => Err(error),
        }
    }
}

} // verus!

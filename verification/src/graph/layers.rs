//! The layers of a graph: which nodes can run together, and in which order
//! the groups come.

use vstd::prelude::*;
use vstd::string::StringExecFns;
use std::collections::VecDeque;
use crate::fsm_dag::kahn::{free_nodes, lemma_all_nodes_are_many, lemma_distinct_nodes_are_few};
use crate::graph::acyclic::{
    acyclic, consistent, count_node, is_layering, is_ranking, lemma_count_node_take,
    lemma_done_origin, lemma_none_pending, lemma_ranked_nodes_get_done, pending, placed,
    targets_exist,
};
use crate::graph::{GraphErrorText, HAGraphError, NodeId};
use crate::text::{decimal, push_decimal};

verus! {

/// What can go wrong while the layers are laid out.
pub enum LayerFault {
    /// The tables are not of one length with the number of nodes.
    LengthMismatch,
    /// An edge points to a node that does not exist.
    MissingNode(usize),
    /// More edges point to a node than its degree says.
    Underflow(usize),
    /// Only `seen` of the nodes could be laid out.
    Cycle { seen: nat },
}

/// The edges that leave each node, as sequences.
pub open spec fn out_edges(out: Seq<Vec<NodeId>>) -> Seq<Seq<NodeId>> {
    Seq::new(out.len(), |node: int| out[node]@)
}

/// The nodes with the indices `indices`.
pub open spec fn as_nodes(indices: Seq<usize>) -> Seq<NodeId> {
    indices.map_values(|index: usize| NodeId(index))
}

/// The next layer and the degrees after the edges to `dests` were removed,
/// one after another: each removal lowers the degree of its destination by
/// one, and a destination whose degree reaches zero joins the next layer.
/// The first edge that points nowhere, or to a node whose degree is zero
/// already, is a fault.
pub open spec fn released(next: Seq<NodeId>, degrees: Seq<usize>, dests: Seq<NodeId>) -> Result<
    (Seq<NodeId>, Seq<usize>),
    LayerFault,
>
    decreases dests.len(),
{
    if dests.len() == 0 {
        Ok((next, degrees))
    } else {
        match released(next, degrees, dests.drop_last()) {
            Err(fault) => Err(fault),
            Ok((next, degrees)) => {
                let dest = dests.last().0;
                if dest >= degrees.len() {
                    Err(LayerFault::MissingNode(dest))
                } else if degrees[dest as int] == 0 {
                    Err(LayerFault::Underflow(dest))
                } else {
                    let lowered = (degrees[dest as int] - 1) as usize;
                    Ok(
                        (
                            if lowered == 0 {
                                next.push(NodeId(dest))
                            } else {
                                next
                            },
                            degrees.update(dest as int, lowered),
                        ),
                    )
                }
            },
        }
    }
}

/// The next layer and the degrees after the nodes of `layer` were taken, in
/// order, and the edges that leave them removed.
pub open spec fn after_layer(out: Seq<Seq<NodeId>>, layer: Seq<NodeId>, degrees: Seq<usize>) -> Result<
    (Seq<NodeId>, Seq<usize>),
    LayerFault,
>
    decreases layer.len(),
{
    if layer.len() == 0 {
        Ok((seq![], degrees))
    } else {
        match after_layer(out, layer.drop_last(), degrees) {
            Err(fault) => Err(fault),
            Ok((next, degrees)) => released(next, degrees, out[layer.last().0 as int]),
        }
    }
}

/// The layers from `layer` on, at most `most` of them: each layer holds the
/// nodes that became free while the layer before it was taken.
pub open spec fn layers_from(
    out: Seq<Seq<NodeId>>,
    layer: Seq<NodeId>,
    degrees: Seq<usize>,
    most: nat,
) -> Result<Seq<Seq<NodeId>>, LayerFault>
    decreases most,
{
    if layer.len() == 0 || most == 0 {
        Ok(seq![])
    } else {
        match after_layer(out, layer, degrees) {
            Err(fault) => Err(fault),
            Ok((next, degrees)) => match layers_from(out, next, degrees, (most - 1) as nat) {
                Err(fault) => Err(fault),
                Ok(rest) => Ok(seq![layer] + rest),
            },
        }
    }
}

/// How many nodes the layers hold together.
pub open spec fn total_len(layers: Seq<Seq<NodeId>>) -> nat
    decreases layers.len(),
{
    if layers.len() == 0 {
        0
    } else {
        total_len(layers.drop_last()) + layers.last().len()
    }
}

/// The layers of a graph with `n` nodes: the first layer holds the nodes of
/// degree zero, in increasing order; each further layer holds the nodes that
/// became free while the layer before it was taken. A graph is refused if
/// its tables are not `n` long, if an edge points nowhere, if a degree is too
/// small for the edges, or if not every node ends up in a layer.
pub open spec fn layering(n: nat, out: Seq<Seq<NodeId>>, indegree: Seq<usize>) -> Result<
    Seq<Seq<NodeId>>,
    LayerFault,
> {
    if out.len() != n || indegree.len() != n {
        Err(LayerFault::LengthMismatch)
    } else {
        complete(layers_from(out, as_nodes(free_nodes(indegree, n)), indegree, n), n)
    }
}

/// Layers that do not hold all `n` nodes are refused: what is left over
/// lies on a cycle, or behind one.
pub open spec fn complete(laid: Result<Seq<Seq<NodeId>>, LayerFault>, n: nat) -> Result<
    Seq<Seq<NodeId>>,
    LayerFault,
> {
    match laid {
        Err(fault) => Err(fault),
        Ok(layers) => if total_len(layers) != n {
            Err(LayerFault::Cycle { seen: total_len(layers) })
        } else {
            Ok(layers)
        },
    }
}

/// The error that reports `fault` in a graph of `n` nodes.
pub open spec fn fault_error(fault: LayerFault, n: nat) -> GraphErrorText {
    match fault {
        LayerFault::LengthMismatch => GraphErrorText::InvalidGraph("length mismatch"@),
        LayerFault::MissingNode(index) => GraphErrorText::InvalidGraph(
            "edge points to missing node index "@ + decimal(index as nat),
        ),
        LayerFault::Underflow(index) => GraphErrorText::InvalidGraph(
            "indegree underflow at node "@ + decimal(index as nat),
        ),
        LayerFault::Cycle { seen } => GraphErrorText::CycleDetected(
            "processed "@ + decimal(seen) + " of "@ + decimal(n) + " nodes"@,
        ),
    }
}

/// The layers as sequences of sequences.
pub open spec fn layers_view(layers: Seq<Vec<NodeId>>) -> Seq<Seq<NodeId>> {
    Seq::new(layers.len(), |layer: int| layers[layer]@)
}

/// The layers `done`, followed by what is still to come.
pub open spec fn followed_by(
    done: Seq<Seq<NodeId>>,
    rest: Result<Seq<Seq<NodeId>>, LayerFault>,
) -> Result<Seq<Seq<NodeId>>, LayerFault> {
    match rest {
        Ok(rest) => Ok(done + rest),
        Err(fault) => Err(fault),
    }
}

proof fn lemma_fault_stays_released(
    next: Seq<NodeId>,
    degrees: Seq<usize>,
    dests: Seq<NodeId>,
    upto: int,
)
    requires
        0 <= upto <= dests.len(),
        released(next, degrees, dests.take(upto)) is Err,
    ensures
        released(next, degrees, dests) == released(next, degrees, dests.take(upto)),
    decreases dests.len() - upto,
{
    if upto < dests.len() {
        assert(dests.take(upto + 1).drop_last() =~= dests.take(upto));
        lemma_fault_stays_released(next, degrees, dests, upto + 1);
    } else {
        assert(dests.take(upto) =~= dests);
    }
}

proof fn lemma_fault_stays_layer(
    out: Seq<Seq<NodeId>>,
    layer: Seq<NodeId>,
    degrees: Seq<usize>,
    upto: int,
)
    requires
        0 <= upto <= layer.len(),
        after_layer(out, layer.take(upto), degrees) is Err,
    ensures
        after_layer(out, layer, degrees) == after_layer(out, layer.take(upto), degrees),
    decreases layer.len() - upto,
{
    if upto < layer.len() {
        assert(layer.take(upto + 1).drop_last() =~= layer.take(upto));
        lemma_fault_stays_layer(out, layer, degrees, upto + 1);
    } else {
        assert(layer.take(upto) =~= layer);
    }
}

proof fn lemma_total_len_push(layers: Seq<Seq<NodeId>>, layer: Seq<NodeId>)
    ensures
        total_len(layers.push(layer)) == total_len(layers) + layer.len(),
{
    assert(layers.push(layer).drop_last() =~= layers);
}

proof fn lemma_distinct_ids_are_few(listed: Seq<NodeId>, n: nat)
    requires
        n <= usize::MAX + 1,
        listed.no_duplicates(),
        forall|i: int| 0 <= i < listed.len() ==> (#[trigger] listed[i]).0 < n,
    ensures
        listed.len() <= n,
{
    let indices = listed.map_values(|node: NodeId| node.0);
    assert(indices.no_duplicates()) by {
        assert forall|i: int, j: int|
            0 <= i < indices.len() && 0 <= j < indices.len() && i != j implies indices[i]
            != indices[j] by {
            assert(listed[i] != listed[j]);
        }
    }
    assert forall|i: int| 0 <= i < indices.len() implies #[trigger] indices[i] < n by {
        assert(listed[i].0 < n);
    }
    lemma_distinct_nodes_are_few(indices, n);
}

fn length_mismatch() -> (error: HAGraphError)
    ensures
        error@ == fault_error(LayerFault::LengthMismatch, 0),
{
    HAGraphError::InvalidGraph(String::from_str("length mismatch"))
}

fn missing_node(index: usize) -> (error: HAGraphError)
    ensures
        error@ == fault_error(LayerFault::MissingNode(index), 0),
{
    let mut text = String::from_str("edge points to missing node index ");
    push_decimal(&mut text, index as u64);
    HAGraphError::InvalidGraph(text)
}

fn underflow(index: usize) -> (error: HAGraphError)
    ensures
        error@ == fault_error(LayerFault::Underflow(index), 0),
{
    let mut text = String::from_str("indegree underflow at node ");
    push_decimal(&mut text, index as u64);
    HAGraphError::InvalidGraph(text)
}

fn cycle(seen: usize, n: usize) -> (error: HAGraphError)
    ensures
        error@ == fault_error(LayerFault::Cycle { seen: seen as nat }, n as nat),
{
    let mut text = String::from_str("processed ");
    push_decimal(&mut text, seen as u64);
    text.append(" of ");
    push_decimal(&mut text, n as u64);
    text.append(" nodes");
    HAGraphError::CycleDetected(text)
}

/// Whether each degree counts the edges from the nodes that are not done.
spec fn degrees_count(out: Seq<Seq<NodeId>>, degrees: Seq<usize>, done: Seq<NodeId>) -> bool {
    forall|v: usize|
        v < degrees.len() ==> #[trigger] degrees[v as int] == pending(out, v, done, degrees.len())
}

/// The same while the edges of one more node are being removed: those to
/// `removed` are gone from the degrees already.
spec fn degrees_count_but(
    out: Seq<Seq<NodeId>>,
    degrees: Seq<usize>,
    done: Seq<NodeId>,
    removed: Seq<NodeId>,
) -> bool {
    forall|v: usize|
        v < degrees.len() ==> (#[trigger] degrees[v as int]) + count_node(removed, v) == pending(
            out,
            v,
            done,
            degrees.len(),
        )
}

/// Whether the origin of every edge into a listed node is taken, and
/// ranked below the node.
spec fn origins_ranked(
    out: Seq<Seq<NodeId>>,
    listed: Seq<NodeId>,
    taken: Seq<NodeId>,
    rank: Seq<nat>,
) -> bool {
    forall|u: int, k: int, j: int|
        #![trigger out[u][k], listed[j]]
        0 <= u < out.len() && 0 <= k < out[u].len() && 0 <= j < listed.len() && listed[j]
            == out[u][k] ==> taken.contains(NodeId(u as usize)) && rank[u] < rank[listed[j].0 as int]
}

/// Whether all of `nodes` have the rank `level`.
spec fn ranked_at(nodes: Seq<NodeId>, rank: Seq<nat>, level: nat) -> bool {
    forall|j: int| 0 <= j < nodes.len() ==> rank[(#[trigger] nodes[j]).0 as int] == level
}

/// Whether each of `nodes` is in the layer that its rank names.
spec fn in_their_layers(nodes: Seq<NodeId>, rank: Seq<nat>, layers: Seq<Seq<NodeId>>) -> bool {
    forall|j: int|
        0 <= j < nodes.len() ==> rank[(#[trigger] nodes[j]).0 as int] < layers.len()
            && layers[rank[nodes[j].0 as int] as int].contains(nodes[j])
}

/// Whether each layer holds taken nodes of the layer's own rank, and at least one.
spec fn layers_ranked(layers: Seq<Seq<NodeId>>, rank: Seq<nat>, taken: Seq<NodeId>) -> bool {
    &&& forall|a: int| 0 <= a < layers.len() ==> (#[trigger] layers[a]).len() > 0
    &&& forall|a: int, i: int|
        0 <= a < layers.len() && 0 <= i < layers[a].len() ==> rank[(#[trigger] layers[a][i]).0 as int]
            == a && taken.contains(layers[a][i]) && layers[a][i].0 < rank.len()
}

/// What is known of a run on a consistent graph between two nodes.
spec fn laid_so_far(
    out: Seq<Seq<NodeId>>,
    layers: Seq<Seq<NodeId>>,
    before: Seq<NodeId>,
    layer: Seq<NodeId>,
    next: Seq<NodeId>,
    taken: Seq<NodeId>,
    rank: Seq<nat>,
) -> bool {
    &&& origins_ranked(out, before + layer + next, taken, rank)
    &&& forall|j: int|
        0 <= j < (before + layer + next).len() ==> (#[trigger] (before + layer + next)[j]).0
            < rank.len()
    &&& in_their_layers(before, rank, layers)
    &&& ranked_at(layer, rank, layers.len())
    &&& ranked_at(next, rank, layers.len() + 1)
    &&& layers_ranked(layers, rank, before)
}

proof fn lemma_contains_id(nodes: Seq<NodeId>, node: usize)
    ensures
        nodes.contains(NodeId(node)) <==> nodes.map_values(|n: NodeId| n.0).contains(node),
{
    let indices = nodes.map_values(|n: NodeId| n.0);
    if nodes.contains(NodeId(node)) {
        let at = choose|at: int| 0 <= at < nodes.len() && nodes[at] == NodeId(node);
        assert(indices[at] == node);
    }
    if indices.contains(node) {
        let at = choose|at: int| 0 <= at < indices.len() && indices[at] == node;
        assert(nodes[at] == NodeId(node));
    }
}

/// Distinct nodes, as many as the graph has, are all its nodes.
proof fn lemma_all_ids_listed(listed: Seq<NodeId>, n: nat, node: usize)
    requires
        n <= usize::MAX + 1,
        listed.no_duplicates(),
        forall|i: int| 0 <= i < listed.len() ==> (#[trigger] listed[i]).0 < n,
        listed.len() == n,
        node < n,
    ensures
        listed.contains(NodeId(node)),
{
    let indices = listed.map_values(|n: NodeId| n.0);
    assert(indices.no_duplicates()) by {
        assert forall|i: int, j: int|
            0 <= i < indices.len() && 0 <= j < indices.len() && i != j implies indices[i]
            != indices[j] by {
            assert(listed[i] != listed[j]);
        }
    }
    assert forall|i: int| 0 <= i < indices.len() implies #[trigger] indices[i] < n by {
        assert(listed[i].0 < n);
    }
    lemma_distinct_nodes_are_few(indices, n);
    lemma_contains_id(listed, node);
}

/// On a consistent graph no edge is found wanting: each edge that is
/// removed points to a node, and is counted in the node's degree.
proof fn lemma_edge_is_counted(
    out: Seq<Seq<NodeId>>,
    degrees: Seq<usize>,
    done: Seq<NodeId>,
    node: usize,
    k: int,
)
    requires
        degrees.len() == out.len(),
        degrees.len() <= usize::MAX,
        node < out.len(),
        !done.contains(NodeId(node)),
        0 <= k < out[node as int].len(),
        out[node as int][k].0 < degrees.len(),
        degrees_count_but(out, degrees, done, out[node as int].take(k)),
    ensures
        degrees[out[node as int][k].0 as int] > 0,
        degrees_count_but(
            out,
            degrees.update(
                out[node as int][k].0 as int,
                (degrees[out[node as int][k].0 as int] - 1) as usize,
            ),
            done,
            out[node as int].take(k + 1),
        ),
        degrees[out[node as int][k].0 as int] == 1 ==> pending(
            out,
            out[node as int][k].0,
            done.push(NodeId(node)),
            degrees.len(),
        ) == 0,
{
    let dests = out[node as int];
    let dest = dests[k].0;
    let n = degrees.len();
    lemma_done_origin(out, dest, done, node, n);
    lemma_count_node_take(dests, k, dest);
    let lowered = degrees.update(dest as int, (degrees[dest as int] - 1) as usize);
    assert forall|v: usize| v < lowered.len() implies (#[trigger] lowered[v as int]) + count_node(
        dests.take(k + 1),
        v,
    ) == pending(out, v, done, lowered.len()) by {
        lemma_count_node_take(dests, k, v);
        assert(degrees[v as int] + count_node(dests.take(k), v) == pending(out, v, done, n));
    }
}

/// Once all edges of a node are removed, the degrees count the edges from
/// the nodes that are left.
proof fn lemma_node_is_done(
    out: Seq<Seq<NodeId>>,
    degrees: Seq<usize>,
    done: Seq<NodeId>,
    node: usize,
)
    requires
        degrees.len() == out.len(),
        degrees.len() <= usize::MAX,
        node < out.len(),
        !done.contains(NodeId(node)),
        degrees_count_but(out, degrees, done, out[node as int]),
    ensures
        degrees_count(out, degrees, done.push(NodeId(node))),
{
    assert forall|v: usize| v < degrees.len() implies #[trigger] degrees[v as int] == pending(
        out,
        v,
        done.push(NodeId(node)),
        degrees.len(),
    ) by {
        lemma_done_origin(out, v, done, node, degrees.len());
        assert(degrees[v as int] + count_node(out[node as int], v) == pending(
            out,
            v,
            done,
            degrees.len(),
        ));
    }
}

/// Taking the next node of the layer keeps what is known.
proof fn lemma_take_keeps(
    out: Seq<Seq<NodeId>>,
    layers: Seq<Seq<NodeId>>,
    before: Seq<NodeId>,
    layer: Seq<NodeId>,
    next: Seq<NodeId>,
    taken: Seq<NodeId>,
    rank: Seq<nat>,
    node: NodeId,
)
    requires
        laid_so_far(out, layers, before, layer, next, taken, rank),
    ensures
        laid_so_far(out, layers, before, layer, next, taken.push(node), rank),
{
    let listed = before + layer + next;
    assert forall|u: int, k: int, j: int|
        #![trigger out[u][k], listed[j]]
        0 <= u < out.len() && 0 <= k < out[u].len() && 0 <= j < listed.len() && listed[j]
            == out[u][k] implies taken.push(node).contains(NodeId(u as usize)) && rank[u]
        < rank[listed[j].0 as int] by {
        vstd::seq_lib::lemma_seq_contains_after_push(taken, node, NodeId(u as usize));
    }
}

/// A node all of whose origins are taken, and ranked no higher than the
/// layer, joins the next layer.
proof fn lemma_join_keeps(
    out: Seq<Seq<NodeId>>,
    layers: Seq<Seq<NodeId>>,
    before: Seq<NodeId>,
    layer: Seq<NodeId>,
    next: Seq<NodeId>,
    taken: Seq<NodeId>,
    rank: Seq<nat>,
    node: usize,
)
    requires
        laid_so_far(out, layers, before, layer, next, taken, rank),
        rank.len() == out.len(),
        out.len() <= usize::MAX,
        node < rank.len(),
        !(before + layer + next).contains(NodeId(node)),
        forall|j: int| 0 <= j < taken.len() ==> (before + layer).contains(#[trigger] taken[j]),
        forall|u: int, k: int|
            0 <= u < out.len() && 0 <= k < out[u].len() && (#[trigger] out[u][k]).0 == node
                ==> taken.contains(NodeId(u as usize)),
    ensures
        laid_so_far(
            out,
            layers,
            before,
            layer,
            next.push(NodeId(node)),
            taken,
            rank.update(node as int, layers.len() + 1),
        ),
{
    let listed = before + layer + next;
    let joined = next.push(NodeId(node));
    let longer = before + layer + joined;
    let ranks = rank.update(node as int, layers.len() + 1);
    assert(longer =~= listed.push(NodeId(node)));
    assert forall|j: int| 0 <= j < before.len() implies before[j].0 != node && before[j].0
        < rank.len() by {
        assert(listed[j] == before[j]);
    }
    assert forall|j: int| 0 <= j < layer.len() implies layer[j].0 != node && layer[j].0
        < rank.len() by {
        assert(listed[before.len() + j] == layer[j]);
    }
    assert forall|j: int| 0 <= j < next.len() implies next[j].0 != node && next[j].0
        < rank.len() by {
        assert(listed[before.len() + layer.len() + j] == next[j]);
    }
    assert forall|j: int| 0 <= j < longer.len() implies (#[trigger] longer[j]).0 < rank.len() by {
        if j < listed.len() {
            assert(longer[j] == listed[j]);
        }
    }
    assert forall|j: int| 0 <= j < taken.len() implies ranks[(#[trigger] taken[j]).0 as int]
        <= layers.len() && taken[j].0 != node by {
        let at = choose|at: int| 0 <= at < (before + layer).len() && (before + layer)[at] == taken[j];
        if at < before.len() {
            assert(before[at] == taken[j]);
        } else {
            assert(layer[at - before.len()] == taken[j]);
        }
    }
    assert forall|u: int, k: int, j: int|
        #![trigger out[u][k], longer[j]]
        0 <= u < out.len() && 0 <= k < out[u].len() && 0 <= j < longer.len() && longer[j]
            == out[u][k] implies taken.contains(NodeId(u as usize)) && ranks[u]
        < ranks[longer[j].0 as int] by {
        if j < listed.len() {
            assert(listed[j] == longer[j]);
            assert(taken.contains(NodeId(u as usize)) && rank[u] < rank[listed[j].0 as int]);
            let at = choose|at: int| 0 <= at < taken.len() && taken[at] == NodeId(u as usize);
            assert(taken[at].0 != node);
        } else {
            assert(out[u][k].0 == node);
            let at = choose|at: int| 0 <= at < taken.len() && taken[at] == NodeId(u as usize);
            assert(ranks[taken[at].0 as int] <= layers.len());
        }
    }
    assert forall|a: int, i: int| 0 <= a < layers.len() && 0 <= i < layers[a].len() implies ranks[(
    #[trigger] layers[a][i]).0 as int] == a by {
        let at = choose|at: int| 0 <= at < before.len() && before[at] == layers[a][i];
        assert(before[at].0 != node);
    }
    assert forall|j: int| 0 <= j < joined.len() implies ranks[(#[trigger] joined[j]).0 as int]
        == layers.len() + 1 by {
        if j < next.len() {
            assert(next[j] == joined[j]);
        }
    }
}

/// A layer that was taken whole becomes the last of the layers.
proof fn lemma_layer_keeps(
    out: Seq<Seq<NodeId>>,
    layers: Seq<Seq<NodeId>>,
    before: Seq<NodeId>,
    layer: Seq<NodeId>,
    next: Seq<NodeId>,
    rank: Seq<nat>,
)
    requires
        laid_so_far(out, layers, before, layer, next, before + layer, rank),
        layer.len() > 0,
    ensures
        laid_so_far(
            out,
            layers.push(layer),
            before + layer,
            next,
            seq![],
            before + layer,
            rank,
        ),
{
    let more = layers.push(layer);
    let done = before + layer;
    assert(done + next + Seq::<NodeId>::empty() =~= before + layer + next);
    assert forall|j: int| 0 <= j < layer.len() implies (#[trigger] layer[j]).0 < rank.len() by {
        assert((before + layer + next)[before.len() + j] == layer[j]);
    }
    assert forall|j: int| 0 <= j < done.len() implies rank[(#[trigger] done[j]).0 as int]
        < more.len() && more[rank[done[j].0 as int] as int].contains(done[j]) by {
        if j < before.len() {
            assert(before[j] == done[j]);
            assert(more[rank[done[j].0 as int] as int] == layers[rank[done[j].0 as int] as int]);
        } else {
            assert(layer[j - before.len()] == done[j]);
            assert(more[layers.len() as int] == layer);
        }
    }
    assert forall|a: int, i: int| 0 <= a < more.len() && 0 <= i < more[a].len() implies rank[(
    #[trigger] more[a][i]).0 as int] == a && done.contains(more[a][i]) && more[a][i].0
        < rank.len() by {
        if a < layers.len() {
            assert(more[a] == layers[a]);
            let at = choose|at: int| 0 <= at < before.len() && before[at] == layers[a][i];
            assert(done[at] == layers[a][i]);
        } else {
            assert(more[a] == layer);
            assert(done[before.len() + i] == layer[i]);
        }
    }
    assert forall|a: int| 0 <= a < more.len() implies (#[trigger] more[a]).len() > 0 by {
        if a < layers.len() {
            assert(more[a] == layers[a]);
        }
    }
}

/// What is known at the end, with every node taken, is that the layers
/// lay the graph out, ranked by the layers' numbers.
proof fn lemma_laid_out(
    out: Seq<Seq<NodeId>>,
    layers: Seq<Seq<NodeId>>,
    taken: Seq<NodeId>,
    rank: Seq<nat>,
    n: nat,
)
    requires
        n <= usize::MAX,
        out.len() == n,
        rank.len() == n,
        targets_exist(n, out),
        laid_so_far(out, layers, taken, seq![], seq![], taken, rank),
        taken.no_duplicates(),
        forall|i: int| 0 <= i < taken.len() ==> (#[trigger] taken[i]).0 < n,
        taken.len() == n,
    ensures
        is_ranking(rank, n, out),
        is_layering(layers, n, out),
{
    assert(taken + Seq::<NodeId>::empty() + Seq::<NodeId>::empty() =~= taken);
    assert forall|u: int, k: int|
        0 <= u < out.len() && 0 <= k < out[u].len() && u < n && out[u][k].0 < n implies rank[u]
        < #[trigger] rank[out[u][k].0 as int] by {
        lemma_all_ids_listed(taken, n, out[u][k].0);
        let j = choose|j: int| 0 <= j < taken.len() && taken[j] == NodeId(out[u][k].0);
        assert(taken[j] == out[u][k]);
    }
    assert forall|node: usize| node < n implies #[trigger] placed(layers, node) by {
        lemma_all_ids_listed(taken, n, node);
        let j = choose|j: int| 0 <= j < taken.len() && taken[j] == NodeId(node);
        let a = rank[taken[j].0 as int] as int;
        let i = choose|i: int| 0 <= i < layers[a].len() && layers[a][i] == taken[j];
        assert(layers[a][i] == NodeId(node));
    }
    assert forall|a: int, i: int, b: int, j: int, k: int|
        #![trigger layers[a][i], layers[b][j], out[layers[a][i].0 as int][k]]
        0 <= a < layers.len() && 0 <= i < layers[a].len() && 0 <= b < layers.len() && 0 <= j
            < layers[b].len() && 0 <= k < out[layers[a][i].0 as int].len() && layers[b][j]
            == out[layers[a][i].0 as int][k] implies a < b by {
        let u = layers[a][i].0 as int;
        assert(rank[layers[a][i].0 as int] == a);
        assert(rank[layers[b][j].0 as int] == b);
        let at = choose|at: int| 0 <= at < taken.len() && taken[at] == layers[b][j];
        assert(taken[at] == out[u][k]);
    }
}

/// A run that got stuck before all nodes were taken shows a cycle.
proof fn lemma_stuck_on_cycle(
    out: Seq<Seq<NodeId>>,
    degrees: Seq<usize>,
    taken: Seq<NodeId>,
    n: nat,
)
    requires
        n <= usize::MAX,
        out.len() == n,
        degrees.len() == n,
        targets_exist(n, out),
        degrees_count(out, degrees, taken),
        forall|v: usize| v < n ==> (#[trigger] degrees[v as int] == 0 <==> taken.contains(NodeId(v))),
        taken.len() < n,
    ensures
        !acyclic(n, out),
{
    if acyclic(n, out) {
        let rank = choose|rank: Seq<nat>| is_ranking(rank, n, out);
        assert forall|v: usize| v < n && !taken.contains(NodeId(v)) implies pending(out, v, taken, n)
            > 0 by {
            assert(degrees[v as int] != 0);
        }
        let indices = taken.map_values(|n: NodeId| n.0);
        assert forall|node: usize| node < n implies indices.contains(node) by {
            lemma_ranked_nodes_get_done(out, n, rank, taken, node);
            lemma_contains_id(taken, node);
        }
        lemma_all_nodes_are_many(indices, n);
    }
}

/// Lays a graph of `n` nodes out in layers, so that every edge points from
/// a layer to a later one. `out` holds the edges that leave each node and
/// `indegree` the number of edges that point to each node. The result is the
/// one that `layering` describes, each fault as the error that reports it.
/// Where the tables are consistent, the graph is laid out exactly if it is
/// acyclic, and the only error is that of a cycle.
pub fn kahn_layers(n: usize, out: &[Vec<NodeId>], indegree: &[usize]) -> (laid: Result<
    Vec<Vec<NodeId>>,
    HAGraphError,
>)
    ensures
        match layering(n as nat, out_edges(out@), indegree@) {
            Ok(layers) => laid matches Ok(found) && layers_view(found@) == layers,
            Err(fault) => laid matches Err(error) && error@ == fault_error(fault, n as nat),
        },
        consistent(n as nat, out_edges(out@), indegree@) ==> {
            &&& laid is Ok <==> acyclic(n as nat, out_edges(out@))
            &&& laid matches Ok(found) ==> is_layering(
                layers_view(found@),
                n as nat,
                out_edges(out@),
            )
            &&& laid matches Err(error) ==> error@ is CycleDetected
        },
{
    if out.len() != n || indegree.len() != n {
        return Err(length_mismatch());
    }
    let ghost outs = out_edges(out@);
    let ghost hyp = consistent(n as nat, outs, indegree@);
    let mut degrees: Vec<usize> = Vec::new();
    let mut copied: usize = 0;
    while copied < n
        invariant
            copied <= n,
            indegree@.len() == n,
            degrees@ == indegree@.take(copied as int),
        decreases n - copied,
    {
        degrees.push(indegree[copied]);
        assert(degrees@ =~= indegree@.take(copied + 1));
        copied = copied + 1;
    }
    assert(degrees@ =~= indegree@);
    let mut q: VecDeque<NodeId> = VecDeque::new();
    let mut node_id: usize = 0;
    while node_id < n
        invariant
            node_id <= n,
            degrees@.len() == n,
            q@ == as_nodes(free_nodes(degrees@, node_id as nat)),
            q@.no_duplicates(),
            forall|i: int| 0 <= i < q@.len() ==> (#[trigger] q@[i]).0 < node_id,
            forall|v: usize|
                v < node_id ==> (#[trigger] degrees@[v as int] == 0 <==> q@.contains(NodeId(v))),
        decreases n - node_id,
    {
        if degrees[node_id] == 0 {
            proof {
                assert forall|v: usize| v < node_id + 1 implies (#[trigger] degrees@[v as int] == 0
                    <==> q@.push(NodeId(node_id)).contains(NodeId(v))) by {
                    vstd::seq_lib::lemma_seq_contains_after_push(q@, NodeId(node_id), NodeId(v));
                    if q@.contains(NodeId(v)) {
                        let at = choose|at: int| 0 <= at < q@.len() && q@[at] == NodeId(v);
                        assert(q@[at].0 < node_id);
                    }
                }
                assert(as_nodes(free_nodes(degrees@, (node_id + 1) as nat)) =~= q@.push(
                    NodeId(node_id),
                ));
            }
            q.push_back(NodeId(node_id));
        }
        node_id = node_id + 1;
    }
    let mut layers: Vec<Vec<NodeId>> = Vec::new();
    let mut seen: usize = 0;
    let ghost goal = layers_from(outs, q@, degrees@, n as nat);
    let ghost mut taken: Seq<NodeId> = seq![];
    let ghost mut rank: Seq<nat> = Seq::new(n as nat, |v: int| 0nat);
    assert(taken + q@ =~= q@);
    proof {
        if hyp {
            let listed = taken + q@ + Seq::<NodeId>::empty();
            assert(listed =~= q@);
            assert forall|u: int, k: int, j: int|
                #![trigger outs[u][k], listed[j]]
                0 <= u < outs.len() && 0 <= k < outs[u].len() && 0 <= j < listed.len() && listed[j]
                    == outs[u][k] implies taken.contains(NodeId(u as usize)) && rank[u]
                < rank[listed[j].0 as int] by {
                assert(q@.contains(listed[j]));
                assert(degrees@[listed[j].0 as int] == 0);
                lemma_none_pending(outs, listed[j].0, taken, n as nat);
                assert(outs[u][k].0 == listed[j].0);
            }
        }
    }
    assert(layers_view(layers@) =~= Seq::<Seq<NodeId>>::empty());
    assert(goal == followed_by(layers_view(layers@), goal)) by {
        if goal is Ok {
            assert(layers_view(layers@) + goal->Ok_0 =~= goal->Ok_0);
        }
    }
    while q.len() > 0
        invariant
            out@.len() == n,
            outs == out_edges(out@),
            layering(n as nat, out_edges(out@), indegree@) == complete(goal, n as nat),
            degrees@.len() == n,
            rank.len() == n,
            hyp == consistent(n as nat, outs, indegree@),
            hyp ==> degrees_count(outs, degrees@, taken),
            hyp ==> laid_so_far(outs, layers_view(layers@), taken, q@, seq![], taken, rank),
            layers@.len() <= seen,
            seen == taken.len(),
            seen == total_len(layers_view(layers@)),
            goal == followed_by(
                layers_view(layers@),
                layers_from(outs, q@, degrees@, (n - layers@.len()) as nat),
            ),
            (taken + q@).no_duplicates(),
            forall|i: int| 0 <= i < (taken + q@).len() ==> (#[trigger] (taken + q@)[i]).0 < n,
            forall|v: usize|
                v < n ==> (#[trigger] degrees@[v as int] == 0 <==> (taken + q@).contains(NodeId(v))),
        decreases n - seen,
    {
        let layer_size = q.len();
        let mut layer: Vec<NodeId> = Vec::new();
        let ghost layer_nodes = q@;
        let ghost degrees_before = degrees@;
        let ghost taken_before = taken;
        let ghost mut next: Seq<NodeId> = seq![];
        let mut i: usize = 0;
        proof {
            lemma_distinct_ids_are_few(taken + q@, n as nat);
            assert(layer_nodes.take(0) =~= Seq::<NodeId>::empty());
            assert(layer_nodes.skip(0) + next =~= q@);
        }
        while i < layer_size
            invariant
                out@.len() == n,
                outs == out_edges(out@),
                layering(n as nat, out_edges(out@), indegree@) == complete(goal, n as nat),
                degrees@.len() == n,
                rank.len() == n,
                hyp == consistent(n as nat, outs, indegree@),
                hyp ==> degrees_count(outs, degrees@, taken),
                hyp ==> laid_so_far(
                    outs,
                    layers_view(layers@),
                    taken_before,
                    layer_nodes,
                    next,
                    taken,
                    rank,
                ),
                i <= layer_size,
                layer_size == layer_nodes.len(),
                layer_size > 0,
                seen == taken.len(),
                taken == taken_before + layer_nodes.take(i as int),
                layer@ == layer_nodes.take(i as int),
                after_layer(outs, layer_nodes.take(i as int), degrees_before) == Ok::<
                    (Seq<NodeId>, Seq<usize>),
                    LayerFault,
                >((next, degrees@)),
                q@ == layer_nodes.skip(i as int) + next,
                (taken + q@).no_duplicates(),
                forall|i: int| 0 <= i < (taken + q@).len() ==> (#[trigger] (taken + q@)[i]).0 < n,
                forall|v: usize|
                    v < n ==> (#[trigger] degrees@[v as int] == 0 <==> (taken + q@).contains(
                        NodeId(v),
                    )),
                goal == followed_by(
                    layers_view(layers@),
                    layers_from(outs, layer_nodes, degrees_before, (n - layers@.len()) as nat),
                ),
                layers@.len() < n,
            ensures
                i == layer_size,
            decreases layer_size - i,
        {
            let ghost listed = taken + q@;
            let ghost next_before = next;
            let ghost degrees_at_node = degrees@;
            let ghost taken_at_node = taken;
            let node = match q.pop_front() {
                Some(node) => node,
                None => {
                    break ;
                },
            };
            proof {
                lemma_distinct_ids_are_few(listed, n as nat);
                assert(node == layer_nodes[i as int]);
                assert(q@ =~= layer_nodes.skip(i + 1) + next);
                assert(listed[taken.len() as int] == node);
                if taken.contains(node) {
                    let at = choose|at: int| 0 <= at < taken.len() && taken[at] == node;
                    assert(listed[at] == node);
                }
                if hyp {
                    lemma_take_keeps(
                        outs,
                        layers_view(layers@),
                        taken_before,
                        layer_nodes,
                        next,
                        taken,
                        rank,
                        node,
                    );
                }
                taken = taken.push(node);
                assert(taken + q@ =~= listed);
                assert(taken =~= taken_before + layer_nodes.take(i + 1));
                assert(layer_nodes.take(i + 1).drop_last() =~= layer_nodes.take(i as int));
            }
            seen = seen + 1;
            layer.push(node);
            assert(layer@ =~= layer_nodes.take(i + 1));
            let ghost dests = outs[node.0 as int];
            let dests_len = out[node.0].len();
            let mut k: usize = 0;
            assert(dests.take(0) =~= Seq::<NodeId>::empty());
            while k < dests_len
                invariant
                    out@.len() == n,
                    outs == out_edges(out@),
                    layering(n as nat, out_edges(out@), indegree@) == complete(goal, n as nat),
                    node.0 < n,
                    dests == outs[node.0 as int],
                    dests_len == dests.len(),
                    k <= dests_len,
                    degrees@.len() == n,
                    rank.len() == n,
                    hyp == consistent(n as nat, outs, indegree@),
                    taken == taken_at_node.push(node),
                    taken == taken_before + layer_nodes.take(i + 1),
                    !taken_at_node.contains(node),
                    hyp ==> degrees_count_but(
                        outs,
                        degrees@,
                        taken_at_node,
                        dests.take(k as int),
                    ),
                    hyp ==> laid_so_far(
                        outs,
                        layers_view(layers@),
                        taken_before,
                        layer_nodes,
                        next,
                        taken,
                        rank,
                    ),
                    i < layer_size,
                    layer_size == layer_nodes.len(),
                    node == layer_nodes[i as int],
                    after_layer(outs, layer_nodes.take(i as int), degrees_before) == Ok::<
                        (Seq<NodeId>, Seq<usize>),
                        LayerFault,
                    >((next_before, degrees_at_node)),
                    released(next_before, degrees_at_node, dests.take(k as int)) == Ok::<
                        (Seq<NodeId>, Seq<usize>),
                        LayerFault,
                    >((next, degrees@)),
                    q@ == layer_nodes.skip(i + 1) + next,
                    (taken + q@).no_duplicates(),
                    forall|i: int|
                        0 <= i < (taken + q@).len() ==> (#[trigger] (taken + q@)[i]).0 < n,
                    forall|v: usize|
                        v < n ==> (#[trigger] degrees@[v as int] == 0 <==> (taken + q@).contains(
                            NodeId(v),
                        )),
                    goal == followed_by(
                        layers_view(layers@),
                        layers_from(outs, layer_nodes, degrees_before, (n - layers@.len()) as nat),
                    ),
                    layers@.len() < n,
                decreases dests_len - k,
            {
                let next_i = out[node.0][k].0;
                let ghost listed_now = taken + q@;
                let ghost degrees_now = degrees@;
                proof {
                    assert(dests.take(k + 1).drop_last() =~= dests.take(k as int));
                    assert(dests.take(k + 1).last() == dests[k as int]);
                    assert(layer_nodes.take(i + 1).drop_last() =~= layer_nodes.take(i as int));
                    assert(layer_nodes.take(i + 1).last() == node);
                }
                if next_i >= n {
                    proof {
                        lemma_fault_stays_released(next_before, degrees_at_node, dests, k + 1);
                        lemma_fault_stays_layer(outs, layer_nodes, degrees_before, i + 1);
                        if hyp {
                            assert(outs[node.0 as int][k as int].0 < n);
                        }
                    }
                    return Err(missing_node(next_i));
                }
                proof {
                    if hyp {
                        lemma_edge_is_counted(outs, degrees@, taken_at_node, node.0, k as int);
                    }
                }
                if degrees[next_i] == 0 {
                    proof {
                        lemma_fault_stays_released(next_before, degrees_at_node, dests, k + 1);
                        lemma_fault_stays_layer(outs, layer_nodes, degrees_before, i + 1);
                    }
                    return Err(underflow(next_i));
                }
                degrees[next_i] = degrees[next_i] - 1;
                if degrees[next_i] == 0 {
                    proof {
                        assert(!listed_now.contains(NodeId(next_i)));
                        assert(taken + q@.push(NodeId(next_i)) =~= listed_now.push(NodeId(next_i)));
                        assert forall|v: usize| v < n implies (#[trigger] degrees@[v as int] == 0
                            <==> listed_now.push(NodeId(next_i)).contains(NodeId(v))) by {
                            vstd::seq_lib::lemma_seq_contains_after_push(
                                listed_now,
                                NodeId(next_i),
                                NodeId(v),
                            );
                            assert(degrees_now[v as int] == 0 <==> listed_now.contains(NodeId(v)));
                        }
                        if hyp {
                            lemma_none_pending(outs, next_i, taken, n as nat);
                            assert(listed_now =~= taken_before + layer_nodes + next) by {
                                assert(layer_nodes.take(i + 1) + layer_nodes.skip(i + 1)
                                    =~= layer_nodes);
                            }
                            assert forall|j: int| 0 <= j < taken.len() implies (taken_before
                                + layer_nodes).contains(#[trigger] taken[j]) by {
                                assert((taken_before + layer_nodes)[j] == taken[j]);
                            }
                            lemma_join_keeps(
                                outs,
                                layers_view(layers@),
                                taken_before,
                                layer_nodes,
                                next,
                                taken,
                                rank,
                                next_i,
                            );
                            rank = rank.update(next_i as int, layers@.len() + 1);
                        }
                        next = next.push(NodeId(next_i));
                        assert(q@.push(NodeId(next_i)) =~= layer_nodes.skip(i + 1) + next);
                    }
                    q.push_back(NodeId(next_i));
                } else {
                    proof {
                        assert forall|v: usize| v < n implies (#[trigger] degrees@[v as int] == 0
                            <==> listed_now.contains(NodeId(v))) by {
                            assert(degrees_now[v as int] == 0 <==> listed_now.contains(NodeId(v)));
                        }
                    }
                }
                k = k + 1;
            }
            proof {
                assert(dests.take(dests_len as int) =~= dests);
                if hyp {
                    lemma_node_is_done(outs, degrees@, taken_at_node, node.0);
                }
            }
            i = i + 1;
        }
        proof {
            assert(layer_nodes.take(layer_size as int) =~= layer_nodes);
            assert(layer_nodes.skip(layer_size as int) + next =~= next);
            let before = layers_view(layers@);
            lemma_total_len_push(before, layer@);
            assert(layers_view(layers@.push(layer)) =~= before.push(layer@));
            if hyp {
                lemma_layer_keeps(outs, before, taken_before, layer_nodes, next, rank);
            }
            let rest = layers_from(outs, next, degrees@, (n - layers@.len() - 1) as nat);
            if rest is Ok {
                assert(before + (seq![layer_nodes] + rest->Ok_0) =~= before.push(layer_nodes)
                    + rest->Ok_0);
            }
        }
        layers.push(layer);
    }
    proof {
        assert(taken + q@ =~= taken);
        assert(q@ =~= Seq::<NodeId>::empty());
        lemma_distinct_ids_are_few(taken, n as nat);
    }
    if seen != n {
        proof {
            if hyp {
                lemma_stuck_on_cycle(outs, degrees@, taken, n as nat);
            }
        }
        return Err(cycle(seen, n));
    }
    proof {
        assert(layers_view(layers@) + Seq::<Seq<NodeId>>::empty() =~= layers_view(layers@));
        if hyp {
            lemma_laid_out(outs, layers_view(layers@), taken, rank, n as nat);
        }
    }
    Ok(layers)
}

} // verus!

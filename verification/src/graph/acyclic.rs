//! Graphs without cycles, and what the degrees of their nodes count.

use vstd::prelude::*;
use crate::graph::NodeId;

verus! {

/// How often `node` occurs among `dests`.
pub open spec fn count_node(dests: Seq<NodeId>, node: usize) -> nat
    decreases dests.len(),
{
    if dests.len() == 0 {
        0
    } else {
        count_node(dests.drop_last(), node) + if dests.last().0 == node {
            1nat
        } else {
            0nat
        }
    }
}

/// How many edges point to `node` from the nodes below `upto` that are
/// not in `done`.
pub open spec fn pending(out: Seq<Seq<NodeId>>, node: usize, done: Seq<NodeId>, upto: nat) -> nat
    decreases upto,
{
    if upto == 0 {
        0
    } else {
        pending(out, node, done, (upto - 1) as nat) + if done.contains(NodeId((upto - 1) as usize)) {
            0nat
        } else {
            count_node(out[upto - 1], node)
        }
    }
}

/// Whether every edge points to a node of the graph.
pub open spec fn targets_exist(n: nat, out: Seq<Seq<NodeId>>) -> bool {
    forall|u: int, k: int|
        0 <= u < out.len() && 0 <= k < out[u].len() ==> (#[trigger] out[u][k]).0 < n
}

/// Whether the tables describe one graph of `n` nodes: each edge points
/// to a node, and `indegree` holds for each node how many edges point to it.
pub open spec fn consistent(n: nat, out: Seq<Seq<NodeId>>, indegree: Seq<usize>) -> bool {
    &&& n <= usize::MAX
    &&& out.len() == n
    &&& indegree.len() == n
    &&& targets_exist(n, out)
    &&& forall|node: usize|
        node < n ==> #[trigger] indegree[node as int] == pending(out, node, seq![], n)
}

/// Whether `rank` gives every node a number that is below those of all
/// the nodes it points to.
pub open spec fn is_ranking(rank: Seq<nat>, n: nat, out: Seq<Seq<NodeId>>) -> bool {
    &&& rank.len() == n
    &&& forall|u: int, k: int|
        0 <= u < out.len() && 0 <= k < out[u].len() && u < n && out[u][k].0 < n ==> rank[u]
            < #[trigger] rank[out[u][k].0 as int]
}

/// A graph is acyclic exactly if its nodes can be ranked.
pub open spec fn acyclic(n: nat, out: Seq<Seq<NodeId>>) -> bool {
    exists|rank: Seq<nat>| is_ranking(rank, n, out)
}

/// Whether `node` has a place in one of the layers.
pub open spec fn placed(layers: Seq<Seq<NodeId>>, node: usize) -> bool {
    exists|a: int, i: int|
        0 <= a < layers.len() && 0 <= i < layers[a].len() && #[trigger] layers[a][i] == NodeId(
            node,
        )
}

/// Whether `layers` lay the graph out: every node is in a layer, no layer
/// is empty, only nodes are in the layers, and every edge points from a
/// layer to a later one.
pub open spec fn is_layering(layers: Seq<Seq<NodeId>>, n: nat, out: Seq<Seq<NodeId>>) -> bool {
    &&& forall|node: usize| node < n ==> #[trigger] placed(layers, node)
    &&& forall|a: int| 0 <= a < layers.len() ==> (#[trigger] layers[a]).len() > 0
    &&& forall|a: int, i: int|
        0 <= a < layers.len() && 0 <= i < layers[a].len() ==> (#[trigger] layers[a][i]).0 < n
    &&& forall|a: int, i: int, b: int, j: int, k: int|
        #![trigger layers[a][i], layers[b][j], out[layers[a][i].0 as int][k]]
        0 <= a < layers.len() && 0 <= i < layers[a].len() && 0 <= b < layers.len() && 0 <= j
            < layers[b].len() && 0 <= k < out[layers[a][i].0 as int].len() && layers[b][j]
            == out[layers[a][i].0 as int][k] ==> a < b
}

pub proof fn lemma_count_node_take(dests: Seq<NodeId>, upto: int, node: usize)
    requires
        0 <= upto < dests.len(),
    ensures
        count_node(dests.take(upto + 1), node) == count_node(dests.take(upto), node) + if dests[upto].0
            == node {
            1nat
        } else {
            0nat
        },
        count_node(dests.take(upto + 1), node) <= count_node(dests, node),
    decreases dests.len() - upto,
{
    assert(dests.take(upto + 1).drop_last() =~= dests.take(upto));
    if upto + 1 < dests.len() {
        lemma_count_node_take(dests, upto + 1, node);
    } else {
        assert(dests.take(upto + 1) =~= dests);
    }
}

/// A node is counted among `dests` exactly if it occurs there.
pub proof fn lemma_count_node_zero(dests: Seq<NodeId>, node: usize)
    ensures
        count_node(dests, node) == 0 <==> (forall|k: int|
            0 <= k < dests.len() ==> (#[trigger] dests[k]).0 != node),
    decreases dests.len(),
{
    if dests.len() > 0 {
        let front = dests.drop_last();
        lemma_count_node_zero(front, node);
        if count_node(dests, node) == 0 {
            assert forall|k: int| 0 <= k < dests.len() implies (#[trigger] dests[k]).0 != node by {
                if k < dests.len() - 1 {
                    assert(front[k] == dests[k]);
                }
            }
        } else {
            if count_node(front, node) != 0 {
                let k = choose|k: int| 0 <= k < front.len() && (#[trigger] front[k]).0 == node;
                assert(dests[k] == front[k]);
            } else {
                assert(dests[dests.len() - 1] == dests.last());
            }
        }
    }
}

/// Marking `origin` as done takes from the pending edges into `node`
/// exactly those that leave `origin`.
pub proof fn lemma_done_origin(
    out: Seq<Seq<NodeId>>,
    node: usize,
    done: Seq<NodeId>,
    origin: usize,
    upto: nat,
)
    requires
        !done.contains(NodeId(origin)),
        upto <= out.len(),
        upto <= usize::MAX,
    ensures
        pending(out, node, done, upto) == pending(out, node, done.push(NodeId(origin)), upto)
            + if origin < upto {
            count_node(out[origin as int], node)
        } else {
            0nat
        },
    decreases upto,
{
    if upto > 0 {
        lemma_done_origin(out, node, done, origin, (upto - 1) as nat);
        vstd::seq_lib::lemma_seq_contains_after_push(
            done,
            NodeId(origin),
            NodeId((upto - 1) as usize),
        );
    }
}

/// No edge into `node` is pending exactly if all their origins are done.
pub proof fn lemma_none_pending(out: Seq<Seq<NodeId>>, node: usize, done: Seq<NodeId>, upto: nat)
    requires
        upto <= out.len(),
        upto <= usize::MAX,
    ensures
        pending(out, node, done, upto) == 0 <==> (forall|u: int, k: int|
            0 <= u < upto && 0 <= k < out[u].len() && (#[trigger] out[u][k]).0 == node
                ==> done.contains(NodeId(u as usize))),
    decreases upto,
{
    if upto > 0 {
        let last = (upto - 1) as int;
        lemma_none_pending(out, node, done, (upto - 1) as nat);
        lemma_count_node_zero(out[last], node);
        if pending(out, node, done, upto) == 0 {
            assert forall|u: int, k: int|
                0 <= u < upto && 0 <= k < out[u].len() && (#[trigger] out[u][k]).0
                    == node implies done.contains(NodeId(u as usize)) by {
                if u == last {
                    if !done.contains(NodeId(last as usize)) {
                        assert(out[last][k].0 != node);
                    }
                }
            }
        } else {
            if pending(out, node, done, (upto - 1) as nat) != 0 {
                let (u, k) = choose|u: int, k: int|
                    0 <= u < upto - 1 && 0 <= k < out[u].len() && (#[trigger] out[u][k]).0 == node
                        && !done.contains(NodeId(u as usize));
                assert(out[u][k].0 == node);
            } else {
                assert(!done.contains(NodeId(last as usize)));
                let k = choose|k: int| 0 <= k < out[last].len() && (#[trigger] out[last][k]).0 == node;
                assert(out[last][k].0 == node);
            }
        }
    }
}

/// In a ranked graph, if every node that is not done is pointed to by one
/// that is not done, then every node is done.
pub proof fn lemma_ranked_nodes_get_done(
    out: Seq<Seq<NodeId>>,
    n: nat,
    rank: Seq<nat>,
    done: Seq<NodeId>,
    node: usize,
)
    requires
        n <= usize::MAX,
        out.len() == n,
        targets_exist(n, out),
        is_ranking(rank, n, out),
        forall|v: usize| v < n && !done.contains(NodeId(v)) ==> pending(out, v, done, n) > 0,
        node < n,
    ensures
        done.contains(NodeId(node)),
    decreases rank[node as int],
{
    if !done.contains(NodeId(node)) {
        lemma_none_pending(out, node, done, n);
        let (u, k) = choose|u: int, k: int|
            0 <= u < n && 0 <= k < out[u].len() && (#[trigger] out[u][k]).0 == node
                && !done.contains(NodeId(u as usize));
        assert(rank[u] < rank[out[u][k].0 as int]);
        lemma_ranked_nodes_get_done(out, n, rank, done, u as usize);
    }
}

/// The pending edges depend on the rows below `upto` only.
pub proof fn lemma_pending_rows(
    out: Seq<Seq<NodeId>>,
    other: Seq<Seq<NodeId>>,
    node: usize,
    done: Seq<NodeId>,
    upto: nat,
)
    requires
        upto <= out.len(),
        upto <= other.len(),
        forall|u: int| 0 <= u < upto ==> out[u] == other[u],
    ensures
        pending(out, node, done, upto) == pending(other, node, done, upto),
    decreases upto,
{
    if upto > 0 {
        lemma_pending_rows(out, other, node, done, (upto - 1) as nat);
    }
}

/// One more edge from `from` to `to` is one more pending edge into `to`,
/// and changes nothing for the other nodes.
pub proof fn lemma_pending_one_more(
    out: Seq<Seq<NodeId>>,
    from: int,
    to: NodeId,
    node: usize,
    upto: nat,
)
    requires
        0 <= from < out.len(),
        upto <= out.len(),
    ensures
        pending(out.update(from, out[from].push(to)), node, seq![], upto) == pending(
            out,
            node,
            seq![],
            upto,
        ) + if from < upto && to.0 == node {
            1nat
        } else {
            0nat
        },
    decreases upto,
{
    if upto > 0 {
        lemma_pending_one_more(out, from, to, node, (upto - 1) as nat);
        if from == upto - 1 {
            assert(out[from].push(to).drop_last() =~= out[from]);
        }
    }
}

/// A node that no edge points to has no pending edges.
pub proof fn lemma_pending_none(out: Seq<Seq<NodeId>>, node: usize, done: Seq<NodeId>, upto: nat)
    requires
        upto <= out.len(),
        forall|u: int, k: int|
            0 <= u < out.len() && 0 <= k < out[u].len() ==> (#[trigger] out[u][k]).0 != node,
    ensures
        pending(out, node, done, upto) == 0,
    decreases upto,
{
    if upto > 0 {
        lemma_pending_none(out, node, done, (upto - 1) as nat);
        lemma_count_node_zero(out[upto - 1], node);
    }
}

} // verus!

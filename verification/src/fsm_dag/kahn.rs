//! Topological ordering of a directed graph by repeated removal of the nodes
//! that nothing points to.

use vstd::prelude::*;
use std::collections::VecDeque;

verus! {

/// Whether both ends of every edge are nodes of a graph with `n` nodes.
pub open spec fn edges_in_range(n: nat, edges: Seq<(usize, usize)>) -> bool {
    forall|e: int| 0 <= e < edges.len() ==> (#[trigger] edges[e]).0 < n && edges[e].1 < n
}

/// Whether `order` lists each of the nodes `0..n` exactly once.
pub open spec fn lists_each_node_once(order: Seq<usize>, n: nat) -> bool {
    &&& order.len() == n
    &&& order.no_duplicates()
    &&& forall|i: int| 0 <= i < order.len() ==> #[trigger] order[i] < n
    &&& forall|node: usize| node < n ==> #[trigger] order.contains(node)
}

/// Whether the origin of every edge comes before its destination in `order`.
pub open spec fn respects(order: Seq<usize>, edges: Seq<(usize, usize)>) -> bool {
    forall|e: int, i: int, j: int|
        #![trigger edges[e], order[i], order[j]]
        0 <= e < edges.len() && 0 <= i < order.len() && 0 <= j < order.len() && order[i]
            == edges[e].0 && order[j] == edges[e].1 ==> i < j
}

/// A topological order: every node once, and no edge pointing backwards.
pub open spec fn is_topological_order(order: Seq<usize>, n: nat, edges: Seq<(usize, usize)>) -> bool {
    lists_each_node_once(order, n) && respects(order, edges)
}

/// How often `node` occurs in `nodes`.
pub open spec fn count_of(nodes: Seq<usize>, node: usize) -> nat
    decreases nodes.len(),
{
    if nodes.len() == 0 {
        0
    } else {
        count_of(nodes.drop_last(), node) + if nodes.last() == node {
            1nat
        } else {
            0nat
        }
    }
}

/// The destinations of the edges that leave `origin`, in the order of the edges.
pub open spec fn dests_from(edges: Seq<(usize, usize)>, origin: usize) -> Seq<usize>
    decreases edges.len(),
{
    if edges.len() == 0 {
        seq![]
    } else {
        let rest = dests_from(edges.drop_last(), origin);
        if edges.last().0 == origin {
            rest.push(edges.last().1)
        } else {
            rest
        }
    }
}

/// How many edges point to `node` from an origin that is not in `done`.
pub open spec fn pending_in(edges: Seq<(usize, usize)>, node: usize, done: Seq<usize>) -> nat
    decreases edges.len(),
{
    if edges.len() == 0 {
        0
    } else {
        pending_in(edges.drop_last(), node, done) + if edges.last().1 == node && !done.contains(
            edges.last().0,
        ) {
            1nat
        } else {
            0nat
        }
    }
}

/// Whether `node` occurs in `listed` before position `end`.
pub open spec fn occurs_before(listed: Seq<usize>, node: usize, end: int) -> bool {
    exists|i: int| 0 <= i < end && i < listed.len() && #[trigger] listed[i] == node
}

/// Whether each listed node comes after the origins of all edges that point to it.
pub open spec fn origins_come_first(listed: Seq<usize>, edges: Seq<(usize, usize)>) -> bool {
    forall|e: int, j: int|
        #![trigger edges[e], listed[j]]
        0 <= e < edges.len() && 0 <= j < listed.len() && listed[j] == edges[e].1 ==> occurs_before(
            listed,
            edges[e].0,
            j,
        )
}

/// The nodes below `upto` to which, by `degrees`, nothing points, in increasing order.
pub open spec fn free_nodes(degrees: Seq<usize>, upto: nat) -> Seq<usize>
    decreases upto,
{
    if upto == 0 {
        seq![]
    } else {
        let rest = free_nodes(degrees, (upto - 1) as nat);
        if degrees[upto - 1] == 0 {
            rest.push((upto - 1) as usize)
        } else {
            rest
        }
    }
}

/// How many edges point to each node.
pub open spec fn in_degrees(n: nat, edges: Seq<(usize, usize)>) -> Seq<usize> {
    Seq::new(n, |node: int| pending_in(edges, node as usize, Seq::<usize>::empty()) as usize)
}

/// The queue and the degrees after the edges to `dests` were removed, one
/// after another: each removal lowers the degree of its destination by one,
/// and a destination whose degree reaches zero joins the queue.
pub open spec fn removed(queue: Seq<usize>, degrees: Seq<usize>, dests: Seq<usize>) -> (Seq<usize>, Seq<
    usize,
>)
    decreases dests.len(),
{
    if dests.len() == 0 {
        (queue, degrees)
    } else {
        let (queue, degrees) = removed(queue, degrees, dests.drop_last());
        let dest = dests.last();
        let lowered = (degrees[dest as int] - 1) as usize;
        (
            if lowered == 0 {
                queue.push(dest)
            } else {
                queue
            },
            degrees.update(dest as int, lowered),
        )
    }
}

/// The nodes taken once the queue has run dry or `fuel` nodes were taken:
/// the head of the queue is taken, and its edges are removed.
pub open spec fn taken_in_turn(
    edges: Seq<(usize, usize)>,
    queue: Seq<usize>,
    degrees: Seq<usize>,
    taken: Seq<usize>,
    fuel: nat,
) -> Seq<usize>
    decreases fuel,
{
    if fuel == 0 || queue.len() == 0 {
        taken
    } else {
        let node = queue[0];
        let (queue, degrees) = removed(queue.drop_first(), degrees, dests_from(edges, node));
        taken_in_turn(edges, queue, degrees, taken.push(node), (fuel - 1) as nat)
    }
}

/// The order in which `kahn` takes the nodes of a graph: those that nothing
/// points to first, in increasing order, then each node as soon as all edges
/// into it are removed. Empty if not every node can be taken.
pub open spec fn kahn_order(n: nat, edges: Seq<(usize, usize)>) -> Seq<usize> {
    let degrees = in_degrees(n, edges);
    let taken = taken_in_turn(edges, free_nodes(degrees, n), degrees, seq![], n);
    if taken.len() < n {
        seq![]
    } else {
        taken
    }
}

/// The nodes `0..n` as a set.
pub open spec fn nodes_below(n: nat) -> Set<usize> {
    Set::new(|node: usize| node < n)
}

proof fn lemma_nodes_below(n: nat)
    requires
        n <= usize::MAX + 1,
    ensures
        nodes_below(n).finite(),
        nodes_below(n).len() == n,
    decreases n,
{
    if n == 0 {
        assert(nodes_below(0) =~= Set::<usize>::empty());
    } else {
        lemma_nodes_below((n - 1) as nat);
        assert(nodes_below(n) =~= nodes_below((n - 1) as nat).insert((n - 1) as usize));
    }
}

/// A list of distinct nodes of a graph is no longer than the graph has nodes,
/// and is shorter if it misses one.
pub proof fn lemma_distinct_nodes_are_few(listed: Seq<usize>, n: nat)
    requires
        n <= usize::MAX + 1,
        listed.no_duplicates(),
        forall|i: int| 0 <= i < listed.len() ==> #[trigger] listed[i] < n,
    ensures
        listed.len() <= n,
        forall|node: usize| node < n && !listed.contains(node) ==> listed.len() < n,
{
    lemma_nodes_below(n);
    listed.unique_seq_to_set();
    assert(listed.to_set().subset_of(nodes_below(n))) by {
        assert forall|node: usize| listed.to_set().contains(node) implies nodes_below(n).contains(
            node,
        ) by {
            let i = choose|i: int| 0 <= i < listed.len() && listed[i] == node;
            assert(listed[i] < n);
        }
    }
    vstd::set_lib::lemma_len_subset(listed.to_set(), nodes_below(n));
    assert forall|node: usize| node < n && !listed.contains(node) implies listed.len() < n by {
        let rest = nodes_below(n).remove(node);
        assert(listed.to_set().subset_of(rest));
        vstd::set_lib::lemma_len_subset(listed.to_set(), rest);
    }
}

/// A list that holds every node of a graph is at least as long as the graph has nodes.
pub proof fn lemma_all_nodes_are_many(listed: Seq<usize>, n: nat)
    requires
        n <= usize::MAX + 1,
        forall|node: usize| node < n ==> listed.contains(node),
    ensures
        listed.len() >= n,
{
    lemma_nodes_below(n);
    listed.lemma_cardinality_of_set();
    assert(nodes_below(n).subset_of(listed.to_set()));
    vstd::seq_lib::seq_to_set_is_finite(listed);
    vstd::set_lib::lemma_len_subset(nodes_below(n), listed.to_set());
}

proof fn lemma_count_push(nodes: Seq<usize>, last: usize, node: usize)
    ensures
        count_of(nodes.push(last), node) == count_of(nodes, node) + if last == node {
            1nat
        } else {
            0nat
        },
{
    assert(nodes.push(last).drop_last() =~= nodes);
}

proof fn lemma_count_take(nodes: Seq<usize>, upto: int, node: usize)
    requires
        0 <= upto < nodes.len(),
    ensures
        count_of(nodes.take(upto + 1), node) == count_of(nodes.take(upto), node) + if nodes[upto]
            == node {
            1nat
        } else {
            0nat
        },
        count_of(nodes.take(upto + 1), node) <= count_of(nodes, node),
    decreases nodes.len() - upto,
{
    assert(nodes.take(upto + 1).drop_last() =~= nodes.take(upto));
    if upto + 1 < nodes.len() {
        lemma_count_take(nodes, upto + 1, node);
    } else {
        assert(nodes.take(upto + 1) =~= nodes);
    }
}

/// Marking `origin` as done takes from the pending edges into `node` exactly
/// those that leave `origin`.
proof fn lemma_done_origin(edges: Seq<(usize, usize)>, node: usize, done: Seq<usize>, origin: usize)
    requires
        !done.contains(origin),
    ensures
        pending_in(edges, node, done) == pending_in(edges, node, done.push(origin)) + count_of(
            dests_from(edges, origin),
            node,
        ),
    decreases edges.len(),
{
    if edges.len() > 0 {
        lemma_done_origin(edges.drop_last(), node, done, origin);
        let last = edges.last();
        vstd::seq_lib::lemma_seq_contains_after_push(done, origin, last.0);
        if last.0 == origin {
            lemma_count_push(dests_from(edges.drop_last(), origin), last.1, node);
        }
    }
}

/// No edge into `node` is pending exactly if all their origins are done.
proof fn lemma_none_pending(edges: Seq<(usize, usize)>, node: usize, done: Seq<usize>)
    ensures
        pending_in(edges, node, done) == 0 <==> (forall|e: int|
            0 <= e < edges.len() && (#[trigger] edges[e]).1 == node ==> done.contains(edges[e].0)),
    decreases edges.len(),
{
    if edges.len() > 0 {
        let front = edges.drop_last();
        lemma_none_pending(front, node, done);
        if pending_in(edges, node, done) == 0 {
            assert forall|e: int| 0 <= e < edges.len() && (#[trigger] edges[e]).1
                == node implies done.contains(edges[e].0) by {
                if e < edges.len() - 1 {
                    assert(front[e] == edges[e]);
                }
            }
        } else {
            if pending_in(front, node, done) != 0 {
                let e = choose|e: int|
                    0 <= e < front.len() && (#[trigger] front[e]).1 == node && !done.contains(
                        front[e].0,
                    );
                assert(edges[e] == front[e]);
            } else {
                assert(edges[edges.len() - 1] == edges.last());
            }
        }
    }
}

/// The destinations of edges in range are nodes.
proof fn lemma_dests_in_range(n: nat, edges: Seq<(usize, usize)>, origin: usize)
    requires
        edges_in_range(n, edges),
    ensures
        forall|k: int|
            0 <= k < dests_from(edges, origin).len() ==> #[trigger] dests_from(edges, origin)[k]
                < n,
    decreases edges.len(),
{
    if edges.len() > 0 {
        let front = edges.drop_last();
        assert(edges_in_range(n, front)) by {
            assert forall|e: int| 0 <= e < front.len() implies (#[trigger] front[e]).0 < n
                && front[e].1 < n by {
                assert(front[e] == edges[e]);
            }
        }
        lemma_dests_in_range(n, front, origin);
        assert(edges[edges.len() - 1] == edges.last());
        let rest = dests_from(front, origin);
        assert forall|k: int| 0 <= k < dests_from(edges, origin).len() implies #[trigger] dests_from(
            edges,
            origin,
        )[k] < n by {
            if k < rest.len() {
                assert(dests_from(edges, origin)[k] == rest[k]);
            }
        }
    }
}

/// Listing one more node, all of whose origins are listed already, keeps
/// the origins first.
proof fn lemma_list_one_more(listed: Seq<usize>, edges: Seq<(usize, usize)>, node: usize)
    requires
        origins_come_first(listed, edges),
        forall|e: int|
            0 <= e < edges.len() && (#[trigger] edges[e]).1 == node ==> listed.contains(edges[e].0),
    ensures
        origins_come_first(listed.push(node), edges),
{
    let longer = listed.push(node);
    assert forall|e: int, j: int|
        #![trigger edges[e], longer[j]]
        0 <= e < edges.len() && 0 <= j < longer.len() && longer[j] == edges[e].1 implies occurs_before(
        longer,
        edges[e].0,
        j,
    ) by {
        if j < listed.len() {
            assert(listed[j] == longer[j]);
            assert(occurs_before(listed, edges[e].0, j));
            let i = choose|i: int| 0 <= i < j && i < listed.len() && listed[i] == edges[e].0;
            assert(longer[i] == edges[e].0);
        } else {
            let i = choose|i: int| 0 <= i < listed.len() && listed[i] == edges[e].0;
            assert(longer[i] == edges[e].0);
        }
    }
}

/// A complete list with the origins first is a topological order.
proof fn lemma_complete_list_is_order(listed: Seq<usize>, n: nat, edges: Seq<(usize, usize)>)
    requires
        n <= usize::MAX + 1,
        listed.len() == n,
        listed.no_duplicates(),
        forall|i: int| 0 <= i < listed.len() ==> #[trigger] listed[i] < n,
        origins_come_first(listed, edges),
    ensures
        is_topological_order(listed, n, edges),
{
    lemma_distinct_nodes_are_few(listed, n);
    assert forall|e: int, i: int, j: int|
        #![trigger edges[e], listed[i], listed[j]]
        0 <= e < edges.len() && 0 <= i < listed.len() && 0 <= j < listed.len() && listed[i]
            == edges[e].0 && listed[j] == edges[e].1 implies i < j by {
        assert(occurs_before(listed, edges[e].0, j));
        let first = choose|first: int|
            0 <= first < j && first < listed.len() && listed[first] == edges[e].0;
        assert(first == i);
    }
}

/// If the removal got stuck, with every node that is not done still pointed
/// to by one that is not done, then the graph has no topological order.
proof fn lemma_stuck_means_no_order(
    done: Seq<usize>,
    n: nat,
    edges: Seq<(usize, usize)>,
    order: Seq<usize>,
)
    requires
        n <= usize::MAX + 1,
        edges_in_range(n, edges),
        done.len() < n,
        forall|node: usize| node < n && !done.contains(node) ==> pending_in(edges, node, done) > 0,
    ensures
        !is_topological_order(order, n, edges),
{
    if is_topological_order(order, n, edges) {
        assert forall|node: usize| node < n implies done.contains(node) by {
            assert(order.contains(node));
            let at = choose|at: int| 0 <= at < order.len() && order[at] == node;
            lemma_order_prefix_is_done(done, n, edges, order, at);
        }
        lemma_all_nodes_are_many(done, n);
    }
}

proof fn lemma_order_prefix_is_done(
    done: Seq<usize>,
    n: nat,
    edges: Seq<(usize, usize)>,
    order: Seq<usize>,
    at: int,
)
    requires
        edges_in_range(n, edges),
        forall|node: usize| node < n && !done.contains(node) ==> pending_in(edges, node, done) > 0,
        is_topological_order(order, n, edges),
        0 <= at < order.len(),
    ensures
        done.contains(order[at]),
    decreases at,
{
    let node = order[at];
    if !done.contains(node) {
        lemma_none_pending(edges, node, done);
        let e = choose|e: int|
            0 <= e < edges.len() && (#[trigger] edges[e]).1 == node && !done.contains(edges[e].0);
        let origin = edges[e].0;
        assert(order.contains(origin));
        let before = choose|before: int| 0 <= before < order.len() && order[before] == origin;
        assert(before < at) by {
            let _ = (edges[e], order[before], order[at]);
        }
        lemma_order_prefix_is_done(done, n, edges, order, before);
    }
}

proof fn lemma_pending_bound(edges: Seq<(usize, usize)>, node: usize, done: Seq<usize>)
    ensures
        pending_in(edges, node, done) <= edges.len(),
    decreases edges.len(),
{
    if edges.len() > 0 {
        lemma_pending_bound(edges.drop_last(), node, done);
    }
}

/// Orders the nodes `0..num_nodes` so that every edge points forwards.
///
/// Nodes that nothing points to are taken first, in increasing order; taking
/// a node removes its edges, and a node is queued as soon as nothing points
/// to it any more. The result is a topological order of the graph if it has
/// one, and empty if it has none, that is, if the edges hold a cycle.
pub fn kahn(num_nodes: usize, edges: &[(usize, usize)]) -> (order: Vec<usize>)
    requires
        edges_in_range(num_nodes as nat, edges@),
    ensures
        order@ == kahn_order(num_nodes as nat, edges@),
        order@.len() == 0 || is_topological_order(order@, num_nodes as nat, edges@),
        (exists|other: Seq<usize>| is_topological_order(other, num_nodes as nat, edges@))
            ==> order@.len() == num_nodes,
{
    let ghost n = num_nodes as nat;
    let mut result: Vec<usize> = Vec::new();
    let mut in_degree: Vec<usize> = Vec::new();
    let mut graph: Vec<Vec<usize>> = Vec::new();
    let mut made: usize = 0;
    while made < num_nodes
        invariant
            made <= num_nodes,
            in_degree.len() == made,
            graph.len() == made,
            forall|v: int| 0 <= v < made ==> #[trigger] in_degree@[v] == 0,
            forall|u: int| 0 <= u < made ==> (#[trigger] graph@[u])@ =~= Seq::<usize>::empty(),
        decreases num_nodes - made,
    {
        in_degree.push(0);
        graph.push(Vec::new());
        made = made + 1;
    }
    let mut read: usize = 0;
    while read < edges.len()
        invariant
            read <= edges.len(),
            in_degree.len() == num_nodes,
            graph.len() == num_nodes,
            edges_in_range(n, edges@),
            n == num_nodes,
            forall|u: usize|
                u < n ==> (#[trigger] graph@[u as int])@ == dests_from(edges@.take(read as int), u),
            forall|v: usize|
                v < n ==> #[trigger] in_degree@[v as int] == pending_in(
                    edges@.take(read as int),
                    v,
                    Seq::<usize>::empty(),
                ),
        decreases edges.len() - read,
    {
        let (origin, dest) = edges[read];
        let ghost upto = edges@.take(read + 1);
        proof {
            assert(upto.drop_last() =~= edges@.take(read as int));
            assert(upto.last() == edges@[read as int]);
            lemma_pending_bound(edges@.take(read as int), dest, Seq::<usize>::empty());
        }
        graph[origin].push(dest);
        in_degree[dest] = in_degree[dest] + 1;
        read = read + 1;
    }
    assert(edges@.take(read as int) =~= edges@);
    proof {
        assert forall|u: usize, k: int| u < n && 0 <= k < graph@[u as int]@.len() implies (
        #[trigger] graph@[u as int]@[k]) < n by {
            lemma_dests_in_range(n, edges@, u);
        }
    }
    assert(in_degree@ =~= in_degrees(n, edges@));
    let mut q: VecDeque<usize> = VecDeque::new();
    let mut node: usize = 0;
    while node < num_nodes
        invariant
            node <= num_nodes,
            in_degree.len() == num_nodes,
            q@ == free_nodes(in_degree@, node as nat),
            q@.no_duplicates(),
            forall|i: int| 0 <= i < q@.len() ==> #[trigger] q@[i] < node,
            forall|v: usize|
                v < node ==> (#[trigger] in_degree@[v as int] == 0 <==> q@.contains(v)),
        decreases num_nodes - node,
    {
        if in_degree[node] == 0 {
            proof {
                assert forall|v: usize| v < node + 1 implies (#[trigger] in_degree@[v as int] == 0
                    <==> q@.push(node).contains(v)) by {
                    vstd::seq_lib::lemma_seq_contains_after_push(q@, node, v);
                    if v == node {
                    } else {
                        assert(v < node);
                    }
                }
            }
            q.push_back(node);
        }
        node = node + 1;
    }
    proof {
        assert(result@ + q@ =~= q@);
        assert forall|e: int, j: int|
            #![trigger edges@[e], q@[j]]
            0 <= e < edges@.len() && 0 <= j < q@.len() && q@[j] == edges@[e].1 implies occurs_before(
            q@,
            edges@[e].0,
            j,
        ) by {
            let to = q@[j];
            assert(q@.contains(to));
            assert(in_degree@[to as int] == 0);
            lemma_none_pending(edges@, to, Seq::<usize>::empty());
            assert(Seq::<usize>::empty().contains(edges@[e].0));
        }
    }
    let mut processed: usize = 0;
    let ghost all_taken = taken_in_turn(edges@, q@, in_degree@, seq![], n);
    while q.len() > 0
        invariant
            n == num_nodes,
            all_taken == taken_in_turn(
                edges@,
                q@,
                in_degree@,
                result@,
                (num_nodes - result.len()) as nat,
            ),
            edges_in_range(n, edges@),
            in_degree.len() == num_nodes,
            graph.len() == num_nodes,
            forall|u: usize| u < n ==> (#[trigger] graph@[u as int])@ == dests_from(edges@, u),
            forall|u: usize, k: int|
                u < n && 0 <= k < graph@[u as int]@.len() ==> (#[trigger] graph@[u as int]@[k]) < n,
            processed == result.len(),
            (result@ + q@).no_duplicates(),
            forall|i: int| 0 <= i < (result@ + q@).len() ==> #[trigger] (result@ + q@)[i] < n,
            forall|v: usize|
                v < n ==> #[trigger] in_degree@[v as int] == pending_in(edges@, v, result@),
            forall|v: usize|
                v < n ==> (#[trigger] in_degree@[v as int] == 0 <==> (result@ + q@).contains(v)),
            origins_come_first(result@ + q@, edges@),
        ensures
            q@.len() == 0,
        decreases num_nodes - result.len(),
    {
        let ghost done = result@;
        let ghost listed = result@ + q@;
        let ghost queue_before = q@;
        let ghost degrees_before = in_degree@;
        proof {
            lemma_distinct_nodes_are_few(listed, n);
        }
        let node = match q.pop_front() {
            Some(node) => node,
            None => {
                break ;
            },
        };
        processed = processed + 1;
        result.push(node);
        proof {
            assert(result@ + q@ =~= listed);
            assert(listed[done.len() as int] == node);
            if done.contains(node) {
                let at = choose|at: int| 0 <= at < done.len() && done[at] == node;
                assert(listed[at] == node);
            }
        }
        let adj_len = graph[node].len();
        let mut k: usize = 0;
        assert(q@ =~= queue_before.drop_first());
        while k < adj_len
            invariant
                n == num_nodes,
                k <= adj_len,
                (q@, in_degree@) == removed(
                    queue_before.drop_first(),
                    degrees_before,
                    graph@[node as int]@.take(k as int),
                ),
                node < n,
                adj_len == graph@[node as int]@.len(),
                edges_in_range(n, edges@),
                in_degree.len() == num_nodes,
                graph.len() == num_nodes,
                forall|u: usize| u < n ==> (#[trigger] graph@[u as int])@ == dests_from(edges@, u),
                forall|u: usize, k: int|
                    u < n && 0 <= k < graph@[u as int]@.len() ==> (#[trigger] graph@[u as int]@[k])
                        < n,
                result@ == done.push(node),
                !done.contains(node),
                (result@ + q@).no_duplicates(),
                forall|i: int| 0 <= i < (result@ + q@).len() ==> #[trigger] (result@ + q@)[i] < n,
                forall|v: usize|
                    v < n ==> (#[trigger] in_degree@[v as int]) + count_of(
                        graph@[node as int]@.take(k as int),
                        v,
                    ) == pending_in(edges@, v, done),
                forall|v: usize|
                    v < n ==> (#[trigger] in_degree@[v as int] == 0 <==> (result@ + q@).contains(
                        v,
                    )),
                origins_come_first(result@ + q@, edges@),
            decreases adj_len - k,
        {
            let ghost adj = graph@[node as int]@;
            let ghost listed_now = result@ + q@;
            let ghost degrees = in_degree@;
            let next_node = graph[node][k];
            proof {
                assert(adj[k as int] < n);
                lemma_done_origin(edges@, next_node, done, node);
                lemma_count_take(adj, k as int, next_node);
            }
            in_degree[next_node] = in_degree[next_node] - 1;
            proof {
                assert(adj.take(k + 1).drop_last() =~= adj.take(k as int));
                assert(adj.take(k + 1).last() == next_node);
                assert forall|v: usize| v < n implies (#[trigger] in_degree@[v as int]) + count_of(
                    adj.take(k + 1),
                    v,
                ) == pending_in(edges@, v, done) by {
                    lemma_count_take(adj, k as int, v);
                    assert(degrees[v as int] + count_of(adj.take(k as int), v) == pending_in(
                        edges@,
                        v,
                        done,
                    ));
                }
            }
            if in_degree[next_node] == 0 {
                proof {
                    assert(degrees[next_node as int] > 0);
                    assert(!listed_now.contains(next_node));
                    assert(pending_in(edges@, next_node, result@) == 0);
                    lemma_none_pending(edges@, next_node, result@);
                    assert forall|e: int|
                        0 <= e < edges@.len() && (#[trigger] edges@[e]).1
                            == next_node implies listed_now.contains(edges@[e].0) by {
                        let at = choose|at: int|
                            0 <= at < result@.len() && result@[at] == edges@[e].0;
                        assert(listed_now[at] == edges@[e].0);
                    }
                    lemma_list_one_more(listed_now, edges@, next_node);
                    assert(result@ + q@.push(next_node) =~= listed_now.push(next_node));
                    assert forall|v: usize| v < n implies (#[trigger] in_degree@[v as int] == 0
                        <==> listed_now.push(next_node).contains(v)) by {
                        vstd::seq_lib::lemma_seq_contains_after_push(listed_now, next_node, v);
                        assert(degrees[v as int] == 0 <==> listed_now.contains(v));
                    }
                }
                q.push_back(next_node);
            } else {
                proof {
                    assert forall|v: usize| v < n implies (#[trigger] in_degree@[v as int] == 0
                        <==> listed_now.contains(v)) by {
                        assert(degrees[v as int] == 0 <==> listed_now.contains(v));
                    }
                }
            }
            k = k + 1;
        }
        proof {
            let adj = graph@[node as int]@;
            assert(adj.take(adj_len as int) =~= adj);
            assert forall|v: usize| v < n implies #[trigger] in_degree@[v as int] == pending_in(
                edges@,
                v,
                result@,
            ) by {
                lemma_done_origin(edges@, v, done, node);
            }
        }
    }
    proof {
        assert(result@ + q@ =~= result@);
        lemma_distinct_nodes_are_few(result@, n);
    }
    if processed < num_nodes {
        proof {
            assert forall|node: usize| node < n && !result@.contains(node) implies pending_in(
                edges@,
                node,
                result@,
            ) > 0 by {
                assert(in_degree@[node as int] != 0);
            }
            assert forall|other: Seq<usize>| !is_topological_order(other, n, edges@) by {
                lemma_stuck_means_no_order(result@, n, edges@, other);
            }
        }
        Vec::new()
    } else {
        proof {
            lemma_complete_list_is_order(result@, n, edges@);
        }
        result
    }
}

} // verus!

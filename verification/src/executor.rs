//! The order in which the services of the pipelines start: from the sink up to the source,
//! so that no service starts before those it sends to.
use vstd::prelude::*;
use crate::pipeline::{
    NodeView, PipelineGraph, PipelineNode, ServiceIdView, ServiceIdentifier, graph_edge, graph_edge_count,
    graph_edges, graph_node_count, graph_node_weight, graph_nodes,
};

verus! {

/// Whether edge `e` leaves node `i` (`incoming` false) or enters it (`incoming` true).
pub open spec fn touches(e: (usize, usize, crate::pipeline::PipelineEdge), i: int, incoming: bool) -> bool {
    if incoming {
        e.1 == i
    } else {
        e.0 == i
    }
}

/// Whether some edge leaves node `i` (`incoming` false) or enters it (`incoming` true).
pub open spec fn has_edge(edges: Seq<(usize, usize, crate::pipeline::PipelineEdge)>, i: int, incoming: bool) -> bool {
    exists|k: int| 0 <= k < edges.len() && touches(#[trigger] edges[k], i, incoming)
}

/// The nodes, among the first `n`, that no edge leaves (`incoming` false) or that no edge
/// enters (`incoming` true), in increasing order.
pub open spec fn end_nodes(n: int, edges: Seq<(usize, usize, crate::pipeline::PipelineEdge)>, incoming: bool) -> Seq<usize>
    decreases n,
{
    if n <= 0 {
        Seq::empty()
    } else {
        end_nodes(n - 1, edges, incoming) + if has_edge(edges, n - 1, incoming) {
            Seq::empty()
        } else {
            seq![(n - 1) as usize]
        }
    }
}

/// The nodes, among the first `n`, that no edge leaves, in increasing order.
pub open spec fn terminal_nodes(n: int, edges: Seq<(usize, usize, crate::pipeline::PipelineEdge)>) -> Seq<usize> {
    end_nodes(n, edges, false)
}

/// The nodes, among the first `n`, that no edge enters, in increasing order.
pub open spec fn initial_nodes(n: int, edges: Seq<(usize, usize, crate::pipeline::PipelineEdge)>) -> Seq<usize> {
    end_nodes(n, edges, true)
}

/// The one node of the graph that no edge leaves (`incoming` false) or that no edge enters
/// (`incoming` true); `None` where there is not exactly one such node.
pub fn sole_end(graph: &PipelineGraph, incoming: bool) -> (r: Option<usize>)
    ensures
        ({
            let ends = end_nodes(graph_nodes(*graph).len() as int, graph_edges(*graph), incoming);
            match r {
                Some(s) => ends.len() == 1 && s == ends[0] && s < graph_nodes(*graph).len(),
                None => ends.len() != 1,
            }
        }),
{
    let ghost nodes = graph_nodes(*graph);
    let ghost edges = graph_edges(*graph);
    let n = graph_node_count(graph);
    let m = graph_edge_count(graph);
    let mut found: Option<usize> = None;
    let mut count: usize = 0;
    let mut i: usize = 0;
    while i < n
        invariant
            n == nodes.len(),
            m == edges.len(),
            n <= u32::MAX,
            nodes == graph_nodes(*graph),
            edges == graph_edges(*graph),
            i <= n,
            count == end_nodes(i as int, edges, incoming).len(),
            count <= i,
            count >= 1 ==> found == Some(end_nodes(i as int, edges, incoming)[0]),
            count == 0 ==> found is None,
        decreases n - i,
    {
        let mut touched = false;
        let mut k: usize = 0;
        while k < m
            invariant
                m == edges.len(),
                edges == graph_edges(*graph),
                k <= m,
                touched == exists|j: int| 0 <= j < k && touches(#[trigger] edges[j], i as int, incoming),
            decreases m - k,
        {
            let (from, to, _) = graph_edge(graph, k);
            let end = if incoming {
                to
            } else {
                from
            };
            if end == i {
                touched = true;
            }
            k = k + 1;
        }
        assert(touched == has_edge(edges, i as int, incoming));
        if !touched {
            if count == 0 {
                found = Some(i);
            }
            count = count + 1;
        }
        proof {
            let t = end_nodes(i as int, edges, incoming);
            let t1 = end_nodes(i + 1, edges, incoming);
            if count >= 1 && t.len() >= 1 {
                assert(t1[0] == t[0]);
            }
        }
        i = i + 1;
    }
    if count != 1 {
        return None;
    }
    proof {
        lemma_ends_in_range(n as int, edges, incoming);
    }
    found
}

/// `order` lists each of the `n` nodes once, each before the nodes that its edges lead to.
pub open spec fn is_topological(n: nat, edges: Seq<(usize, usize, crate::pipeline::PipelineEdge)>, order: Seq<usize>) -> bool {
    &&& order.len() == n
    &&& order.no_duplicates()
    &&& forall|p: int| 0 <= p < order.len() ==> #[trigger] order[p] < n
    &&& forall|i: int| 0 <= i < n ==> #[trigger] order.contains(i as usize)
    &&& forall|e: int, i: int, j: int|
        #![trigger edges[e], order[i], order[j]]
        0 <= e < edges.len() && 0 <= i < order.len() && 0 <= j < order.len() && order[i] == edges[e].0
            && order[j] == edges[e].1 ==> i < j
}

/// Calls `petgraph::algo::toposort` on the graph and collects the indices of the nodes.
/// Claims what its documentation says: where the graph is acyclic, the result lists every
/// node once, each before its successors; otherwise it is a cycle error, and no such order
/// exists (self loops count as cycles).
#[verifier::external_body]
fn topological_order(g: &PipelineGraph) -> (r: Option<Vec<usize>>)
    ensures
        match r {
            Some(order) => is_topological(graph_nodes(*g).len(), graph_edges(*g), order@),
            None => !exists|order: Seq<usize>| is_topological(graph_nodes(*g).len(), graph_edges(*g), order),
        },
{
    petgraph::algo::toposort(g, None).ok().map(|order| order.into_iter().map(|n| n.index()).collect())
}

/// The services with their node indices, as their views.
pub open spec fn indexed_ids_view(ids: Seq<(usize, ServiceIdentifier)>) -> Seq<(usize, ServiceIdView)> {
    ids.map_values(|e: (usize, ServiceIdentifier)| (e.0, e.1@))
}

/// `ids` starts the services of the graph consumers first: it holds each service node once,
/// with its index and identifier, and for every edge between two services, the service the
/// edge leads to comes before the one it leaves.
pub open spec fn consumers_first(
    nodes: Seq<NodeView>,
    edges: Seq<(usize, usize, crate::pipeline::PipelineEdge)>,
    ids: Seq<(usize, ServiceIdView)>,
) -> bool {
    &&& forall|j: int|
        0 <= j < ids.len() ==> #[trigger] ids[j].0 < nodes.len() && nodes[ids[j].0 as int] == NodeView::Service(ids[j].1)
    &&& forall|j1: int, j2: int| 0 <= j1 < j2 < ids.len() ==> #[trigger] ids[j1].0 != #[trigger] ids[j2].0
    &&& forall|i: int|
        0 <= i < nodes.len() && #[trigger] nodes[i] is Service ==> exists|j: int| 0 <= j < ids.len() && ids[j].0 == i
    &&& forall|e: int, ja: int, jb: int|
        #![trigger edges[e], ids[ja], ids[jb]]
        0 <= e < edges.len() && 0 <= ja < ids.len() && 0 <= jb < ids.len() && ids[ja].0 == edges[e].0
            && ids[jb].0 == edges[e].1 ==> jb < ja
}

/// The order in which services start: consumers first, so that no service starts before
/// those it sends to, from a topological order of the graph taken backwards. `None` where
/// the graph has a cycle, so that no such order exists.
pub fn start_order(graph: &PipelineGraph) -> (r: Option<Vec<(usize, ServiceIdentifier)>>)
    ensures
        match r {
            Some(ids) => consumers_first(graph_nodes(*graph), graph_edges(*graph), indexed_ids_view(ids@)),
            None => !exists|order: Seq<usize>| is_topological(graph_nodes(*graph).len(), graph_edges(*graph), order),
        },
{
    let ghost nodes = graph_nodes(*graph);
    let ghost edges = graph_edges(*graph);
    let n = graph_node_count(graph);
    let order = match topological_order(graph) {
        Some(order) => order,
        None => {
            return None;
        },
    };
    let ghost o = order@;
    let mut ids: Vec<(usize, ServiceIdentifier)> = Vec::new();
    let ghost mut q: Seq<int> = Seq::empty();
    let mut k: usize = order.len();
    while k > 0
        invariant
            nodes == graph_nodes(*graph),
            edges == graph_edges(*graph),
            n == nodes.len(),
            n <= u32::MAX,
            o == order@,
            is_topological(nodes.len(), edges, o),
            k <= o.len(),
            q.len() == ids@.len(),
            forall|j: int|
                0 <= j < q.len() ==> k <= #[trigger] q[j] < o.len() && ids@[j].0 == o[q[j]] && ids@[j].0 < n
                    && nodes[ids@[j].0 as int] == NodeView::Service(ids@[j].1@),
            forall|j1: int, j2: int| 0 <= j1 < j2 < q.len() ==> #[trigger] q[j1] > #[trigger] q[j2],
            forall|p: int|
                k <= p < o.len() && #[trigger] nodes[o[p] as int] is Service ==> exists|j: int| 0 <= j < q.len() && q[j] == p,
        decreases k,
    {
        k = k - 1;
        let idx = order[k];
        assert(idx < n);
        let ghost old_q = q;
        match graph_node_weight(graph, idx) {
            Some(PipelineNode::Service(id)) => {
                ids.push((idx, id.duplicate()));
                proof {
                    q = q.push(k as int);
                }
            },
            _ => {},
        }
        proof {
            assert forall|p: int|
                k <= p < o.len() && #[trigger] nodes[o[p] as int] is Service implies exists|j: int| 0 <= j < q.len() && q[j] == p by {
                if p == k {
                    assert(q[q.len() - 1] == k);
                } else {
                    let j = choose|j: int| 0 <= j < old_q.len() && old_q[j] == p;
                    assert(q[j] == old_q[j]);
                }
            }
        }
    }
    proof {
        let v = indexed_ids_view(ids@);
        assert forall|j: int| 0 <= j < v.len() implies #[trigger] v[j].0 < nodes.len() && nodes[v[j].0 as int] == NodeView::Service(v[j].1) by {
            assert(v[j] == (ids@[j].0, ids@[j].1@));
            assert(k <= q[j]);
        }
        assert forall|j1: int, j2: int| 0 <= j1 < j2 < v.len() implies #[trigger] v[j1].0 != #[trigger] v[j2].0 by {
            assert(v[j1].0 == o[q[j1]] && v[j2].0 == o[q[j2]]);
            assert(q[j1] != q[j2]);
        }
        assert forall|i: int| 0 <= i < nodes.len() && #[trigger] nodes[i] is Service implies exists|j: int| 0 <= j < v.len() && v[j].0 == i by {
            assert(o.contains(i as usize));
            let p = choose|p: int| 0 <= p < o.len() && o[p] == i as usize;
            assert(nodes[o[p] as int] is Service);
            let j = choose|j: int| 0 <= j < q.len() && q[j] == p;
            assert(v[j].0 == ids@[j].0);
        }
        assert forall|e: int, ja: int, jb: int|
            #![trigger edges[e], v[ja], v[jb]]
            0 <= e < edges.len() && 0 <= ja < v.len() && 0 <= jb < v.len() && v[ja].0 == edges[e].0 && v[jb].0 == edges[e].1 implies jb < ja by {
            assert(v[ja].0 == o[q[ja]] && v[jb].0 == o[q[jb]]);
            assert(o[q[ja]] == edges[e].0 && o[q[jb]] == edges[e].1);
            assert(q[ja] < q[jb]);
            if ja <= jb {
                if ja < jb {
                    assert(q[ja] > q[jb]);
                }
            }
        }
    }
    Some(ids)
}

/// The end nodes are nodes of the graph.
proof fn lemma_ends_in_range(n: int, edges: Seq<(usize, usize, crate::pipeline::PipelineEdge)>, incoming: bool)
    ensures
        forall|j: int| 0 <= j < end_nodes(n, edges, incoming).len() ==> #[trigger] end_nodes(n, edges, incoming)[j] < n,
    decreases n,
{
    if n > 0 {
        lemma_ends_in_range(n - 1, edges, incoming);
        let t = end_nodes(n - 1, edges, incoming);
        assert forall|j: int| 0 <= j < end_nodes(n, edges, incoming).len() implies #[trigger] end_nodes(n, edges, incoming)[j] < n by {
            if j < t.len() {
                assert(end_nodes(n, edges, incoming)[j] == t[j]);
            }
        }
    }
}

} // verus!

//! The paths of the pipeline graph from its source to its sink, as text.
use vstd::prelude::*;
use crate::config::strings_view;
use crate::executor::{initial_nodes, sole_end, terminal_nodes};
use crate::text::str_eq;
use crate::pipeline::{NodeView, PipelineEdge, PipelineGraph, graph_edges, graph_node_count, graph_node_weight, graph_nodes};

verus! {

/// Whether some edge leads from `a` to `b`.
pub open spec fn joined(edges: Seq<(usize, usize, PipelineEdge)>, a: usize, b: usize) -> bool {
    exists|e: int| 0 <= e < edges.len() && #[trigger] edges[e].0 == a && edges[e].1 == b
}

/// Whether `path` is a simple path from `from` to `to`: it starts at `from`, ends at `to`,
/// passes no node twice, and each step follows an edge.
pub open spec fn is_simple_path(edges: Seq<(usize, usize, PipelineEdge)>, from: usize, to: usize, path: Seq<usize>) -> bool {
    &&& path.len() >= 2
    &&& path[0] == from
    &&& path.last() == to
    &&& path.no_duplicates()
    &&& forall|i: int| 0 <= i < path.len() - 1 ==> joined(edges, #[trigger] path[i], path[i + 1])
}

/// Calls `petgraph::algo::all_simple_paths` on the graph from `from` to `to`, with no
/// bound on the number of intermediate nodes, and collects each path as node indices.
/// Claims what its documentation says, "all simple paths from `from` to `to`": each path it
/// yields is one, and each one is yielded (a path may come more than once where edges run in
/// parallel; in which order they come is left unsaid, as it follows petgraph's adjacency
/// lists). Every index is one of a node: a path is made of `from`, nodes reached along edges,
/// and `to`. The walk computes `node_count() - 1`, so `requires` asks for nodes.
#[verifier::external_body]
fn simple_paths(g: &PipelineGraph, from: usize, to: usize) -> (r: Vec<Vec<usize>>)
    requires
        from < graph_nodes(*g).len(),
        to < graph_nodes(*g).len(),
        from != to,
    ensures
        forall|k: int| 0 <= k < r@.len() ==> is_simple_path(graph_edges(*g), from, to, #[trigger] r@[k]@),
        forall|p: Seq<usize>|
            is_simple_path(graph_edges(*g), from, to, p) ==> exists|k: int| 0 <= k < r@.len() && #[trigger] r@[k]@ == p,
        forall|k: int, j: int|
            0 <= k < r@.len() && 0 <= j < r@[k]@.len() ==> #[trigger] r@[k]@[j] < graph_nodes(*g).len(),
{
    let from = petgraph::graph::NodeIndex::new(from);
    let to = petgraph::graph::NodeIndex::new(to);
    petgraph::algo::all_simple_paths::<Vec<petgraph::graph::NodeIndex>, _>(g, from, to, 0, None)
        .map(|p| p.into_iter().map(|n| n.index()).collect())
        .collect()
}

/// A path shown as the displays of its nodes joined by ` -> `.
pub open spec fn path_text_of(nodes: Seq<NodeView>, path: Seq<usize>) -> Seq<char>
    decreases path.len(),
{
    if path.len() == 0 {
        Seq::empty()
    } else if path.len() == 1 {
        nodes[path[0] as int].display()
    } else {
        path_text_of(nodes, path.drop_last()) + " -> "@ + nodes[path.last() as int].display()
    }
}

/// Whether every index of `path` is one of a node.
pub open spec fn path_in_graph(nodes: Seq<NodeView>, path: Seq<usize>) -> bool {
    forall|j: int| 0 <= j < path.len() ==> #[trigger] path[j] < nodes.len()
}

/// A path of the graph shown as the displays of its nodes joined by ` -> `.
pub fn path_text(g: &PipelineGraph, path: &Vec<usize>) -> (r: String)
    requires
        path_in_graph(graph_nodes(*g), path@),
    ensures
        r@ == path_text_of(graph_nodes(*g), path@),
{
    let ghost nodes = graph_nodes(*g);
    let n = graph_node_count(g);
    let mut r = String::new();
    let mut k: usize = 0;
    assert(path@.take(0) =~= Seq::<usize>::empty());
    while k < path.len()
        invariant
            nodes == graph_nodes(*g),
            n == nodes.len(),
            n <= u32::MAX,
            path_in_graph(nodes, path@),
            k <= path@.len(),
            r@ == path_text_of(nodes, path@.take(k as int)),
        decreases path@.len() - k,
    {
        let idx = path[k];
        assert(idx < nodes.len());
        proof {
            assert(path@.take(k + 1).drop_last() =~= path@.take(k as int));
            assert(path@.take(k + 1).last() == idx);
            assert(path@.take(k + 1)[0] == path@[0]);
        }
        match graph_node_weight(g, idx) {
            Some(node) => {
                if k > 0 {
                    r.append(" -> ");
                }
                let shown = node.display();
                r.append(shown.as_str());
            },
            None => {},
        }
        k = k + 1;
    }
    assert(path@.take(path@.len() as int) =~= path@);
    r
}

/// The texts of paths of the graph, each text once.
pub fn distinct_path_texts(g: &PipelineGraph, paths: &Vec<Vec<usize>>) -> (r: Vec<String>)
    requires
        forall|k: int| 0 <= k < paths@.len() ==> path_in_graph(graph_nodes(*g), #[trigger] paths@[k]@),
    ensures
        strings_view(r@).no_duplicates(),
        forall|t: Seq<char>|
            #![trigger strings_view(r@).contains(t)]
            strings_view(r@).contains(t) <==> exists|k: int|
                0 <= k < paths@.len() && path_text_of(graph_nodes(*g), #[trigger] paths@[k]@) == t,
{
    let ghost nodes = graph_nodes(*g);
    let mut r: Vec<String> = Vec::new();
    let mut k: usize = 0;
    while k < paths.len()
        invariant
            nodes == graph_nodes(*g),
            forall|j: int| 0 <= j < paths@.len() ==> path_in_graph(nodes, #[trigger] paths@[j]@),
            k <= paths@.len(),
            strings_view(r@).no_duplicates(),
            forall|t: Seq<char>|
                #![trigger strings_view(r@).contains(t)]
                strings_view(r@).contains(t) <==> exists|j: int| 0 <= j < k && path_text_of(nodes, #[trigger] paths@[j]@) == t,
        decreases paths@.len() - k,
    {
        let text = path_text(g, &paths[k]);
        let ghost before = strings_view(r@);
        let mut seen = false;
        let mut i: usize = 0;
        while i < r.len()
            invariant
                before == strings_view(r@),
                i <= r@.len(),
                seen == exists|x: int| 0 <= x < i && before[x] == text@,
            decreases r@.len() - i,
        {
            assert(before[i as int] == r@[i as int]@);
            if str_eq(r[i].as_str(), text.as_str()) {
                seen = true;
            }
            i = i + 1;
        }
        assert(seen == before.contains(text@));
        if !seen {
            r.push(text);
            assert(strings_view(r@) =~= before.push(text@));
        }
        proof {
            let after = strings_view(r@);
            assert forall|t: Seq<char>|
                #![trigger after.contains(t)]
                after.contains(t) <==> exists|j: int| 0 <= j < k + 1 && path_text_of(nodes, #[trigger] paths@[j]@) == t by {
                if after.contains(t) && t != text@ {
                    let x = choose|x: int| 0 <= x < after.len() && after[x] == t;
                    assert(before[x] == t);
                    assert(before.contains(t));
                }
                if exists|j: int| 0 <= j < k + 1 && path_text_of(nodes, #[trigger] paths@[j]@) == t {
                    let j = choose|j: int| 0 <= j < k + 1 && path_text_of(nodes, #[trigger] paths@[j]@) == t;
                    if j < k {
                        assert(before.contains(t));
                        let x = choose|x: int| 0 <= x < before.len() && before[x] == t;
                        assert(after[x] == t);
                    } else if seen {
                        assert(after == before);
                    } else {
                        assert(after[after.len() - 1] == t);
                    }
                }
                if t == text@ {
                    assert(path_text_of(nodes, paths@[k as int]@) == t);
                }
            }
        }
        k = k + 1;
    }
    r
}

/// The paths of the pipeline graph from its source to its sink, each shown as its nodes
/// joined by ` -> `, each text once, in no particular order. `None` where the graph has not
/// exactly one node that no edge enters and one that no edge leaves.
pub fn pipeline_paths(g: &PipelineGraph) -> (r: Option<Vec<String>>)
    ensures
        ({
            let nodes = graph_nodes(*g);
            let edges = graph_edges(*g);
            let sources = initial_nodes(nodes.len() as int, edges);
            let sinks = terminal_nodes(nodes.len() as int, edges);
            match r {
                Some(texts) => {
                    &&& sources.len() == 1
                    &&& sinks.len() == 1
                    &&& strings_view(texts@).no_duplicates()
                    &&& forall|t: Seq<char>|
                        #![trigger strings_view(texts@).contains(t)]
                        strings_view(texts@).contains(t) <==> exists|p: Seq<usize>|
                            #[trigger] is_simple_path(edges, sources[0], sinks[0], p) && path_text_of(nodes, p) == t
                },
                None => sources.len() != 1 || sinks.len() != 1,
            }
        }),
{
    let ghost nodes = graph_nodes(*g);
    let ghost edges = graph_edges(*g);
    let source = match sole_end(g, true) {
        Some(s) => s,
        None => {
            return None;
        },
    };
    let sink = match sole_end(g, false) {
        Some(s) => s,
        None => {
            return None;
        },
    };
    if source == sink {
        let texts: Vec<String> = Vec::new();
        proof {
            assert forall|t: Seq<char>|
                #![trigger strings_view(texts@).contains(t)]
                strings_view(texts@).contains(t) <==> exists|p: Seq<usize>|
                    #[trigger] is_simple_path(edges, source, sink, p) && path_text_of(nodes, p) == t by {
                if exists|p: Seq<usize>| #[trigger] is_simple_path(edges, source, sink, p) && path_text_of(nodes, p) == t {
                    let p = choose|p: Seq<usize>| #[trigger] is_simple_path(edges, source, sink, p) && path_text_of(nodes, p) == t;
                    assert(p[0] == p[p.len() - 1]);
                }
            }
        }
        return Some(texts);
    }
    let paths = simple_paths(g, source, sink);
    let texts = distinct_path_texts(g, &paths);
    proof {
        assert forall|t: Seq<char>|
            #![trigger strings_view(texts@).contains(t)]
            strings_view(texts@).contains(t) <==> exists|p: Seq<usize>|
                #[trigger] is_simple_path(edges, source, sink, p) && path_text_of(nodes, p) == t by {
            if strings_view(texts@).contains(t) {
                let k = choose|k: int| 0 <= k < paths@.len() && path_text_of(nodes, #[trigger] paths@[k]@) == t;
                assert(is_simple_path(edges, source, sink, paths@[k]@));
            }
            if exists|p: Seq<usize>| #[trigger] is_simple_path(edges, source, sink, p) && path_text_of(nodes, p) == t {
                let p = choose|p: Seq<usize>| #[trigger] is_simple_path(edges, source, sink, p) && path_text_of(nodes, p) == t;
                let k = choose|k: int| 0 <= k < paths@.len() && #[trigger] paths@[k]@ == p;
                assert(path_text_of(nodes, paths@[k]@) == t);
            }
        }
    }
    Some(texts)
}

} // verus!

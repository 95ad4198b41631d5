//! Services, their identifiers, and the graph of the pipelines that connect them.
use vstd::prelude::*;
use crate::config::{Config, PipelineConfigView, strings_view};
use crate::text::{
    ascii_lower, debug_quoted, debug_str, lemma_first_piece, lemma_lower, lemma_split_nonempty,
    lemma_split_without_sep, split_char, split_spec, strs_view, to_ascii_lowercase,
};

verus! {

/// What a service does in a pipeline.
#[derive(Debug, Copy, Clone, Hash, PartialEq, Eq, Structural, PartialOrd, Ord)]
pub enum ServiceKind {
    Receiver,
    Processor,
    Exporter,
}

impl ServiceKind {
    /// The name of the kind, as messages show it.
    pub open spec fn spec_name(self) -> Seq<char> {
        match self {
            ServiceKind::Receiver => "receiver"@,
            ServiceKind::Processor => "processor"@,
            ServiceKind::Exporter => "exporter"@,
        }
    }

    /// The name of the kind, as messages show it.
    pub fn as_str(&self) -> (r: &'static str)
        ensures
            r@ == self.spec_name(),
    {
        match self {
            ServiceKind::Receiver => "receiver",
            ServiceKind::Processor => "processor",
            ServiceKind::Exporter => "exporter",
        }
    }
}

/// A service could not be set up.
#[derive(Debug)]
pub enum ServiceError {
    MissingService { kind: ServiceKind, id: String },
    InvalidFormat { kind: ServiceKind, id: String },
    UnknownService { kind: ServiceKind, id: String },
    Service(String),
}

/// A service of a pipeline: its kind and its identifier, such as `batch/fast`.
#[derive(Debug, Clone)]
pub enum ServiceIdentifier {
    Receiver(String),
    Exporter(String),
    Processor(String),
}

/// The mathematical content of a service identifier.
pub enum ServiceIdView {
    Receiver(Seq<char>),
    Exporter(Seq<char>),
    Processor(Seq<char>),
}

impl View for ServiceIdentifier {
    type V = ServiceIdView;

    open spec fn view(&self) -> ServiceIdView {
        match self {
            ServiceIdentifier::Receiver(id) => ServiceIdView::Receiver(id@),
            ServiceIdentifier::Exporter(id) => ServiceIdView::Exporter(id@),
            ServiceIdentifier::Processor(id) => ServiceIdView::Processor(id@),
        }
    }
}

impl ServiceIdView {
    /// The identifier, without its kind.
    pub open spec fn id(self) -> Seq<char> {
        match self {
            ServiceIdView::Receiver(id) => id,
            ServiceIdView::Exporter(id) => id,
            ServiceIdView::Processor(id) => id,
        }
    }

    /// The kind of the service.
    pub open spec fn kind(self) -> ServiceKind {
        match self {
            ServiceIdView::Receiver(_) => ServiceKind::Receiver,
            ServiceIdView::Exporter(_) => ServiceKind::Exporter,
            ServiceIdView::Processor(_) => ServiceKind::Processor,
        }
    }

    /// How the identifier is shown: the kind, then the quoted identifier in brackets.
    pub open spec fn display(self) -> Seq<char> {
        let prefix = match self {
            ServiceIdView::Receiver(_) => "Receiver("@,
            ServiceIdView::Exporter(_) => "Exporter("@,
            ServiceIdView::Processor(_) => "Processor("@,
        };
        prefix + debug_quoted(self.id()) + ")"@
    }
}

/// The name of the service that an identifier names: the part before the first `/`, in
/// lower case.
pub open spec fn service_name(id: Seq<char>) -> Seq<char> {
    ascii_lower(split_spec(id, '/')[0])
}

/// The name of a service names itself: taking the name of a name changes nothing.
pub proof fn service_name_idempotent(id: Seq<char>)
    ensures
        service_name(service_name(id)) == service_name(id),
{
    let piece = split_spec(id, '/')[0];
    lemma_first_piece(id, '/');
    lemma_lower(piece);
    let name = ascii_lower(piece);
    assert forall|k: int| 0 <= k < name.len() implies #[trigger] name[k] != '/' by {
        assert(piece[k] != '/');
    }
    lemma_split_without_sep(name, '/');
}

/// The name of the service that an identifier names: the part before the first `/`, in
/// lower case. There is always such a part.
pub fn service_id(value: &str) -> (r: Option<String>)
    ensures
        r matches Some(name) && name@ == service_name(value@),
{
    let pieces = split_char(value, '/');
    proof {
        lemma_split_nonempty(value@, '/');
        assert(strs_view(pieces@)[0] == pieces@[0]@);
    }
    Some(to_ascii_lowercase(pieces[0]))
}

impl ServiceIdentifier {
    /// The kind of the service.
    pub fn kind(&self) -> (r: ServiceKind)
        ensures
            r == self@.kind(),
    {
        match self {
            ServiceIdentifier::Receiver(_) => ServiceKind::Receiver,
            ServiceIdentifier::Processor(_) => ServiceKind::Processor,
            ServiceIdentifier::Exporter(_) => ServiceKind::Exporter,
        }
    }

    /// The identifier, without its kind.
    pub fn id(&self) -> (r: &str)
        ensures
            r@ == self@.id(),
    {
        match self {
            ServiceIdentifier::Receiver(id) => id.as_str(),
            ServiceIdentifier::Exporter(id) => id.as_str(),
            ServiceIdentifier::Processor(id) => id.as_str(),
        }
    }

    /// The identifier of the service this one names: same kind, with the name of the
    /// service as its identifier.
    pub fn to_service_id(&self) -> (r: Result<ServiceIdentifier, ServiceError>)
        ensures
            r matches Ok(sid) && sid@.kind() == self@.kind() && sid@.id() == service_name(self@.id()),
    {
        let service_id = match service_id(self.id()) {
            Some(s) => s,
            None => {
                return Err(ServiceError::InvalidFormat { kind: self.kind(), id: String::from_str(self.id()) });
            },
        };
        let r = match self {
            ServiceIdentifier::Receiver(_) => ServiceIdentifier::Receiver(service_id),
            ServiceIdentifier::Processor(_) => ServiceIdentifier::Processor(service_id),
            ServiceIdentifier::Exporter(_) => ServiceIdentifier::Exporter(service_id),
        };
        Ok(r)
    }

    /// How the identifier is shown, as its `Debug` formatting writes it: the kind, then
    /// the quoted identifier in brackets, such as `Receiver("mongodb")`.
    pub fn display(&self) -> (r: String)
        ensures
            r@ == self@.display(),
    {
        let mut r = String::from_str(match self {
            ServiceIdentifier::Receiver(_) => "Receiver(",
            ServiceIdentifier::Exporter(_) => "Exporter(",
            ServiceIdentifier::Processor(_) => "Processor(",
        });
        let quoted = debug_str(self.id());
        r.append(quoted.as_str());
        r.append(")");
        r
    }

    /// A copy of this identifier.
    pub fn duplicate(&self) -> (r: ServiceIdentifier)
        ensures
            r@ == self@,
    {
        match self {
            ServiceIdentifier::Receiver(id) => ServiceIdentifier::Receiver(id.clone()),
            ServiceIdentifier::Exporter(id) => ServiceIdentifier::Exporter(id.clone()),
            ServiceIdentifier::Processor(id) => ServiceIdentifier::Processor(id.clone()),
        }
    }

    /// Whether two identifiers are equal.
    pub fn same(&self, other: &ServiceIdentifier) -> (r: bool)
        ensures
            r == (self@ == other@),
    {
        match (self, other) {
            (ServiceIdentifier::Receiver(a), ServiceIdentifier::Receiver(b)) => crate::text::str_eq(a.as_str(), b.as_str()),
            (ServiceIdentifier::Exporter(a), ServiceIdentifier::Exporter(b)) => crate::text::str_eq(a.as_str(), b.as_str()),
            (ServiceIdentifier::Processor(a), ServiceIdentifier::Processor(b)) => crate::text::str_eq(a.as_str(), b.as_str()),
            _ => false,
        }
    }
}

impl From<ServiceIdentifier> for ServiceKind {
    fn from(value: ServiceIdentifier) -> (r: ServiceKind) {
        value.kind()
    }
}

impl vstd::std_specs::convert::FromSpecImpl<ServiceIdentifier> for ServiceKind {
    open spec fn obeys_from_spec() -> bool {
        true
    }

    open spec fn from_spec(v: ServiceIdentifier) -> ServiceKind {
        v@.kind()
    }
}

/// The kind of data that flows along an edge of a pipeline.
#[derive(Debug, Copy, Clone, Hash, PartialEq, Eq, Structural, PartialOrd, Ord)]
pub enum PipelineEdge {
    Metrics,
    Logs,
    Traces,
}

impl PipelineEdge {
    /// The name of the kind of data.
    pub open spec fn spec_name(self) -> Seq<char> {
        match self {
            PipelineEdge::Metrics => "metrics"@,
            PipelineEdge::Logs => "logs"@,
            PipelineEdge::Traces => "traces"@,
        }
    }

    /// The name of the kind of data.
    pub fn as_str(&self) -> (r: &'static str)
        ensures
            r@ == self.spec_name(),
    {
        match self {
            PipelineEdge::Metrics => "metrics",
            PipelineEdge::Logs => "logs",
            PipelineEdge::Traces => "traces",
        }
    }
}

/// A node of the pipeline graph: the single source, the single sink, or a service.
#[derive(Debug, Clone)]
pub enum PipelineNode {
    Source,
    Sink,
    Service(ServiceIdentifier),
}

/// The mathematical content of a pipeline node.
pub enum NodeView {
    Source,
    Sink,
    Service(ServiceIdView),
}

impl View for PipelineNode {
    type V = NodeView;

    open spec fn view(&self) -> NodeView {
        match self {
            PipelineNode::Source => NodeView::Source,
            PipelineNode::Sink => NodeView::Sink,
            PipelineNode::Service(id) => NodeView::Service(id@),
        }
    }
}

impl NodeView {
    /// How a node is shown: `SOURCE`, `SINK`, or the service's identifier.
    pub open spec fn display(self) -> Seq<char> {
        match self {
            NodeView::Source => "SOURCE"@,
            NodeView::Sink => "SINK"@,
            NodeView::Service(id) => id.display(),
        }
    }
}

impl PipelineNode {
    /// How the node is shown: `SOURCE`, `SINK`, or the service's identifier.
    pub fn display(&self) -> (r: String)
        ensures
            r@ == self@.display(),
    {
        match self {
            PipelineNode::Source => String::from_str("SOURCE"),
            PipelineNode::Sink => String::from_str("SINK"),
            PipelineNode::Service(id) => id.display(),
        }
    }

    /// Whether two nodes are equal.
    pub fn same(&self, other: &PipelineNode) -> (r: bool)
        ensures
            r == (self@ == other@),
    {
        match (self, other) {
            (PipelineNode::Source, PipelineNode::Source) => true,
            (PipelineNode::Sink, PipelineNode::Sink) => true,
            (PipelineNode::Service(a), PipelineNode::Service(b)) => a.same(b),
            _ => false,
        }
    }
}


#[verifier::external_type_specification]
#[verifier::external_body]
#[verifier::reject_recursive_types(N)]
#[verifier::reject_recursive_types(E)]
#[verifier::reject_recursive_types(Ty)]
#[verifier::reject_recursive_types(Ix)]
pub struct ExGraph<N, E, Ty, Ix>(petgraph::graph::Graph<N, E, Ty, Ix>);

#[verifier::external_type_specification]
#[verifier::external_body]
pub struct ExDirected(petgraph::Directed);

/// The graph of the pipelines: services as nodes, with a source before the receivers and a
/// sink after the exporters; each edge carries the kind of data of its pipeline.
pub type PipelineGraph = petgraph::graph::Graph<PipelineNode, PipelineEdge, petgraph::Directed, u32>;

/// The nodes of a pipeline graph, by index.
pub uninterp spec fn graph_nodes(g: PipelineGraph) -> Seq<NodeView>;

/// The edges of a pipeline graph, in the order they were added: source index, target
/// index and kind of data.
pub uninterp spec fn graph_edges(g: PipelineGraph) -> Seq<(usize, usize, PipelineEdge)>;

/// Calls `Graph::new`: a graph without nodes or edges.
#[verifier::external_body]
fn new_graph() -> (g: PipelineGraph)
    ensures
        graph_nodes(g) == Seq::<NodeView>::empty(),
        graph_edges(g) == Seq::<(usize, usize, PipelineEdge)>::empty(),
{
    petgraph::graph::Graph::new()
}

/// Calls `Graph::add_node`, which appends the node and returns its index; it panics when
/// the graph already has as many nodes as `u32` can index, which `requires` leaves out.
#[verifier::external_body]
fn graph_add_node(g: &mut PipelineGraph, weight: PipelineNode) -> (r: usize)
    requires
        graph_nodes(*old(g)).len() < u32::MAX,
    ensures
        graph_nodes(*final(g)) == graph_nodes(*old(g)).push(weight@),
        graph_edges(*final(g)) == graph_edges(*old(g)),
        r == graph_nodes(*old(g)).len(),
{
    g.add_node(weight).index()
}

/// Calls `Graph::add_edge`, which appends the edge; it panics when a node does not exist
/// or the graph already has as many edges as `u32` can index, which `requires` leaves out.
#[verifier::external_body]
fn graph_add_edge(g: &mut PipelineGraph, a: usize, b: usize, weight: PipelineEdge)
    requires
        a < graph_nodes(*old(g)).len(),
        b < graph_nodes(*old(g)).len(),
        graph_edges(*old(g)).len() < u32::MAX,
    ensures
        graph_nodes(*final(g)) == graph_nodes(*old(g)),
        graph_edges(*final(g)) == graph_edges(*old(g)).push((a, b, weight)),
{
    g.add_edge(petgraph::graph::NodeIndex::new(a), petgraph::graph::NodeIndex::new(b), weight);
}

/// Calls `Graph::node_count`: the number of nodes, which `add_node` never lets grow past
/// what `u32` indices can count.
#[verifier::external_body]
pub(crate) fn graph_node_count(g: &PipelineGraph) -> (r: usize)
    ensures
        r == graph_nodes(*g).len(),
        r <= u32::MAX,
{
    g.node_count()
}

/// Calls `Graph::node_weight`: the node at an index, if there is one. The index is made a
/// `u32` index first, so `requires` keeps it within that range.
#[verifier::external_body]
pub(crate) fn graph_node_weight(g: &PipelineGraph, i: usize) -> (r: Option<&PipelineNode>)
    requires
        i <= u32::MAX,
    ensures
        match r {
            Some(n) => i < graph_nodes(*g).len() && n@ == graph_nodes(*g)[i as int],
            None => i >= graph_nodes(*g).len(),
        },
{
    g.node_weight(petgraph::graph::NodeIndex::new(i))
}

/// Calls `Graph::edge_count`: the number of edges.
#[verifier::external_body]
pub(crate) fn graph_edge_count(g: &PipelineGraph) -> (r: usize)
    ensures
        r == graph_edges(*g).len(),
{
    g.edge_count()
}

/// Reads the edge at an index from `Graph::raw_edges`: its source, its target (both `u32`
/// indices) and its kind of data. Indexing past the edges panics, which `requires` leaves out.
#[verifier::external_body]
pub(crate) fn graph_edge(g: &PipelineGraph, i: usize) -> (r: (usize, usize, PipelineEdge))
    requires
        i < graph_edges(*g).len(),
    ensures
        r == graph_edges(*g)[i as int],
        r.0 <= u32::MAX,
        r.1 <= u32::MAX,
{
    let edge = &g.raw_edges()[i];
    (edge.source().index(), edge.target().index(), edge.weight)
}

/// The services whose metrics flow into `node`: for each metrics edge into it, in the order
/// of the edges, its origin, when that is a receiver or a processor.
pub open spec fn metric_sources_spec(nodes: Seq<NodeView>, edges: Seq<(usize, usize, PipelineEdge)>, node: usize) -> Seq<
    ServiceIdView,
>
    decreases edges.len(),
{
    if edges.len() == 0 {
        Seq::empty()
    } else {
        let rest = metric_sources_spec(nodes, edges.drop_last(), node);
        let e = edges.last();
        if e.1 == node && e.2 == PipelineEdge::Metrics && e.0 < nodes.len() {
            match nodes[e.0 as int] {
                NodeView::Service(id) => if id.kind() != ServiceKind::Exporter {
                    rest.push(id)
                } else {
                    rest
                },
                _ => rest,
            }
        } else {
            rest
        }
    }
}

/// The services whose metrics a node takes in: the receivers and processors at the origin of
/// the metrics edges into it.
pub fn metric_sources(graph: &PipelineGraph, node: usize) -> (r: Vec<ServiceIdentifier>)
    ensures
        r@.map_values(|id: ServiceIdentifier| id@) == metric_sources_spec(graph_nodes(*graph), graph_edges(*graph), node),
{
    let ghost nodes = graph_nodes(*graph);
    let ghost edges = graph_edges(*graph);
    let n = graph_edge_count(graph);
    let mut r: Vec<ServiceIdentifier> = Vec::new();
    let mut i: usize = 0;
    assert(edges.take(0) =~= Seq::<(usize, usize, PipelineEdge)>::empty());
    while i < n
        invariant
            n == edges.len(),
            nodes == graph_nodes(*graph),
            edges == graph_edges(*graph),
            i <= n,
            r@.map_values(|id: ServiceIdentifier| id@) == metric_sources_spec(nodes, edges.take(i as int), node),
        decreases n - i,
    {
        let (from, to, kind) = graph_edge(graph, i);
        proof {
            assert(edges.take(i + 1).drop_last() =~= edges.take(i as int));
            assert(edges.take(i + 1).last() == edges[i as int]);
        }
        if to == node && kind == PipelineEdge::Metrics {
            match graph_node_weight(graph, from) {
                Some(PipelineNode::Service(id)) => {
                    if id.kind() != ServiceKind::Exporter {
                        let ghost prev = r@;
                        r.push(id.duplicate());
                        assert(r@.map_values(|x: ServiceIdentifier| x@) =~= prev.map_values(|x: ServiceIdentifier| x@).push(id@));
                    }
                },
                _ => {},
            }
        }
        i = i + 1;
    }
    assert(edges.take(n as int) =~= edges);
    r
}

/// The index of the first node equal to `w`; the number of nodes if there is none.
pub open spec fn node_position(nodes: Seq<NodeView>, w: NodeView) -> int
    decreases nodes.len(),
{
    if nodes.len() == 0 {
        0
    } else if nodes[0] == w {
        0
    } else {
        1 + node_position(nodes.drop_first(), w)
    }
}

/// The nodes, with `w` added at the end unless it is there already.
pub open spec fn with_node(nodes: Seq<NodeView>, w: NodeView) -> Seq<NodeView> {
    if nodes.contains(w) {
        nodes
    } else {
        nodes.push(w)
    }
}

/// The nodes, with each of `ws` added in turn unless it is there already.
pub open spec fn with_nodes(nodes: Seq<NodeView>, ws: Seq<NodeView>) -> Seq<NodeView>
    decreases ws.len(),
{
    if ws.len() == 0 {
        nodes
    } else {
        with_node(with_nodes(nodes, ws.drop_last()), ws.last())
    }
}

/// The first position of a node that is there is where it is, and no node before it is equal.
pub proof fn lemma_node_position(nodes: Seq<NodeView>, w: NodeView)
    ensures
        nodes.contains(w) ==> 0 <= node_position(nodes, w) < nodes.len() && nodes[node_position(nodes, w)] == w,
        forall|j: int| 0 <= j < node_position(nodes, w) && j < nodes.len() ==> nodes[j] != w,
        !nodes.contains(w) ==> node_position(nodes, w) == nodes.len(),
    decreases nodes.len(),
{
    if nodes.len() > 0 {
        lemma_node_position(nodes.drop_first(), w);
        if nodes[0] != w {
            if nodes.contains(w) {
                let k = choose|k: int| 0 <= k < nodes.len() && nodes[k] == w;
                assert(nodes.drop_first()[k - 1] == w);
            }
            assert forall|j: int| 0 <= j < node_position(nodes, w) && j < nodes.len() implies nodes[j] != w by {
                if j > 0 {
                    assert(nodes[j] == nodes.drop_first()[j - 1]);
                }
            }
            if !nodes.contains(w) {
                assert forall|k: int| 0 <= k < nodes.drop_first().len() implies nodes.drop_first()[k] != w by {
                    assert(nodes.drop_first()[k] == nodes[k + 1]);
                }
            }
        }
    }
}

/// A node first found at `i` has position `i`.
pub proof fn lemma_position_at(nodes: Seq<NodeView>, w: NodeView, i: int)
    requires
        0 <= i < nodes.len(),
        nodes[i] == w,
        forall|j: int| 0 <= j < i ==> nodes[j] != w,
    ensures
        node_position(nodes, w) == i,
{
    lemma_node_position(nodes, w);
    assert(nodes.contains(w));
}

/// Positions of nodes within a prefix do not change when nodes are added after it.
pub proof fn lemma_position_prefix(short: Seq<NodeView>, long: Seq<NodeView>, w: NodeView)
    requires
        short.len() <= long.len(),
        long.take(short.len() as int) == short,
        short.contains(w),
    ensures
        node_position(long, w) == node_position(short, w),
        long.contains(w),
{
    lemma_node_position(short, w);
    let i = node_position(short, w);
    assert(long[i] == short[i]);
    assert forall|j: int| 0 <= j < i implies long[j] != w by {
        assert(long[j] == short[j]);
    }
    lemma_position_at(long, w, i);
}

/// Adding nodes keeps the nodes there as a prefix and ends with every added node there.
pub proof fn lemma_with_nodes(nodes: Seq<NodeView>, ws: Seq<NodeView>)
    ensures
        nodes.len() <= with_nodes(nodes, ws).len() <= nodes.len() + ws.len(),
        with_nodes(nodes, ws).take(nodes.len() as int) == nodes,
        forall|k: int| 0 <= k < ws.len() ==> with_nodes(nodes, ws).contains(#[trigger] ws[k]),
    decreases ws.len(),
{
    if ws.len() > 0 {
        lemma_with_nodes(nodes, ws.drop_last());
        let m = with_nodes(nodes, ws.drop_last());
        let r = with_node(m, ws.last());
        assert(r.take(m.len() as int) == m);
        assert(r.take(nodes.len() as int) =~= m.take(nodes.len() as int));
        assert forall|k: int| 0 <= k < ws.len() implies r.contains(#[trigger] ws[k]) by {
            if k < ws.len() - 1 {
                assert(ws.drop_last()[k] == ws[k]);
                assert(m.contains(ws[k]));
                let j = choose|j: int| 0 <= j < m.len() && m[j] == ws[k];
                assert(r[j] == m[j]);
            } else {
                if !m.contains(ws.last()) {
                    assert(r[m.len() as int] == ws.last());
                }
            }
        }
    } else {
        assert(nodes.take(nodes.len() as int) =~= nodes);
    }
}

/// Every node of the prefix is still there.
pub proof fn lemma_prefix_contains(short: Seq<NodeView>, long: Seq<NodeView>, w: NodeView)
    requires
        short.len() <= long.len(),
        long.take(short.len() as int) == short,
        short.contains(w),
    ensures
        long.contains(w),
{
    let j = choose|j: int| 0 <= j < short.len() && short[j] == w;
    assert(long[j] == short[j]);
}

/// The receiver nodes with these identifiers.
pub open spec fn receiver_nodes(ids: Seq<Seq<char>>) -> Seq<NodeView> {
    ids.map_values(|id: Seq<char>| NodeView::Service(ServiceIdView::Receiver(id)))
}

/// The processor nodes with these identifiers.
pub open spec fn processor_nodes(ids: Seq<Seq<char>>) -> Seq<NodeView> {
    ids.map_values(|id: Seq<char>| NodeView::Service(ServiceIdView::Processor(id)))
}

/// The exporter nodes with these identifiers.
pub open spec fn exporter_nodes(ids: Seq<Seq<char>>) -> Seq<NodeView> {
    ids.map_values(|id: Seq<char>| NodeView::Service(ServiceIdView::Exporter(id)))
}

/// The positions of nodes.
pub open spec fn positions(nodes: Seq<NodeView>, ws: Seq<NodeView>) -> Seq<usize> {
    ws.map_values(|w: NodeView| node_position(nodes, w) as usize)
}

/// An edge from `from` to each target, in order.
pub open spec fn fan_out(from: usize, to: Seq<usize>, e: PipelineEdge) -> Seq<(usize, usize, PipelineEdge)> {
    to.map_values(|t: usize| (from, t, e))
}

/// An edge from each origin to `to`, in order.
pub open spec fn fan_in(from: Seq<usize>, to: usize, e: PipelineEdge) -> Seq<(usize, usize, PipelineEdge)> {
    from.map_values(|f: usize| (f, to, e))
}

/// An edge from each node of a chain to the next.
pub open spec fn chain_edges(ps: Seq<usize>, e: PipelineEdge) -> Seq<(usize, usize, PipelineEdge)> {
    Seq::new(if ps.len() > 0 { (ps.len() - 1) as nat } else { 0 }, |i: int| (ps[i], ps[i + 1], e))
}

/// An edge from each origin to each target, origin by origin.
pub open spec fn cross_edges(rs: Seq<usize>, xs: Seq<usize>, e: PipelineEdge) -> Seq<(usize, usize, PipelineEdge)>
    decreases rs.len(),
{
    if rs.len() == 0 {
        Seq::empty()
    } else {
        cross_edges(rs.drop_last(), xs, e) + fan_out(rs.last(), xs, e)
    }
}

/// The edges of one pipeline, in the order they are added: the source to each receiver;
/// each receiver to the first processor; each processor to the next; the last processor
/// to each exporter, or, without processors, each receiver to each exporter; each exporter
/// to the sink.
pub open spec fn pipeline_edges(e: PipelineEdge, rs: Seq<usize>, ps: Seq<usize>, xs: Seq<usize>) -> Seq<
    (usize, usize, PipelineEdge),
> {
    fan_out(0, rs, e) + (if ps.len() > 0 {
        fan_in(rs, ps[0], e)
    } else {
        Seq::empty()
    }) + chain_edges(ps, e) + (if ps.len() > 0 {
        fan_out(ps.last(), xs, e)
    } else {
        cross_edges(rs, xs, e)
    }) + fan_in(xs, 1, e)
}

/// The kind of data of a pipeline, from the service name of its identifier.
pub open spec fn pipeline_kind(id: Seq<char>) -> Option<PipelineEdge> {
    let name = service_name(id);
    if name == "metrics"@ {
        Some(PipelineEdge::Metrics)
    } else if name == "logs"@ {
        Some(PipelineEdge::Logs)
    } else if name == "traces"@ {
        Some(PipelineEdge::Traces)
    } else {
        None
    }
}

/// The graph that the pipelines make, one after the other: the source and the sink first;
/// a pipeline of an unknown kind or without receivers adds nothing; otherwise its
/// receivers, processors and exporters are added as nodes unless they are there already,
/// and, if it has exporters, its edges.
pub open spec fn graph_spec(pipelines: Seq<(Seq<char>, PipelineConfigView)>) -> (Seq<NodeView>, Seq<
    (usize, usize, PipelineEdge),
>)
    decreases pipelines.len(),
{
    if pipelines.len() == 0 {
        (seq![NodeView::Source, NodeView::Sink], Seq::empty())
    } else {
        let (nodes, edges) = graph_spec(pipelines.drop_last());
        let p = pipelines.last();
        match pipeline_kind(p.0) {
            None => (nodes, edges),
            Some(e) => if p.1.receivers.len() == 0 {
                (nodes, edges)
            } else {
                let rn = receiver_nodes(p.1.receivers);
                let pn = processor_nodes(p.1.processors);
                let xn = exporter_nodes(p.1.exporters);
                let n3 = with_nodes(with_nodes(with_nodes(nodes, rn), pn), xn);
                if p.1.exporters.len() == 0 {
                    (n3, edges)
                } else {
                    (n3, edges + pipeline_edges(e, positions(n3, rn), positions(n3, pn), positions(n3, xn)))
                }
            },
        }
    }
}

/// The pipelines of a configuration, as their views.
pub open spec fn pipelines_view(config: Config) -> Seq<(Seq<char>, PipelineConfigView)> {
    config.service.pipelines.pipelines@.map_values(|p: (String, crate::config::PipelineConfig)| (p.0@, p.1@))
}

/// The graph of the pipelines is one that `u32` indices can address.
pub open spec fn graph_fits(config: Config) -> bool {
    &&& graph_spec(pipelines_view(config)).0.len() <= u32::MAX
    &&& graph_spec(pipelines_view(config)).1.len() <= u32::MAX
}


/// Adding two lists of nodes in turn is adding their concatenation.
pub proof fn lemma_with_nodes_concat(nodes: Seq<NodeView>, a: Seq<NodeView>, b: Seq<NodeView>)
    ensures
        with_nodes(nodes, a + b) == with_nodes(with_nodes(nodes, a), b),
    decreases b.len(),
{
    if b.len() == 0 {
        assert(a + b =~= a);
    } else {
        assert((a + b).drop_last() =~= a + b.drop_last());
        assert((a + b).last() == b.last());
        lemma_with_nodes_concat(nodes, a, b.drop_last());
    }
}

/// The nodes of the given kind with these identifiers.
pub open spec fn kind_nodes(kind: ServiceKind, ids: Seq<Seq<char>>) -> Seq<NodeView> {
    match kind {
        ServiceKind::Receiver => receiver_nodes(ids),
        ServiceKind::Processor => processor_nodes(ids),
        ServiceKind::Exporter => exporter_nodes(ids),
    }
}

/// Looking a node up or adding it a second time changes nothing and finds the same index:
/// after the first time the node is there, at its first position, and the nodes stay as
/// they are.
pub proof fn get_or_insert_again(nodes: Seq<NodeView>, w: NodeView)
    ensures
        with_node(nodes, w).contains(w),
        with_node(with_node(nodes, w), w) == with_node(nodes, w),
        with_node(nodes, w)[node_position(with_node(nodes, w), w)] == w,
        nodes.contains(w) ==> with_node(nodes, w) == nodes && node_position(with_node(nodes, w), w)
            == node_position(nodes, w),
{
    if !nodes.contains(w) {
        assert(nodes.push(w)[nodes.len() as int] == w);
    }
    lemma_node_position(with_node(nodes, w), w);
}

/// The index of the node equal to `weight`, which is added at the end if no node is equal.
pub fn get_or_insert_node(graph: &mut PipelineGraph, weight: PipelineNode) -> (r: usize)
    requires
        with_node(graph_nodes(*old(graph)), weight@).len() <= u32::MAX,
    ensures
        graph_nodes(*final(graph)) == with_node(graph_nodes(*old(graph)), weight@),
        graph_edges(*final(graph)) == graph_edges(*old(graph)),
        r == node_position(graph_nodes(*final(graph)), weight@),
        r < graph_nodes(*final(graph)).len(),
        graph_nodes(*final(graph))[r as int] == weight@,
{
    let ghost nodes = graph_nodes(*graph);
    let n = graph_node_count(graph);
    let mut i: usize = 0;
    while i < n
        invariant
            nodes == graph_nodes(*graph),
            n == nodes.len(),
            n <= u32::MAX,
            i <= n,
            forall|j: int| 0 <= j < i ==> nodes[j] != weight@,
        decreases n - i,
    {
        match graph_node_weight(graph, i) {
            Some(node) => {
                if node.same(&weight) {
                    proof {
                        lemma_position_at(nodes, weight@, i as int);
                        assert(nodes.contains(weight@));
                    }
                    return i;
                }
            },
            None => {},
        }
        i = i + 1;
    }
    assert(!nodes.contains(weight@));
    let r = graph_add_node(graph, weight);
    proof {
        lemma_node_position(nodes.push(weight@), weight@);
        assert forall|j: int| 0 <= j < r implies nodes.push(weight@)[j] != weight@ by {
            assert(nodes.push(weight@)[j] == nodes[j]);
        }
        lemma_position_at(nodes.push(weight@), weight@, r as int);
    }
    r
}

/// Adds a node for each identifier of the given kind, unless it is there already, and
/// returns the index of each.
pub fn insert_services(graph: &mut PipelineGraph, ids: &Vec<String>, kind: ServiceKind) -> (r: Vec<usize>)
    requires
        with_nodes(graph_nodes(*old(graph)), kind_nodes(kind, strings_view(ids@))).len() <= u32::MAX,
    ensures
        graph_nodes(*final(graph)) == with_nodes(graph_nodes(*old(graph)), kind_nodes(kind, strings_view(ids@))),
        graph_edges(*final(graph)) == graph_edges(*old(graph)),
        r@ == positions(graph_nodes(*final(graph)), kind_nodes(kind, strings_view(ids@))),
        forall|k: int| 0 <= k < r@.len() ==> r@[k] < graph_nodes(*final(graph)).len(),
{
    let ghost n0 = graph_nodes(*graph);
    let ghost kn = kind_nodes(kind, strings_view(ids@));
    let mut r: Vec<usize> = Vec::new();
    let mut i: usize = 0;
    assert(kn.take(0) =~= Seq::<NodeView>::empty());
    while i < ids.len()
        invariant
            n0 == graph_nodes(*old(graph)),
            kn == kind_nodes(kind, strings_view(ids@)),
            kn.len() == ids@.len(),
            with_nodes(n0, kn).len() <= u32::MAX,
            i <= ids@.len(),
            graph_nodes(*graph) == with_nodes(n0, kn.take(i as int)),
            graph_edges(*graph) == graph_edges(*old(graph)),
            r@ == positions(graph_nodes(*graph), kn.take(i as int)),
            forall|k: int| 0 <= k < r@.len() ==> r@[k] < graph_nodes(*graph).len(),
        decreases ids@.len() - i,
    {
        let id = ids[i].clone();
        let weight = match kind {
            ServiceKind::Receiver => PipelineNode::Service(ServiceIdentifier::Receiver(id)),
            ServiceKind::Processor => PipelineNode::Service(ServiceIdentifier::Processor(id)),
            ServiceKind::Exporter => PipelineNode::Service(ServiceIdentifier::Exporter(id)),
        };
        let ghost before = graph_nodes(*graph);
        proof {
            assert(weight@ == kn[i as int]);
            assert(kn.take(i + 1) =~= kn.take(i as int).push(kn[i as int]));
            assert(kn =~= kn.take(i + 1) + kn.skip(i + 1));
            lemma_with_nodes_concat(n0, kn.take(i + 1), kn.skip(i + 1));
            lemma_with_nodes(with_nodes(n0, kn.take(i + 1)), kn.skip(i + 1));
            assert(kn.take(i + 1).drop_last() =~= kn.take(i as int));
            assert(kn.take(i + 1).last() == kn[i as int]);
            assert(with_nodes(n0, kn.take(i + 1)) == with_node(before, weight@));
        }
        let idx = get_or_insert_node(graph, weight);
        proof {
            let after = graph_nodes(*graph);
            lemma_with_nodes(before, seq![weight@]);
            assert(seq![weight@].drop_last() =~= Seq::<NodeView>::empty());
            assert(after.take(before.len() as int) == before);
            assert forall|k: int| 0 <= k < i implies #[trigger] positions(after, kn.take(i + 1))[k]
                == positions(before, kn.take(i as int))[k] by {
                lemma_with_nodes(n0, kn.take(i as int));
                assert(kn.take(i as int)[k] == kn[k]);
                assert(before.contains(kn.take(i as int)[k]));
                lemma_position_prefix(before, after, kn[k]);
            }
            assert(r@.push(idx) =~= positions(after, kn.take(i + 1)));
        }
        r.push(idx);
        i = i + 1;
    }
    assert(kn.take(ids@.len() as int) =~= kn);
    r
}

/// Adds an edge from `from` to each target, in order.
fn add_fan_out(graph: &mut PipelineGraph, from: usize, to: &Vec<usize>, e: PipelineEdge)
    requires
        from < graph_nodes(*old(graph)).len(),
        forall|k: int| 0 <= k < to@.len() ==> to@[k] < graph_nodes(*old(graph)).len(),
        graph_edges(*old(graph)).len() + to@.len() <= u32::MAX,
    ensures
        graph_nodes(*final(graph)) == graph_nodes(*old(graph)),
        graph_edges(*final(graph)) == graph_edges(*old(graph)) + fan_out(from, to@, e),
{
    let mut i: usize = 0;
    while i < to.len()
        invariant
            from < graph_nodes(*old(graph)).len(),
            forall|k: int| 0 <= k < to@.len() ==> to@[k] < graph_nodes(*old(graph)).len(),
            graph_edges(*old(graph)).len() + to@.len() <= u32::MAX,
            i <= to@.len(),
            graph_nodes(*graph) == graph_nodes(*old(graph)),
            graph_edges(*graph) == graph_edges(*old(graph)) + fan_out(from, to@.take(i as int), e),
        decreases to@.len() - i,
    {
        graph_add_edge(graph, from, to[i], e);
        assert(to@.take(i + 1) =~= to@.take(i as int).push(to@[i as int]));
        assert(graph_edges(*graph) =~= graph_edges(*old(graph)) + fan_out(from, to@.take(i + 1), e));
        i = i + 1;
    }
    assert(to@.take(to@.len() as int) =~= to@);
}

/// Adds an edge from each origin to `to`, in order.
fn add_fan_in(graph: &mut PipelineGraph, from: &Vec<usize>, to: usize, e: PipelineEdge)
    requires
        to < graph_nodes(*old(graph)).len(),
        forall|k: int| 0 <= k < from@.len() ==> from@[k] < graph_nodes(*old(graph)).len(),
        graph_edges(*old(graph)).len() + from@.len() <= u32::MAX,
    ensures
        graph_nodes(*final(graph)) == graph_nodes(*old(graph)),
        graph_edges(*final(graph)) == graph_edges(*old(graph)) + fan_in(from@, to, e),
{
    let mut i: usize = 0;
    while i < from.len()
        invariant
            to < graph_nodes(*old(graph)).len(),
            forall|k: int| 0 <= k < from@.len() ==> from@[k] < graph_nodes(*old(graph)).len(),
            graph_edges(*old(graph)).len() + from@.len() <= u32::MAX,
            i <= from@.len(),
            graph_nodes(*graph) == graph_nodes(*old(graph)),
            graph_edges(*graph) == graph_edges(*old(graph)) + fan_in(from@.take(i as int), to, e),
        decreases from@.len() - i,
    {
        graph_add_edge(graph, from[i], to, e);
        assert(from@.take(i + 1) =~= from@.take(i as int).push(from@[i as int]));
        assert(graph_edges(*graph) =~= graph_edges(*old(graph)) + fan_in(from@.take(i + 1), to, e));
        i = i + 1;
    }
    assert(from@.take(from@.len() as int) =~= from@);
}

/// Adds an edge from each node of a chain to the next.
fn add_chain(graph: &mut PipelineGraph, ps: &Vec<usize>, e: PipelineEdge)
    requires
        forall|k: int| 0 <= k < ps@.len() ==> ps@[k] < graph_nodes(*old(graph)).len(),
        graph_edges(*old(graph)).len() + chain_edges(ps@, e).len() <= u32::MAX,
    ensures
        graph_nodes(*final(graph)) == graph_nodes(*old(graph)),
        graph_edges(*final(graph)) == graph_edges(*old(graph)) + chain_edges(ps@, e),
{
    if ps.len() == 0 {
        assert(chain_edges(ps@, e) =~= Seq::empty());
        assert(graph_edges(*graph) =~= graph_edges(*old(graph)) + chain_edges(ps@, e));
        return;
    }
    let mut i: usize = 1;
    assert(chain_edges(ps@, e).take(0) =~= Seq::empty());
    while i < ps.len()
        invariant
            ps@.len() > 0,
            forall|k: int| 0 <= k < ps@.len() ==> ps@[k] < graph_nodes(*old(graph)).len(),
            graph_edges(*old(graph)).len() + chain_edges(ps@, e).len() <= u32::MAX,
            1 <= i <= ps@.len(),
            graph_nodes(*graph) == graph_nodes(*old(graph)),
            graph_edges(*graph) == graph_edges(*old(graph)) + chain_edges(ps@, e).take(i - 1),
        decreases ps@.len() - i,
    {
        graph_add_edge(graph, ps[i - 1], ps[i], e);
        assert(chain_edges(ps@, e).take(i as int) =~= chain_edges(ps@, e).take(i - 1).push((ps@[i - 1], ps@[i as int], e)));
        i = i + 1;
    }
    assert(chain_edges(ps@, e).take(ps@.len() - 1) =~= chain_edges(ps@, e));
}

/// The number of edges from each origin to each target.
pub proof fn lemma_cross_len(rs: Seq<usize>, xs: Seq<usize>, e: PipelineEdge)
    ensures
        cross_edges(rs, xs, e).len() == rs.len() * xs.len(),
    decreases rs.len(),
{
    if rs.len() > 0 {
        lemma_cross_len(rs.drop_last(), xs, e);
        assert((rs.len() - 1) * xs.len() + xs.len() == rs.len() * xs.len()) by (nonlinear_arith);
    }
}

/// Adds an edge from each origin to each target, origin by origin.
fn add_cross(graph: &mut PipelineGraph, rs: &Vec<usize>, xs: &Vec<usize>, e: PipelineEdge)
    requires
        forall|k: int| 0 <= k < rs@.len() ==> rs@[k] < graph_nodes(*old(graph)).len(),
        forall|k: int| 0 <= k < xs@.len() ==> xs@[k] < graph_nodes(*old(graph)).len(),
        graph_edges(*old(graph)).len() + cross_edges(rs@, xs@, e).len() <= u32::MAX,
    ensures
        graph_nodes(*final(graph)) == graph_nodes(*old(graph)),
        graph_edges(*final(graph)) == graph_edges(*old(graph)) + cross_edges(rs@, xs@, e),
{
    let mut i: usize = 0;
    assert(rs@.take(0) =~= Seq::<usize>::empty());
    assert(graph_edges(*graph) =~= graph_edges(*old(graph)) + cross_edges(rs@.take(0), xs@, e));
    while i < rs.len()
        invariant
            forall|k: int| 0 <= k < rs@.len() ==> rs@[k] < graph_nodes(*old(graph)).len(),
            forall|k: int| 0 <= k < xs@.len() ==> xs@[k] < graph_nodes(*old(graph)).len(),
            graph_edges(*old(graph)).len() + cross_edges(rs@, xs@, e).len() <= u32::MAX,
            i <= rs@.len(),
            graph_nodes(*graph) == graph_nodes(*old(graph)),
            graph_edges(*graph) == graph_edges(*old(graph)) + cross_edges(rs@.take(i as int), xs@, e),
        decreases rs@.len() - i,
    {
        proof {
            assert(rs@.take(i + 1).drop_last() =~= rs@.take(i as int));
            assert(rs@.take(i + 1).last() == rs@[i as int]);
            lemma_cross_len(rs@.take(i + 1), xs@, e);
            lemma_cross_len(rs@, xs@, e);
            assert((i + 1) * xs@.len() <= rs@.len() * xs@.len()) by (nonlinear_arith)
                requires
                    i + 1 <= rs@.len(),
            ;
        }
        add_fan_out(graph, rs[i], xs, e);
        assert(graph_edges(*graph) =~= graph_edges(*old(graph)) + cross_edges(rs@.take(i + 1), xs@, e));
        i = i + 1;
    }
    assert(rs@.take(rs@.len() as int) =~= rs@);
}


/// `short` is a prefix of `long`.
pub open spec fn is_prefix<A>(short: Seq<A>, long: Seq<A>) -> bool {
    short.len() <= long.len() && long.take(short.len() as int) == short
}

/// Positions of nodes within a prefix do not change when nodes are added after it.
pub proof fn lemma_positions_stable(short: Seq<NodeView>, long: Seq<NodeView>, ws: Seq<NodeView>)
    requires
        is_prefix(short, long),
        forall|k: int| 0 <= k < ws.len() ==> short.contains(#[trigger] ws[k]),
    ensures
        positions(long, ws) == positions(short, ws),
{
    assert forall|k: int| 0 <= k < ws.len() implies #[trigger] positions(long, ws)[k] == positions(short, ws)[k] by {
        lemma_position_prefix(short, long, ws[k]);
    }
    assert(positions(long, ws) =~= positions(short, ws));
}

/// Being a prefix is transitive.
pub proof fn lemma_prefix_trans<A>(a: Seq<A>, b: Seq<A>, c: Seq<A>)
    requires
        is_prefix(a, b),
        is_prefix(b, c),
    ensures
        is_prefix(a, c),
{
    assert(c.take(a.len() as int) =~= c.take(b.len() as int).take(a.len() as int));
}

/// Each pipeline only adds nodes and edges after those of the pipelines before it.
pub proof fn lemma_graph_step(ps: Seq<(Seq<char>, PipelineConfigView)>)
    requires
        ps.len() > 0,
    ensures
        is_prefix(graph_spec(ps.drop_last()).0, graph_spec(ps).0),
        is_prefix(graph_spec(ps.drop_last()).1, graph_spec(ps).1),
{
    let (nodes, edges) = graph_spec(ps.drop_last());
    let p = ps.last();
    let rn = receiver_nodes(p.1.receivers);
    let pn = processor_nodes(p.1.processors);
    let xn = exporter_nodes(p.1.exporters);
    lemma_with_nodes(nodes, rn);
    lemma_with_nodes(with_nodes(nodes, rn), pn);
    lemma_with_nodes(with_nodes(with_nodes(nodes, rn), pn), xn);
    lemma_prefix_trans(nodes, with_nodes(nodes, rn), with_nodes(with_nodes(nodes, rn), pn));
    lemma_prefix_trans(
        nodes,
        with_nodes(with_nodes(nodes, rn), pn),
        with_nodes(with_nodes(with_nodes(nodes, rn), pn), xn),
    );
    assert(nodes.take(nodes.len() as int) =~= nodes);
    assert(edges.take(edges.len() as int) =~= edges);
    let n3 = with_nodes(with_nodes(with_nodes(nodes, rn), pn), xn);
    let more = pipeline_edges(pipeline_kind(p.0).unwrap_or(PipelineEdge::Metrics), positions(n3, rn), positions(n3, pn), positions(n3, xn));
    assert((edges + more).take(edges.len() as int) =~= edges);
}

/// The graph of the first pipelines is a prefix of the graph of all, and starts with the
/// source and the sink.
pub proof fn lemma_graph_prefix(ps: Seq<(Seq<char>, PipelineConfigView)>, k: int)
    requires
        0 <= k <= ps.len(),
    ensures
        is_prefix(graph_spec(ps.take(k)).0, graph_spec(ps).0),
        is_prefix(graph_spec(ps.take(k)).1, graph_spec(ps).1),
        graph_spec(ps).0.len() >= 2,
        graph_spec(ps).0[0] == NodeView::Source,
        graph_spec(ps).0[1] == NodeView::Sink,
    decreases ps.len(),
{
    if ps.len() == 0 {
        assert(ps.take(k) =~= ps);
        assert(graph_spec(ps).0.take(2) =~= graph_spec(ps).0);
        assert(graph_spec(ps).1.take(0) =~= graph_spec(ps).1);
    } else {
        lemma_graph_step(ps);
        if k == ps.len() {
            assert(ps.take(k) =~= ps);
            lemma_graph_prefix(ps.drop_last(), k - 1);
            assert(graph_spec(ps).0.take(graph_spec(ps).0.len() as int) =~= graph_spec(ps).0);
            assert(graph_spec(ps).1.take(graph_spec(ps).1.len() as int) =~= graph_spec(ps).1);
        } else {
            assert(ps.take(k) =~= ps.drop_last().take(k));
            lemma_graph_prefix(ps.drop_last(), k);
            lemma_prefix_trans(graph_spec(ps.take(k)).0, graph_spec(ps.drop_last()).0, graph_spec(ps).0);
            lemma_prefix_trans(graph_spec(ps.take(k)).1, graph_spec(ps.drop_last()).1, graph_spec(ps).1);
        }
        let a = graph_spec(ps.drop_last()).0;
        let b = graph_spec(ps).0;
        assert(b[0] == b.take(a.len() as int)[0]);
        assert(b[1] == b.take(a.len() as int)[1]);
    }
}

/// An edge that stays within `len` nodes, never enters the source (index 0) and never
/// leaves the sink (index 1).
pub open spec fn edge_in_shape(edge: (usize, usize, PipelineEdge), len: int) -> bool {
    &&& edge.0 < len
    &&& edge.1 < len
    &&& edge.0 != 1
    &&& edge.1 != 0
}

/// Indices of service nodes: past the source and the sink, within `len` nodes.
pub open spec fn service_indices(xs: Seq<usize>, len: int) -> bool {
    forall|k: int| 0 <= k < xs.len() ==> 2 <= #[trigger] xs[k] < len
}

/// Adding nodes one by one, unless there already, keeps them distinct.
pub proof fn lemma_with_nodes_distinct(nodes: Seq<NodeView>, ws: Seq<NodeView>)
    requires
        nodes.no_duplicates(),
    ensures
        with_nodes(nodes, ws).no_duplicates(),
    decreases ws.len(),
{
    if ws.len() > 0 {
        lemma_with_nodes_distinct(nodes, ws.drop_last());
        let m = with_nodes(nodes, ws.drop_last());
        if !m.contains(ws.last()) {
            assert forall|a: int, b: int| 0 <= a < b < m.push(ws.last()).len() implies m.push(ws.last())[a]
                != m.push(ws.last())[b] by {
                if b == m.len() {
                    assert(m.push(ws.last())[a] == m[a]);
                }
            }
        }
    }
}

/// The positions of service nodes that are there lie past the source and the sink.
pub proof fn lemma_service_positions(nodes: Seq<NodeView>, ws: Seq<NodeView>)
    requires
        2 <= nodes.len() <= usize::MAX,
        nodes[0] == NodeView::Source,
        nodes[1] == NodeView::Sink,
        forall|k: int| 0 <= k < ws.len() ==> nodes.contains(#[trigger] ws[k]),
        forall|k: int| 0 <= k < ws.len() ==> (#[trigger] ws[k]) is Service,
    ensures
        service_indices(positions(nodes, ws), nodes.len() as int),
{
    assert forall|k: int| 0 <= k < ws.len() implies 2 <= #[trigger] positions(nodes, ws)[k] < nodes.len() by {
        lemma_node_position(nodes, ws[k]);
        let pos = node_position(nodes, ws[k]);
        assert(nodes[pos] == ws[k]);
        assert(ws[k] is Service);
        assert(pos != 0 && pos != 1);
        assert(positions(nodes, ws)[k] == pos);
    }
}

/// Every edge between origins and targets, origin by origin, is one of an origin to a target.
pub proof fn lemma_cross_shape(rs: Seq<usize>, xs: Seq<usize>, e: PipelineEdge, len: int)
    requires
        service_indices(rs, len),
        service_indices(xs, len),
    ensures
        forall|i: int| 0 <= i < cross_edges(rs, xs, e).len() ==> edge_in_shape(#[trigger] cross_edges(rs, xs, e)[i], len),
    decreases rs.len(),
{
    if rs.len() > 0 {
        lemma_cross_shape(rs.drop_last(), xs, e, len);
        assert(service_indices(rs.drop_last(), len)) by {
            assert forall|k: int| 0 <= k < rs.drop_last().len() implies 2 <= #[trigger] rs.drop_last()[k] < len by {
                assert(rs.drop_last()[k] == rs[k]);
            }
        }
        let a = cross_edges(rs.drop_last(), xs, e);
        let b = fan_out(rs.last(), xs, e);
        assert forall|i: int| 0 <= i < (a + b).len() implies edge_in_shape(#[trigger] (a + b)[i], len) by {
            if i >= a.len() {
                assert((a + b)[i] == b[i - a.len()]);
                assert(2 <= rs[rs.len() - 1]);
            }
        }
    }
}

/// Every edge between origins and targets carries the kind of data it was made with.
pub proof fn lemma_cross_kind(rs: Seq<usize>, xs: Seq<usize>, e: PipelineEdge)
    ensures
        forall|i: int| 0 <= i < cross_edges(rs, xs, e).len() ==> (#[trigger] cross_edges(rs, xs, e)[i]).2 == e,
    decreases rs.len(),
{
    if rs.len() > 0 {
        lemma_cross_kind(rs.drop_last(), xs, e);
        let a = cross_edges(rs.drop_last(), xs, e);
        let b = fan_out(rs.last(), xs, e);
        assert forall|i: int| 0 <= i < (a + b).len() implies (#[trigger] (a + b)[i]).2 == e by {
            if i >= a.len() {
                assert((a + b)[i] == b[i - a.len()]);
            }
        }
    }
}

/// Every edge of one pipeline carries the kind of data of the pipeline.
pub proof fn lemma_pipeline_edges_kind(e: PipelineEdge, rs: Seq<usize>, ps: Seq<usize>, xs: Seq<usize>)
    ensures
        forall|i: int| 0 <= i < pipeline_edges(e, rs, ps, xs).len() ==> (#[trigger] pipeline_edges(e, rs, ps, xs)[i]).2 == e,
{
    let a = fan_out(0, rs, e);
    let b = if ps.len() > 0 { fan_in(rs, ps[0], e) } else { Seq::empty() };
    let c = chain_edges(ps, e);
    let d = if ps.len() > 0 { fan_out(ps.last(), xs, e) } else { cross_edges(rs, xs, e) };
    let f = fan_in(xs, 1, e);
    lemma_cross_kind(rs, xs, e);
    let all = a + b + c + d + f;
    assert(pipeline_edges(e, rs, ps, xs) == all);
    assert forall|i: int| 0 <= i < all.len() implies (#[trigger] all[i]).2 == e by {
        if i < a.len() {
            assert(all[i] == a[i]);
        } else if i < a.len() + b.len() {
            assert(all[i] == b[i - a.len()]);
        } else if i < a.len() + b.len() + c.len() {
            assert(all[i] == c[i - a.len() - b.len()]);
        } else if i < a.len() + b.len() + c.len() + d.len() {
            assert(all[i] == d[i - a.len() - b.len() - c.len()]);
        } else {
            assert(all[i] == f[i - a.len() - b.len() - c.len() - d.len()]);
        }
    }
}

/// Every edge of the pipeline graph carries the kind of data of a pipeline that added it:
/// `metrics`, `logs` or `traces`, from the service name of that pipeline's identifier.
pub proof fn pipeline_edge_kinds(pipelines: Seq<(Seq<char>, PipelineConfigView)>)
    ensures
        forall|i: int|
            0 <= i < graph_spec(pipelines).1.len() ==> exists|j: int|
                0 <= j < pipelines.len() && pipeline_kind(#[trigger] pipelines[j].0) == Some(
                    (#[trigger] graph_spec(pipelines).1[i]).2,
                ),
    decreases pipelines.len(),
{
    if pipelines.len() > 0 {
        let prev = pipelines.drop_last();
        pipeline_edge_kinds(prev);
        lemma_graph_step(pipelines);
        let (nodes, edges) = graph_spec(prev);
        let edges2 = graph_spec(pipelines).1;
        let p = pipelines.last();
        let last = pipelines.len() - 1;
        assert forall|i: int| 0 <= i < edges2.len() implies exists|j: int|
            0 <= j < pipelines.len() && pipeline_kind(#[trigger] pipelines[j].0) == Some((#[trigger] edges2[i]).2) by {
            if i < edges.len() {
                assert(edges2[i] == edges2.take(edges.len() as int)[i]);
                let j = choose|j: int| 0 <= j < prev.len() && pipeline_kind(#[trigger] prev[j].0) == Some((#[trigger] edges[i]).2);
                assert(pipelines[j] == prev[j]);
            } else {
                let e = pipeline_kind(p.0).unwrap();
                let rn = receiver_nodes(p.1.receivers);
                let pn = processor_nodes(p.1.processors);
                let xn = exporter_nodes(p.1.exporters);
                let n3 = with_nodes(with_nodes(with_nodes(nodes, rn), pn), xn);
                let more = pipeline_edges(e, positions(n3, rn), positions(n3, pn), positions(n3, xn));
                lemma_pipeline_edges_kind(e, positions(n3, rn), positions(n3, pn), positions(n3, xn));
                assert(edges2 == edges + more);
                assert(edges2[i] == more[i - edges.len()]);
                assert(pipelines[last] == p);
            }
        }
    }
}

/// The edges of one pipeline, between service nodes, the source and the sink, keep the shape.
pub proof fn lemma_pipeline_edges_shape(e: PipelineEdge, rs: Seq<usize>, ps: Seq<usize>, xs: Seq<usize>, len: int)
    requires
        len >= 2,
        service_indices(rs, len),
        service_indices(ps, len),
        service_indices(xs, len),
    ensures
        forall|i: int| 0 <= i < pipeline_edges(e, rs, ps, xs).len() ==> edge_in_shape(
            #[trigger] pipeline_edges(e, rs, ps, xs)[i],
            len,
        ),
{
    let a = fan_out(0, rs, e);
    let b = if ps.len() > 0 { fan_in(rs, ps[0], e) } else { Seq::empty() };
    let c = chain_edges(ps, e);
    let d = if ps.len() > 0 { fan_out(ps.last(), xs, e) } else { cross_edges(rs, xs, e) };
    let f = fan_in(xs, 1, e);
    lemma_cross_shape(rs, xs, e, len);
    if ps.len() > 0 {
        assert(2 <= ps[0] && 2 <= ps[ps.len() - 1]);
    }
    assert forall|i: int| 0 <= i < c.len() implies edge_in_shape(#[trigger] c[i], len) by {
        assert(2 <= ps[i] && 2 <= ps[i + 1]);
    }
    let all = a + b + c + d + f;
    assert(pipeline_edges(e, rs, ps, xs) == all);
    assert forall|i: int| 0 <= i < all.len() implies edge_in_shape(#[trigger] all[i], len) by {
        if i < a.len() {
            assert(all[i] == a[i]);
        } else if i < a.len() + b.len() {
            assert(all[i] == b[i - a.len()]);
        } else if i < a.len() + b.len() + c.len() {
            assert(all[i] == c[i - a.len() - b.len()]);
        } else if i < a.len() + b.len() + c.len() + d.len() {
            assert(all[i] == d[i - a.len() - b.len() - c.len()]);
        } else {
            assert(all[i] == f[i - a.len() - b.len() - c.len() - d.len()]);
        }
    }
}

/// The shape of the pipeline graph, whatever the configuration: the source comes first and
/// the sink second, no node occurs twice, and every edge joins two nodes of the graph,
/// never enters the source and never leaves the sink. (Node indices are machine words, so
/// the graph is taken to have no more nodes than they can count.)
pub proof fn pipeline_graph_shape(pipelines: Seq<(Seq<char>, PipelineConfigView)>)
    requires
        graph_spec(pipelines).0.len() <= usize::MAX,
    ensures
        graph_spec(pipelines).0.len() >= 2,
        graph_spec(pipelines).0[0] == NodeView::Source,
        graph_spec(pipelines).0[1] == NodeView::Sink,
        graph_spec(pipelines).0.no_duplicates(),
        forall|i: int| 0 <= i < graph_spec(pipelines).1.len() ==> edge_in_shape(
            #[trigger] graph_spec(pipelines).1[i],
            graph_spec(pipelines).0.len() as int,
        ),
    decreases pipelines.len(),
{
    lemma_graph_prefix(pipelines, 0);
    if pipelines.len() > 0 {
        lemma_graph_step(pipelines);
        pipeline_graph_shape(pipelines.drop_last());
        let (nodes, edges) = graph_spec(pipelines.drop_last());
        let p = pipelines.last();
        let (nodes2, edges2) = graph_spec(pipelines);
        assert forall|i: int| 0 <= i < edges.len() implies edge_in_shape(#[trigger] edges2[i], nodes2.len() as int) by {
            assert(edges2[i] == edges2.take(edges.len() as int)[i]);
        }
        if let Some(e) = pipeline_kind(p.0) {
            if p.1.receivers.len() > 0 {
                let rn = receiver_nodes(p.1.receivers);
                let pn = processor_nodes(p.1.processors);
                let xn = exporter_nodes(p.1.exporters);
                let n1 = with_nodes(nodes, rn);
                let n2 = with_nodes(n1, pn);
                let n3 = with_nodes(n2, xn);
                lemma_with_nodes_distinct(nodes, rn);
                lemma_with_nodes_distinct(n1, pn);
                lemma_with_nodes_distinct(n2, xn);
                if p.1.exporters.len() > 0 {
                    lemma_with_nodes(nodes, rn);
                    lemma_with_nodes(n1, pn);
                    lemma_with_nodes(n2, xn);
                    lemma_prefix_trans(n1, n2, n3);
                    assert forall|k: int| 0 <= k < rn.len() implies n3.contains(#[trigger] rn[k]) by {
                        lemma_prefix_contains(n1, n3, rn[k]);
                    }
                    assert forall|k: int| 0 <= k < pn.len() implies n3.contains(#[trigger] pn[k]) by {
                        lemma_prefix_contains(n2, n3, pn[k]);
                    }
                    lemma_service_positions(n3, rn);
                    lemma_service_positions(n3, pn);
                    lemma_service_positions(n3, xn);
                    let more = pipeline_edges(e, positions(n3, rn), positions(n3, pn), positions(n3, xn));
                    lemma_pipeline_edges_shape(e, positions(n3, rn), positions(n3, pn), positions(n3, xn), n3.len() as int);
                    assert forall|i: int| edges.len() <= i < edges2.len() implies edge_in_shape(#[trigger] edges2[i], nodes2.len() as int) by {
                        assert(edges2[i] == more[i - edges.len()]);
                    }
                }
            }
        }
    }
}

/// The kind of data of a pipeline, from the service name of its identifier.
pub(crate) fn pipeline_edge_kind(id: &str) -> (r: Option<PipelineEdge>)
    ensures
        r == pipeline_kind(id@),
{
    let name = match service_id(id) {
        Some(n) => n,
        None => {
            return None;
        },
    };
    if crate::text::str_eq(name.as_str(), "metrics") {
        Some(PipelineEdge::Metrics)
    } else if crate::text::str_eq(name.as_str(), "logs") {
        Some(PipelineEdge::Logs)
    } else if crate::text::str_eq(name.as_str(), "traces") {
        Some(PipelineEdge::Traces)
    } else {
        None
    }
}

/// Builds the graph of the pipelines of a configuration, one pipeline after the other, and
/// returns it with the index of its source.
pub fn build_pipeline_graph(config: &Config) -> (r: (PipelineGraph, usize))
    requires
        graph_fits(*config),
    ensures
        graph_nodes(r.0) == graph_spec(pipelines_view(*config)).0,
        graph_edges(r.0) == graph_spec(pipelines_view(*config)).1,
        r.1 == 0,
        graph_nodes(r.0)[r.1 as int] == NodeView::Source,
        graph_nodes(r.0)[1] == NodeView::Sink,
        graph_nodes(r.0).no_duplicates(),
        forall|i: int| 0 <= i < graph_edges(r.0).len() ==> edge_in_shape(
            #[trigger] graph_edges(r.0)[i],
            graph_nodes(r.0).len() as int,
        ),
        forall|i: int|
            0 <= i < graph_edges(r.0).len() ==> exists|j: int|
                0 <= j < pipelines_view(*config).len() && pipeline_kind(#[trigger] pipelines_view(*config)[j].0)
                    == Some((#[trigger] graph_edges(r.0)[i]).2),
{
    let ghost pv = pipelines_view(*config);
    let pipelines = &config.service.pipelines.pipelines;
    let mut graph = new_graph();
    let source_node = graph_add_node(&mut graph, PipelineNode::Source);
    let sink_node = graph_add_node(&mut graph, PipelineNode::Sink);
    proof {
        assert(pv.take(0) =~= Seq::<(Seq<char>, PipelineConfigView)>::empty());
        assert(graph_nodes(graph) =~= graph_spec(pv.take(0)).0);
        assert(graph_edges(graph) =~= graph_spec(pv.take(0)).1);
        lemma_graph_prefix(pv, 0);
    }
    let mut k: usize = 0;
    while k < pipelines.len()
        invariant
            pv == pipelines_view(*config),
            *pipelines == config.service.pipelines.pipelines,
            graph_fits(*config),
            k <= pipelines@.len(),
            source_node == 0,
            sink_node == 1,
            graph_nodes(graph) == graph_spec(pv.take(k as int)).0,
            graph_edges(graph) == graph_spec(pv.take(k as int)).1,
        decreases pipelines@.len() - k,
    {
        let ghost nodes = graph_nodes(graph);
        let ghost edges = graph_edges(graph);
        proof {
            assert(pv.take(k + 1).drop_last() =~= pv.take(k as int));
            assert(pv.take(k + 1).last() == pv[k as int]);
            lemma_graph_prefix(pv, k + 1);
            lemma_graph_prefix(pv.take(k + 1), k as int);
            assert(pv.take(k + 1).take(k as int) =~= pv.take(k as int));
            lemma_prefix_trans(graph_spec(pv.take(k as int)).0, graph_spec(pv.take(k + 1)).0, graph_spec(pv).0);
            lemma_prefix_trans(graph_spec(pv.take(k as int)).1, graph_spec(pv.take(k + 1)).1, graph_spec(pv).1);
            lemma_graph_prefix(pv.take(k as int), k as int);
        }
        let pipeline_id = &pipelines[k].0;
        let pipeline = &pipelines[k].1;
        let ghost p = pv[k as int];
        assert(p.0 == pipeline_id@ && p.1 == pipeline@);
        let edge = match pipeline_edge_kind(pipeline_id.as_str()) {
            Some(e) => e,
            None => {
                // a pipeline of an unknown kind is skipped
                k = k + 1;
                continue;
            },
        };
        let ghost rn = receiver_nodes(p.1.receivers);
        let ghost pn = processor_nodes(p.1.processors);
        let ghost xn = exporter_nodes(p.1.exporters);
        let ghost n1 = with_nodes(nodes, rn);
        let ghost n2 = with_nodes(n1, pn);
        let ghost n3 = with_nodes(n2, xn);
        proof {
            lemma_with_nodes(nodes, rn);
            lemma_with_nodes(n1, pn);
            lemma_with_nodes(n2, xn);
            if p.1.receivers.len() == 0 {
                assert(rn.len() == 0);
                assert(n1 == nodes);
            } else {
                assert(graph_spec(pv.take(k + 1)).0 == n3);
            }
        }
        let receiver_nodes = insert_services(&mut graph, &pipeline.receivers, ServiceKind::Receiver);
        if receiver_nodes.len() == 0 {
            // a pipeline without receivers is skipped
            assert(graph_spec(pv.take(k + 1)) == graph_spec(pv.take(k as int)));
            k = k + 1;
            continue;
        }
        let processor_nodes = insert_services(&mut graph, &pipeline.processors, ServiceKind::Processor);
        let exporter_nodes = insert_services(&mut graph, &pipeline.exporters, ServiceKind::Exporter);
        if exporter_nodes.len() == 0 {
            // a pipeline without exporters adds its nodes but no edges
            k = k + 1;
            continue;
        }
        let ghost rs = positions(n3, rn);
        let ghost ps = positions(n3, pn);
        let ghost xs = positions(n3, xn);
        proof {
            lemma_prefix_trans(n1, n2, n3);
            lemma_positions_stable(n1, n3, rn);
            lemma_positions_stable(n2, n3, pn);
            assert(receiver_nodes@ == rs);
            assert(processor_nodes@ == ps);
            assert(exporter_nodes@ == xs);
            assert(graph_spec(pv.take(k + 1)).1 == edges + pipeline_edges(edge, rs, ps, xs));
            lemma_cross_len(rs, xs, edge);
        }
        let ghost total = pipeline_edges(edge, rs, ps, xs);
        let ghost part_a = fan_out(0, rs, edge);
        let ghost part_b = if ps.len() > 0 { fan_in(rs, ps[0], edge) } else { Seq::empty() };
        let ghost part_c = chain_edges(ps, edge);
        let ghost part_d = if ps.len() > 0 { fan_out(ps.last(), xs, edge) } else { cross_edges(rs, xs, edge) };
        let ghost part_e = fan_in(xs, 1, edge);
        assert(total == part_a + part_b + part_c + part_d + part_e);
        assert(total.len() == part_a.len() + part_b.len() + part_c.len() + part_d.len() + part_e.len());
        add_fan_out(&mut graph, source_node, &receiver_nodes, edge);
        if processor_nodes.len() > 0 {
            add_fan_in(&mut graph, &receiver_nodes, processor_nodes[0], edge);
        } else {
            assert(graph_edges(graph) =~= edges + part_a + part_b);
        }
        add_chain(&mut graph, &processor_nodes, edge);
        if processor_nodes.len() > 0 {
            add_fan_out(&mut graph, processor_nodes[processor_nodes.len() - 1], &exporter_nodes, edge);
        } else {
            add_cross(&mut graph, &receiver_nodes, &exporter_nodes, edge);
        }
        add_fan_in(&mut graph, &exporter_nodes, sink_node, edge);
        assert(graph_edges(graph) =~= edges + total);
        k = k + 1;
    }
    assert(pv.take(pipelines@.len() as int) =~= pv);
    proof {
        lemma_graph_prefix(pv, 0);
        pipeline_graph_shape(pv);
        pipeline_edge_kinds(pv);
    }
    (graph, source_node)
}

/// Where the node of the receiver `id` stands among `nodes`.
pub open spec fn receiver_at(nodes: Seq<NodeView>, id: Seq<char>) -> usize {
    node_position(nodes, NodeView::Service(ServiceIdView::Receiver(id))) as usize
}

/// Where the node of the processor `id` stands among `nodes`.
pub open spec fn processor_at(nodes: Seq<NodeView>, id: Seq<char>) -> usize {
    node_position(nodes, NodeView::Service(ServiceIdView::Processor(id))) as usize
}

/// Where the node of the exporter `id` stands among `nodes`.
pub open spec fn exporter_at(nodes: Seq<NodeView>, id: Seq<char>) -> usize {
    node_position(nodes, NodeView::Service(ServiceIdView::Exporter(id))) as usize
}

/// A sequence holds what a prefix of it holds.
proof fn lemma_prefix_holds<A>(short: Seq<A>, long: Seq<A>, x: A)
    requires
        is_prefix(short, long),
        short.contains(x),
    ensures
        long.contains(x),
{
    let k = choose|k: int| 0 <= k < short.len() && short[k] == x;
    assert(long.take(short.len() as int)[k] == long[k]);
}

/// Each part of a concatenation is held by it.
proof fn lemma_concat_holds<A>(a: Seq<A>, b: Seq<A>, x: A)
    requires
        a.contains(x) || b.contains(x),
    ensures
        (a + b).contains(x),
{
    if a.contains(x) {
        let k = choose|k: int| 0 <= k < a.len() && a[k] == x;
        assert((a + b)[k] == x);
    } else {
        let k = choose|k: int| 0 <= k < b.len() && b[k] == x;
        assert((a + b)[a.len() + k] == x);
    }
}

/// The edges from each origin to each target join every origin to every target.
proof fn lemma_cross_holds(rs: Seq<usize>, xs: Seq<usize>, e: PipelineEdge, a: int, b: int)
    requires
        0 <= a < rs.len(),
        0 <= b < xs.len(),
    ensures
        cross_edges(rs, xs, e).contains((rs[a], xs[b], e)),
    decreases rs.len(),
{
    let f = fan_out(rs.last(), xs, e);
    if a == rs.len() - 1 {
        assert(f[b] == (rs[a], xs[b], e));
        lemma_concat_holds(cross_edges(rs.drop_last(), xs, e), f, (rs[a], xs[b], e));
    } else {
        lemma_cross_holds(rs.drop_last(), xs, e, a, b);
        assert(rs.drop_last()[a] == rs[a]);
        lemma_concat_holds(cross_edges(rs.drop_last(), xs, e), f, (rs[a], xs[b], e));
    }
}

/// What one of five parts holds, the five together hold.
proof fn lemma_parts_hold<A>(p1: Seq<A>, p2: Seq<A>, p3: Seq<A>, p4: Seq<A>, p5: Seq<A>, x: A)
    requires
        p1.contains(x) || p2.contains(x) || p3.contains(x) || p4.contains(x) || p5.contains(x),
    ensures
        (p1 + p2 + p3 + p4 + p5).contains(x),
{
    if p1.contains(x) || p2.contains(x) {
        lemma_concat_holds(p1, p2, x);
    }
    if (p1 + p2).contains(x) || p3.contains(x) {
        lemma_concat_holds(p1 + p2, p3, x);
    }
    if (p1 + p2 + p3).contains(x) || p4.contains(x) {
        lemma_concat_holds(p1 + p2 + p3, p4, x);
    }
    lemma_concat_holds(p1 + p2 + p3 + p4, p5, x);
}

/// The edges of one pipeline carry its data from the source through its services to the
/// sink.
proof fn lemma_pipeline_edges_hold(e: PipelineEdge, rs: Seq<usize>, ps: Seq<usize>, xs: Seq<usize>)
    ensures
        forall|a: int| 0 <= a < rs.len() ==> pipeline_edges(e, rs, ps, xs).contains((0usize, #[trigger] rs[a], e)),
        forall|b: int| 0 <= b < xs.len() ==> pipeline_edges(e, rs, ps, xs).contains((#[trigger] xs[b], 1usize, e)),
        ps.len() == 0 ==> forall|a: int, b: int|
            0 <= a < rs.len() && 0 <= b < xs.len() ==> pipeline_edges(e, rs, ps, xs).contains(
                (#[trigger] rs[a], #[trigger] xs[b], e),
            ),
        ps.len() > 0 ==> forall|a: int| 0 <= a < rs.len() ==> pipeline_edges(e, rs, ps, xs).contains((#[trigger] rs[a], ps[0], e)),
        ps.len() > 0 ==> forall|i: int| 0 <= i < ps.len() - 1 ==> pipeline_edges(e, rs, ps, xs).contains((#[trigger] ps[i], ps[i + 1], e)),
        ps.len() > 0 ==> forall|b: int| 0 <= b < xs.len() ==> pipeline_edges(e, rs, ps, xs).contains((ps.last(), #[trigger] xs[b], e)),
{
    let p1 = fan_out(0, rs, e);
    let p2 = if ps.len() > 0 {
        fan_in(rs, ps[0], e)
    } else {
        Seq::empty()
    };
    let p3 = chain_edges(ps, e);
    let p4 = if ps.len() > 0 {
        fan_out(ps.last(), xs, e)
    } else {
        cross_edges(rs, xs, e)
    };
    let p5 = fan_in(xs, 1, e);
    let all = pipeline_edges(e, rs, ps, xs);
    assert(all == p1 + p2 + p3 + p4 + p5);
    assert forall|a: int| 0 <= a < rs.len() implies all.contains((0usize, #[trigger] rs[a], e)) by {
        assert(p1[a] == (0usize, rs[a], e));
        lemma_parts_hold(p1, p2, p3, p4, p5, (0usize, rs[a], e));
    }
    assert forall|b: int| 0 <= b < xs.len() implies all.contains((#[trigger] xs[b], 1usize, e)) by {
        assert(p5[b] == (xs[b], 1usize, e));
        lemma_parts_hold(p1, p2, p3, p4, p5, (xs[b], 1usize, e));
    }
    if ps.len() == 0 {
        assert forall|a: int, b: int| 0 <= a < rs.len() && 0 <= b < xs.len() implies all.contains(
            (#[trigger] rs[a], #[trigger] xs[b], e),
        ) by {
            lemma_cross_holds(rs, xs, e, a, b);
            lemma_parts_hold(p1, p2, p3, p4, p5, (rs[a], xs[b], e));
        }
    } else {
        assert forall|a: int| 0 <= a < rs.len() implies all.contains((#[trigger] rs[a], ps[0], e)) by {
            assert(p2[a] == (rs[a], ps[0], e));
            lemma_parts_hold(p1, p2, p3, p4, p5, (rs[a], ps[0], e));
        }
        assert forall|i: int| 0 <= i < ps.len() - 1 implies all.contains((#[trigger] ps[i], ps[i + 1], e)) by {
            assert(p3[i] == (ps[i], ps[i + 1], e));
            lemma_parts_hold(p1, p2, p3, p4, p5, (ps[i], ps[i + 1], e));
        }
        assert forall|b: int| 0 <= b < xs.len() implies all.contains((ps.last(), #[trigger] xs[b], e)) by {
            assert(p4[b] == (ps.last(), xs[b], e));
            lemma_parts_hold(p1, p2, p3, p4, p5, (ps.last(), xs[b], e));
        }
    }
}

/// The services of `p` are nodes.
pub open spec fn services_present(nodes: Seq<NodeView>, p: PipelineConfigView) -> bool {
    &&& forall|a: int| 0 <= a < p.receivers.len() ==> nodes.contains(NodeView::Service(ServiceIdView::Receiver(#[trigger] p.receivers[a])))
    &&& forall|i: int| 0 <= i < p.processors.len() ==> nodes.contains(NodeView::Service(ServiceIdView::Processor(#[trigger] p.processors[i])))
    &&& forall|b: int| 0 <= b < p.exporters.len() ==> nodes.contains(NodeView::Service(ServiceIdView::Exporter(#[trigger] p.exporters[b])))
}

/// Edges of kind `e` join the source to each receiver of `p`, and each exporter of `p` to
/// the sink.
pub open spec fn ends_joined(nodes: Seq<NodeView>, edges: Seq<(usize, usize, PipelineEdge)>, p: PipelineConfigView, e: PipelineEdge) -> bool {
    &&& forall|a: int| 0 <= a < p.receivers.len() ==> edges.contains((0usize, receiver_at(nodes, #[trigger] p.receivers[a]), e))
    &&& forall|b: int| 0 <= b < p.exporters.len() ==> edges.contains((exporter_at(nodes, #[trigger] p.exporters[b]), 1usize, e))
}

/// Edges of kind `e` join the services of `p`: each receiver to each exporter where it has
/// no processors, and otherwise each receiver to the first processor, each processor to the
/// next and the last to each exporter.
pub open spec fn services_joined(nodes: Seq<NodeView>, edges: Seq<(usize, usize, PipelineEdge)>, p: PipelineConfigView, e: PipelineEdge) -> bool {
    &&& p.processors.len() == 0 ==> forall|a: int, b: int|
        0 <= a < p.receivers.len() && 0 <= b < p.exporters.len() ==> edges.contains(
            (receiver_at(nodes, #[trigger] p.receivers[a]), exporter_at(nodes, #[trigger] p.exporters[b]), e),
        )
    &&& p.processors.len() > 0 ==> forall|a: int|
        0 <= a < p.receivers.len() ==> edges.contains((receiver_at(nodes, #[trigger] p.receivers[a]), processor_at(nodes, p.processors[0]), e))
    &&& p.processors.len() > 0 ==> forall|i: int|
        0 <= i < p.processors.len() - 1 ==> edges.contains(
            (processor_at(nodes, #[trigger] p.processors[i]), processor_at(nodes, p.processors[i + 1]), e),
        )
    &&& p.processors.len() > 0 ==> forall|b: int|
        0 <= b < p.exporters.len() ==> edges.contains(
            (processor_at(nodes, p.processors.last()), exporter_at(nodes, #[trigger] p.exporters[b]), e),
        )
}

/// The pipeline `p` carries its data through the graph of `nodes` and `edges`: its
/// services are nodes, and edges of kind `e` join the source to each of its receivers,
/// each receiver to each exporter where it has no processors, and otherwise each receiver
/// to the first processor, each processor to the next and the last to each exporter, and
/// each exporter to the sink.
pub open spec fn pipeline_connected(
    nodes: Seq<NodeView>,
    edges: Seq<(usize, usize, PipelineEdge)>,
    p: PipelineConfigView,
    e: PipelineEdge,
) -> bool {
    &&& services_present(nodes, p)
    &&& ends_joined(nodes, edges, p, e)
    &&& services_joined(nodes, edges, p, e)
}

/// Positions of the services of `p` stay where they were when nodes are added after.
proof fn lemma_service_positions_stay(n0: Seq<NodeView>, nodes: Seq<NodeView>, p: PipelineConfigView)
    requires
        services_present(n0, p),
        is_prefix(n0, nodes),
    ensures
        services_present(nodes, p),
        forall|a: int| 0 <= a < p.receivers.len() ==> #[trigger] receiver_at(nodes, p.receivers[a]) == receiver_at(n0, p.receivers[a]),
        forall|i: int| 0 <= i < p.processors.len() ==> #[trigger] processor_at(nodes, p.processors[i]) == processor_at(n0, p.processors[i]),
        forall|b: int| 0 <= b < p.exporters.len() ==> #[trigger] exporter_at(nodes, p.exporters[b]) == exporter_at(n0, p.exporters[b]),
{
    assert forall|a: int| 0 <= a < p.receivers.len() implies #[trigger] receiver_at(nodes, p.receivers[a]) == receiver_at(n0, p.receivers[a])
        && nodes.contains(NodeView::Service(ServiceIdView::Receiver(p.receivers[a]))) by {
        lemma_position_prefix(n0, nodes, NodeView::Service(ServiceIdView::Receiver(p.receivers[a])));
    }
    assert forall|i: int| 0 <= i < p.processors.len() implies #[trigger] processor_at(nodes, p.processors[i]) == processor_at(n0, p.processors[i])
        && nodes.contains(NodeView::Service(ServiceIdView::Processor(p.processors[i]))) by {
        lemma_position_prefix(n0, nodes, NodeView::Service(ServiceIdView::Processor(p.processors[i])));
    }
    assert forall|b: int| 0 <= b < p.exporters.len() implies #[trigger] exporter_at(nodes, p.exporters[b]) == exporter_at(n0, p.exporters[b])
        && nodes.contains(NodeView::Service(ServiceIdView::Exporter(p.exporters[b]))) by {
        lemma_position_prefix(n0, nodes, NodeView::Service(ServiceIdView::Exporter(p.exporters[b])));
    }
}

/// A pipeline connected in a graph stays connected when nodes and edges are added after.
proof fn lemma_connected_grows(
    n0: Seq<NodeView>,
    e0: Seq<(usize, usize, PipelineEdge)>,
    nodes: Seq<NodeView>,
    edges: Seq<(usize, usize, PipelineEdge)>,
    p: PipelineConfigView,
    e: PipelineEdge,
)
    requires
        pipeline_connected(n0, e0, p, e),
        is_prefix(n0, nodes),
        is_prefix(e0, edges),
    ensures
        pipeline_connected(nodes, edges, p, e),
{
    lemma_service_positions_stay(n0, nodes, p);
    assert forall|a: int| 0 <= a < p.receivers.len() implies edges.contains((0usize, receiver_at(nodes, #[trigger] p.receivers[a]), e)) by {
        lemma_prefix_holds(e0, edges, (0usize, receiver_at(n0, p.receivers[a]), e));
    }
    assert forall|b: int| 0 <= b < p.exporters.len() implies edges.contains((exporter_at(nodes, #[trigger] p.exporters[b]), 1usize, e)) by {
        lemma_prefix_holds(e0, edges, (exporter_at(n0, p.exporters[b]), 1usize, e));
    }
    if p.processors.len() == 0 {
        assert forall|a: int, b: int| 0 <= a < p.receivers.len() && 0 <= b < p.exporters.len() implies edges.contains(
            (receiver_at(nodes, #[trigger] p.receivers[a]), exporter_at(nodes, #[trigger] p.exporters[b]), e),
        ) by {
            lemma_prefix_holds(e0, edges, (receiver_at(n0, p.receivers[a]), exporter_at(n0, p.exporters[b]), e));
        }
    } else {
        let first = processor_at(n0, p.processors[0]);
        let last = processor_at(n0, p.processors[p.processors.len() - 1]);
        assert(processor_at(nodes, p.processors[0]) == first);
        assert(processor_at(nodes, p.processors[p.processors.len() - 1]) == last);
        assert forall|a: int| 0 <= a < p.receivers.len() implies edges.contains(
            (receiver_at(nodes, #[trigger] p.receivers[a]), processor_at(nodes, p.processors[0]), e),
        ) by {
            lemma_prefix_holds(e0, edges, (receiver_at(n0, p.receivers[a]), first, e));
        }
        assert forall|i: int| 0 <= i < p.processors.len() - 1 implies edges.contains(
            (processor_at(nodes, #[trigger] p.processors[i]), processor_at(nodes, p.processors[i + 1]), e),
        ) by {
            assert(processor_at(nodes, p.processors[i + 1]) == processor_at(n0, p.processors[i + 1]));
            lemma_prefix_holds(e0, edges, (processor_at(n0, p.processors[i]), processor_at(n0, p.processors[i + 1]), e));
        }
        assert forall|b: int| 0 <= b < p.exporters.len() implies edges.contains(
            (processor_at(nodes, p.processors.last()), exporter_at(nodes, #[trigger] p.exporters[b]), e),
        ) by {
            lemma_prefix_holds(e0, edges, (last, exporter_at(n0, p.exporters[b]), e));
        }
    }
}

/// A pipeline whose edges are among the graph's, with its services at the positions the
/// edges were drawn from, is connected in the graph.
proof fn lemma_connected_from_edges(
    nodes: Seq<NodeView>,
    edges: Seq<(usize, usize, PipelineEdge)>,
    p: PipelineConfigView,
    e: PipelineEdge,
    rs: Seq<usize>,
    ps: Seq<usize>,
    xs: Seq<usize>,
)
    requires
        services_present(nodes, p),
        rs.len() == p.receivers.len(),
        ps.len() == p.processors.len(),
        xs.len() == p.exporters.len(),
        forall|a: int| 0 <= a < rs.len() ==> #[trigger] rs[a] == receiver_at(nodes, p.receivers[a]),
        forall|i: int| 0 <= i < ps.len() ==> #[trigger] ps[i] == processor_at(nodes, p.processors[i]),
        forall|b: int| 0 <= b < xs.len() ==> #[trigger] xs[b] == exporter_at(nodes, p.exporters[b]),
        forall|x: (usize, usize, PipelineEdge)| pipeline_edges(e, rs, ps, xs).contains(x) ==> #[trigger] edges.contains(x),
    ensures
        pipeline_connected(nodes, edges, p, e),
{
    lemma_pipeline_edges_hold(e, rs, ps, xs);
    let pe = pipeline_edges(e, rs, ps, xs);
    assert forall|a: int| 0 <= a < p.receivers.len() implies edges.contains((0usize, receiver_at(nodes, #[trigger] p.receivers[a]), e)) by {
        assert(pe.contains((0usize, rs[a], e)));
    }
    assert forall|b: int| 0 <= b < p.exporters.len() implies edges.contains((exporter_at(nodes, #[trigger] p.exporters[b]), 1usize, e)) by {
        assert(pe.contains((xs[b], 1usize, e)));
    }
    if p.processors.len() == 0 {
        assert forall|a: int, b: int| 0 <= a < p.receivers.len() && 0 <= b < p.exporters.len() implies edges.contains(
            (receiver_at(nodes, #[trigger] p.receivers[a]), exporter_at(nodes, #[trigger] p.exporters[b]), e),
        ) by {
            assert(pe.contains((rs[a], xs[b], e)));
        }
    } else {
        assert(ps[0] == processor_at(nodes, p.processors[0]));
        assert(ps[ps.len() - 1] == processor_at(nodes, p.processors[p.processors.len() - 1]));
        assert forall|a: int| 0 <= a < p.receivers.len() implies edges.contains(
            (receiver_at(nodes, #[trigger] p.receivers[a]), processor_at(nodes, p.processors[0]), e),
        ) by {
            assert(pe.contains((rs[a], ps[0], e)));
        }
        assert forall|i: int| 0 <= i < p.processors.len() - 1 implies edges.contains(
            (processor_at(nodes, #[trigger] p.processors[i]), processor_at(nodes, p.processors[i + 1]), e),
        ) by {
            assert(pe.contains((ps[i], ps[i + 1], e)));
            assert(ps[i + 1] == processor_at(nodes, p.processors[i + 1]));
        }
        assert forall|b: int| 0 <= b < p.exporters.len() implies edges.contains(
            (processor_at(nodes, p.processors.last()), exporter_at(nodes, #[trigger] p.exporters[b]), e),
        ) by {
            assert(pe.contains((ps.last(), xs[b], e)));
        }
    }
}

/// The last pipeline, where the graph keeps it, is connected in the graph.
proof fn lemma_last_connected(pipelines: Seq<(Seq<char>, PipelineConfigView)>, e: PipelineEdge)
    requires
        pipelines.len() > 0,
        pipeline_kind(pipelines.last().0) == Some(e),
        pipelines.last().1.receivers.len() > 0,
        pipelines.last().1.exporters.len() > 0,
    ensures
        pipeline_connected(graph_spec(pipelines).0, graph_spec(pipelines).1, pipelines.last().1, e),
{
    let nodes = graph_spec(pipelines).0;
    let edges = graph_spec(pipelines).1;
    let p = pipelines.last().1;
    let (n0, e0) = graph_spec(pipelines.drop_last());
    let rn = receiver_nodes(p.receivers);
    let pn = processor_nodes(p.processors);
    let xn = exporter_nodes(p.exporters);
    lemma_with_nodes(n0, rn);
    lemma_with_nodes(with_nodes(n0, rn), pn);
    lemma_with_nodes(with_nodes(with_nodes(n0, rn), pn), xn);
    let n1 = with_nodes(n0, rn);
    let n2 = with_nodes(n1, pn);
    assert(nodes == with_nodes(n2, xn));
    let rs = positions(nodes, rn);
    let ps = positions(nodes, pn);
    let xs = positions(nodes, xn);
    let pe = pipeline_edges(e, rs, ps, xs);
    assert(edges == e0 + pe);
    assert forall|x: (usize, usize, PipelineEdge)| pe.contains(x) implies #[trigger] edges.contains(x) by {
        lemma_concat_holds(e0, pe, x);
    }
    lemma_prefix_trans(n1, n2, nodes);
    assert forall|a: int| 0 <= a < p.receivers.len() implies nodes.contains(NodeView::Service(ServiceIdView::Receiver(#[trigger] p.receivers[a]))) by {
        assert(rn[a] == NodeView::Service(ServiceIdView::Receiver(p.receivers[a])));
        lemma_prefix_contains(n1, nodes, rn[a]);
    }
    assert forall|i: int| 0 <= i < p.processors.len() implies nodes.contains(NodeView::Service(ServiceIdView::Processor(#[trigger] p.processors[i]))) by {
        assert(pn[i] == NodeView::Service(ServiceIdView::Processor(p.processors[i])));
        lemma_prefix_contains(n2, nodes, pn[i]);
    }
    assert forall|b: int| 0 <= b < p.exporters.len() implies nodes.contains(NodeView::Service(ServiceIdView::Exporter(#[trigger] p.exporters[b]))) by {
        assert(xn[b] == NodeView::Service(ServiceIdView::Exporter(p.exporters[b])));
    }
    assert forall|a: int| 0 <= a < rs.len() implies #[trigger] rs[a] == receiver_at(nodes, p.receivers[a]) by {
        assert(rn[a] == NodeView::Service(ServiceIdView::Receiver(p.receivers[a])));
    }
    assert forall|i: int| 0 <= i < ps.len() implies #[trigger] ps[i] == processor_at(nodes, p.processors[i]) by {
        assert(pn[i] == NodeView::Service(ServiceIdView::Processor(p.processors[i])));
    }
    assert forall|b: int| 0 <= b < xs.len() implies #[trigger] xs[b] == exporter_at(nodes, p.exporters[b]) by {
        assert(xn[b] == NodeView::Service(ServiceIdView::Exporter(p.exporters[b])));
    }
    lemma_connected_from_edges(nodes, edges, p, e, rs, ps, xs);
}

/// Each pipeline that the graph keeps (of a known kind, with receivers and exporters)
/// carries its data through the graph, whatever the pipelines around it: its services are
/// nodes of the graph, and edges of its kind join the source to each of its receivers,
/// each receiver to each exporter where it has no processors, and otherwise each receiver
/// to the first processor, each processor to the next and the last to each exporter, and
/// each exporter to the sink.
pub proof fn kept_pipelines_are_connected(pipelines: Seq<(Seq<char>, PipelineConfigView)>, j: int, e: PipelineEdge)
    requires
        0 <= j < pipelines.len(),
        pipeline_kind(pipelines[j].0) == Some(e),
        pipelines[j].1.receivers.len() > 0,
        pipelines[j].1.exporters.len() > 0,
    ensures
        pipeline_connected(graph_spec(pipelines).0, graph_spec(pipelines).1, pipelines[j].1, e),
    decreases pipelines.len(),
{
    if j == pipelines.len() - 1 {
        lemma_last_connected(pipelines, e);
    } else {
        let prev = pipelines.drop_last();
        assert(prev[j] == pipelines[j]);
        kept_pipelines_are_connected(prev, j, e);
        lemma_graph_step(pipelines);
        lemma_connected_grows(graph_spec(prev).0, graph_spec(prev).1, graph_spec(pipelines).0, graph_spec(pipelines).1, pipelines[j].1, e);
    }
}

} // verus!

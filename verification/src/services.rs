//! Which services the pipelines need, in which order, and with which raw settings; and the
//! assembly of the pipelines from a configuration.
use vstd::prelude::*;
use crate::config::{Config, PipelineConfigView, entry_keys, entry_position, remove_entry, strings_view};
use crate::pipeline::{
    NodeView, PipelineGraph, PipelineNode, ServiceError, ServiceIdView, ServiceIdentifier, ServiceKind,
    build_pipeline_graph, exporter_nodes, graph_edges, graph_fits, graph_node_count, graph_node_weight, graph_nodes,
    graph_spec, lemma_cross_len, lemma_graph_step, lemma_prefix_contains, lemma_prefix_trans, lemma_with_nodes,
    pipeline_edge_kind, pipeline_edges, pipeline_kind, pipelines_view, positions, processor_nodes, receiver_nodes,
    service_id, service_name, with_nodes,
};

verus! {

/// The identifiers, as their views.
pub open spec fn ids_view(ids: Seq<ServiceIdentifier>) -> Seq<ServiceIdView> {
    ids.map_values(|x: ServiceIdentifier| x@)
}

/// Whether a pipeline adds edges to the graph: it is of a known kind and has receivers and
/// exporters.
pub open spec fn pipeline_accepted(p: (Seq<char>, PipelineConfigView)) -> bool {
    &&& pipeline_kind(p.0) is Some
    &&& p.1.receivers.len() > 0
    &&& p.1.exporters.len() > 0
}

/// The services a pipeline names: its receivers, then its processors, then its exporters.
pub open spec fn pipeline_services(p: PipelineConfigView) -> Seq<ServiceIdView> {
    p.receivers.map_values(|id: Seq<char>| ServiceIdView::Receiver(id)) + p.processors.map_values(
        |id: Seq<char>| ServiceIdView::Processor(id),
    ) + p.exporters.map_values(|id: Seq<char>| ServiceIdView::Exporter(id))
}

/// The services the accepted pipelines name, pipeline after pipeline.
pub open spec fn pipeline_requests(pipelines: Seq<(Seq<char>, PipelineConfigView)>) -> Seq<ServiceIdView>
    decreases pipelines.len(),
{
    if pipelines.len() == 0 {
        Seq::empty()
    } else {
        let rest = pipeline_requests(pipelines.drop_last());
        if pipeline_accepted(pipelines.last()) {
            rest + pipeline_services(pipelines.last().1)
        } else {
            rest
        }
    }
}

/// The first position, from `from` on, of a service that was not built yet; the number of
/// requests if there is none.
pub open spec fn next_unbuilt(reqs: Seq<ServiceIdView>, built: Seq<ServiceIdView>, from: int) -> int
    decreases reqs.len() - from,
{
    if from >= reqs.len() {
        reqs.len() as int
    } else if built.contains(reqs[from]) {
        next_unbuilt(reqs, built, from + 1)
    } else {
        from
    }
}

/// Whether `entries` hold the raw settings of the service `id`.
pub open spec fn has_entry(entries: Seq<(String, serde_yaml::Value)>, id: Seq<char>) -> bool {
    entry_position(entry_keys(entries), id) is Some
}

/// The first position of a key is a position of that key, and there is one exactly when
/// the key occurs.
pub proof fn lemma_entry_position(keys: Seq<Seq<char>>, key: Seq<char>)
    ensures
        entry_position(keys, key) matches Some(i) ==> 0 <= i < keys.len() && keys[i] == key,
        (entry_position(keys, key) is Some) <==> keys.contains(key),
    decreases keys.len(),
{
    if keys.len() > 0 && keys[0] != key {
        lemma_entry_position(keys.drop_first(), key);
        if keys.contains(key) {
            let j = choose|j: int| 0 <= j < keys.len() && keys[j] == key;
            assert(keys.drop_first()[j - 1] == key);
        }
        if keys.drop_first().contains(key) {
            let j = choose|j: int| 0 <= j < keys.drop_first().len() && keys.drop_first()[j] == key;
            assert(keys[j + 1] == key);
        }
    }
    if keys.len() > 0 && keys[0] == key {
        assert(keys.contains(key));
    }
}

/// Taking out the entry at `i` keeps the settings of every other service.
pub proof fn lemma_entry_kept(entries: Seq<(String, serde_yaml::Value)>, i: int, key: Seq<char>)
    requires
        0 <= i < entries.len(),
        entries[i].0@ != key,
        has_entry(entries, key),
    ensures
        has_entry(entries.remove(i), key),
{
    let keys = entry_keys(entries);
    lemma_entry_position(keys, key);
    let j = choose|j: int| 0 <= j < keys.len() && keys[j] == key;
    assert(entry_keys(entries.remove(i)) =~= keys.remove(i));
    if j < i {
        assert(keys.remove(i)[j] == key);
    } else {
        assert(j != i);
        assert(keys.remove(i)[j - 1] == key);
    }
    lemma_entry_position(keys.remove(i), key);
}

/// Whether `id` is among `ids`.
pub fn contains_id(ids: &Vec<ServiceIdentifier>, id: &ServiceIdentifier) -> (r: bool)
    ensures
        r == ids_view(ids@).contains(id@),
{
    let mut i: usize = 0;
    while i < ids.len()
        invariant
            i <= ids@.len(),
            forall|j: int| 0 <= j < i ==> ids_view(ids@)[j] != id@,
        decreases ids@.len() - i,
    {
        if ids[i].same(id) {
            assert(ids_view(ids@)[i as int] == id@);
            return true;
        }
        i = i + 1;
    }
    false
}

/// What to build next: a service, the name of what it is, and its raw settings.
#[derive(Debug)]
pub struct ServiceRequest {
    pub unique_id: ServiceIdentifier,
    pub service: String,
    pub raw_config: serde_yaml::Value,
}

/// The services still to build, in order, with the raw settings not handed out yet and
/// the services built so far.
#[derive(Debug)]
pub struct ServicePlan {
    pub requests: Vec<ServiceIdentifier>,
    pub next: usize,
    pub receivers: Vec<(String, serde_yaml::Value)>,
    pub processors: Vec<(String, serde_yaml::Value)>,
    pub exporters: Vec<(String, serde_yaml::Value)>,
    pub built: Vec<ServiceIdentifier>,
}

impl ServicePlan {
    /// The raw settings not handed out yet of services of a kind.
    pub open spec fn entries(self, kind: ServiceKind) -> Seq<(String, serde_yaml::Value)> {
        match kind {
            ServiceKind::Receiver => self.receivers@,
            ServiceKind::Processor => self.processors@,
            ServiceKind::Exporter => self.exporters@,
        }
    }

    /// The requests, as their views.
    pub open spec fn requests_view(self) -> Seq<ServiceIdView> {
        ids_view(self.requests@)
    }

    /// The services built so far, as their views.
    pub open spec fn built_view(self) -> Seq<ServiceIdView> {
        ids_view(self.built@)
    }

    /// The position of the next request is within the requests.
    pub open spec fn wf(self) -> bool {
        self.next <= self.requests@.len()
    }

    /// The plan for the services that the accepted pipelines of a configuration name, with
    /// the raw settings of the configuration and nothing built.
    pub fn new(config: Config) -> (r: ServicePlan)
        ensures
            r.wf(),
            r.next == 0,
            r.requests_view() == pipeline_requests(pipelines_view(config)),
            r.receivers@ == config.receivers.receivers@,
            r.processors@ == config.processors.processors@,
            r.exporters@ == config.exporters.exporters@,
            r.built@.len() == 0,
    {
        let ghost pv = pipelines_view(config);
        let Config { receivers, processors, exporters, service } = config;
        let pipelines = service.pipelines.pipelines;
        let mut requests: Vec<ServiceIdentifier> = Vec::new();
        let mut k: usize = 0;
        assert(pv.take(0) =~= Seq::<(Seq<char>, PipelineConfigView)>::empty());
        while k < pipelines.len()
            invariant
                k <= pipelines@.len(),
                pv.len() == pipelines@.len(),
                forall|j: int| 0 <= j < pv.len() ==> #[trigger] pv[j] == (pipelines@[j].0@, pipelines@[j].1@),
                ids_view(requests@) == pipeline_requests(pv.take(k as int)),
            decreases pipelines@.len() - k,
        {
            let pipeline_id = &pipelines[k].0;
            let pipeline = &pipelines[k].1;
            let ghost p = pv[k as int];
            proof {
                assert(pv.take(k + 1).drop_last() =~= pv.take(k as int));
                assert(pv.take(k + 1).last() == p);
            }
            let accepted = match pipeline_edge_kind(pipeline_id.as_str()) {
                Some(_) => pipeline.receivers.len() > 0 && pipeline.exporters.len() > 0,
                None => false,
            };
            if accepted {
                let ghost before = ids_view(requests@);
                let mut i: usize = 0;
                while i < pipeline.receivers.len()
                    invariant
                        i <= pipeline.receivers@.len(),
                        ids_view(requests@) == before + strings_view(pipeline.receivers@).take(i as int).map_values(
                            |id: Seq<char>| ServiceIdView::Receiver(id),
                        ),
                    decreases pipeline.receivers@.len() - i,
                {
                    let ghost prev = requests@;
                    requests.push(ServiceIdentifier::Receiver(pipeline.receivers[i].clone()));
                    assert(ids_view(requests@) =~= ids_view(prev).push(ServiceIdView::Receiver(pipeline.receivers@[i as int]@)));
                    assert(strings_view(pipeline.receivers@).take(i + 1).map_values(|id: Seq<char>| ServiceIdView::Receiver(id))
                        =~= strings_view(pipeline.receivers@).take(i as int).map_values(|id: Seq<char>| ServiceIdView::Receiver(id)).push(
                        ServiceIdView::Receiver(pipeline.receivers@[i as int]@)));
                    assert(strings_view(pipeline.receivers@).take(i + 1) =~= strings_view(pipeline.receivers@).take(
                        i as int,
                    ).push(pipeline.receivers@[i as int]@));
                    i = i + 1;
                }
                assert(strings_view(pipeline.receivers@).take(i as int) =~= strings_view(pipeline.receivers@));
                let ghost before = ids_view(requests@);
                let mut i: usize = 0;
                while i < pipeline.processors.len()
                    invariant
                        i <= pipeline.processors@.len(),
                        ids_view(requests@) == before + strings_view(pipeline.processors@).take(
                            i as int,
                        ).map_values(|id: Seq<char>| ServiceIdView::Processor(id)),
                    decreases pipeline.processors@.len() - i,
                {
                    let ghost prev = requests@;
                    requests.push(ServiceIdentifier::Processor(pipeline.processors[i].clone()));
                    assert(ids_view(requests@) =~= ids_view(prev).push(ServiceIdView::Processor(pipeline.processors@[i as int]@)));
                    assert(strings_view(pipeline.processors@).take(i + 1).map_values(|id: Seq<char>| ServiceIdView::Processor(id))
                        =~= strings_view(pipeline.processors@).take(i as int).map_values(|id: Seq<char>| ServiceIdView::Processor(id)).push(
                        ServiceIdView::Processor(pipeline.processors@[i as int]@)));
                    assert(strings_view(pipeline.processors@).take(i + 1) =~= strings_view(
                        pipeline.processors@,
                    ).take(i as int).push(pipeline.processors@[i as int]@));
                    i = i + 1;
                }
                assert(strings_view(pipeline.processors@).take(i as int) =~= strings_view(pipeline.processors@));
                let ghost before = ids_view(requests@);
                let mut i: usize = 0;
                while i < pipeline.exporters.len()
                    invariant
                        i <= pipeline.exporters@.len(),
                        ids_view(requests@) == before + strings_view(pipeline.exporters@).take(i as int).map_values(
                            |id: Seq<char>| ServiceIdView::Exporter(id),
                        ),
                    decreases pipeline.exporters@.len() - i,
                {
                    let ghost prev = requests@;
                    requests.push(ServiceIdentifier::Exporter(pipeline.exporters[i].clone()));
                    assert(ids_view(requests@) =~= ids_view(prev).push(ServiceIdView::Exporter(pipeline.exporters@[i as int]@)));
                    assert(strings_view(pipeline.exporters@).take(i + 1).map_values(|id: Seq<char>| ServiceIdView::Exporter(id))
                        =~= strings_view(pipeline.exporters@).take(i as int).map_values(|id: Seq<char>| ServiceIdView::Exporter(id)).push(
                        ServiceIdView::Exporter(pipeline.exporters@[i as int]@)));
                    assert(strings_view(pipeline.exporters@).take(i + 1) =~= strings_view(pipeline.exporters@).take(
                        i as int,
                    ).push(pipeline.exporters@[i as int]@));
                    i = i + 1;
                }
                assert(strings_view(pipeline.exporters@).take(i as int) =~= strings_view(pipeline.exporters@));
                assert(ids_view(requests@) =~= pipeline_requests(pv.take(k as int)) + pipeline_services(p.1));
            }
            k = k + 1;
        }
        assert(pv.take(k as int) =~= pv);
        let r = ServicePlan { requests, next: 0, receivers: receivers.receivers, processors: processors.processors, exporters: exporters.exporters, built: Vec::new() };
        r
    }
    /// Moves to the next request whose service was not built yet, takes its raw settings
    /// out of the configuration and hands it out; a service whose settings are missing is
    /// an error. `None` once every request was handed out.
    pub fn next_request(&mut self) -> (r: Option<Result<ServiceRequest, ServiceError>>)
        requires
            old(self).wf(),
        ensures
            final(self).wf(),
            final(self).requests == old(self).requests,
            final(self).built == old(self).built,
            ({
                let k = next_unbuilt(old(self).requests_view(), old(self).built_view(), old(self).next as int);
                if k >= old(self).requests@.len() {
                    &&& r is None
                    &&& final(self).next == old(self).requests@.len()
                    &&& forall|kd: ServiceKind| #[trigger] final(self).entries(kd) == old(self).entries(kd)
                } else {
                    let id = old(self).requests_view()[k];
                    let entries = old(self).entries(id.kind());
                    &&& final(self).next == k + 1
                    &&& forall|kd: ServiceKind| kd != id.kind() ==> #[trigger] final(self).entries(kd) == old(self).entries(kd)
                    &&& match entry_position(entry_keys(entries), id.id()) {
                        Some(i) => {
                            &&& r matches Some(Ok(req))
                            &&& req.unique_id@ == id
                            &&& req.service@ == service_name(id.id())
                            &&& req.raw_config == entries[i].1
                            &&& final(self).entries(id.kind()) == entries.remove(i)
                        },
                        None => {
                            &&& r matches Some(Err(ServiceError::MissingService { kind, id: missing }))
                            &&& kind == id.kind()
                            &&& missing@ == id.id()
                            &&& final(self).entries(id.kind()) == entries
                        },
                    }
                }
            }),
    {
        let ghost k = next_unbuilt(self.requests_view(), self.built_view(), self.next as int);
        loop
            invariant
                self.wf(),
                self.requests == old(self).requests,
                self.built == old(self).built,
                self.receivers == old(self).receivers,
                self.processors == old(self).processors,
                self.exporters == old(self).exporters,
                k == next_unbuilt(self.requests_view(), self.built_view(), self.next as int),
            ensures
                self.wf(),
                self.requests == old(self).requests,
                self.built == old(self).built,
                self.receivers == old(self).receivers,
                self.processors == old(self).processors,
                self.exporters == old(self).exporters,
                k == self.next || (k == self.requests@.len() && self.next == k),
            decreases self.requests@.len() - self.next,
        {
            if self.next >= self.requests.len() {
                break;
            }
            if !contains_id(&self.built, &self.requests[self.next]) {
                break;
            }
            self.next = self.next + 1;
        }
        if self.next >= self.requests.len() {
            return None;
        }
        let id = self.requests[self.next].duplicate();
        self.next = self.next + 1;
        let service = match service_id(id.id()) {
            Some(s) => s,
            None => {
                return Some(Err(ServiceError::InvalidFormat { kind: id.kind(), id: String::from_str(id.id()) }));
            },
        };
        let raw_config = match &id {
            ServiceIdentifier::Receiver(rid) => remove_entry(&mut self.receivers, rid.as_str()),
            ServiceIdentifier::Processor(pid) => remove_entry(&mut self.processors, pid.as_str()),
            ServiceIdentifier::Exporter(xid) => remove_entry(&mut self.exporters, xid.as_str()),
        };
        match raw_config {
            Some(raw_config) => Some(Ok(ServiceRequest { unique_id: id, service, raw_config })),
            None => Some(Err(ServiceError::MissingService { kind: id.kind(), id: String::from_str(id.id()) })),
        }
    }

    /// Records that the service was built.
    pub fn record_built(&mut self, id: ServiceIdentifier)
        ensures
            final(self).built@ == old(self).built@.push(id),
            final(self).requests == old(self).requests,
            final(self).next == old(self).next,
            final(self).receivers == old(self).receivers,
            final(self).processors == old(self).processors,
            final(self).exporters == old(self).exporters,
    {
        self.built.push(id);
    }
}

/// Every service that the accepted pipelines name is a node of their graph, so each
/// service built for the pipelines has its place in the graph.
pub proof fn requested_services_are_nodes(pipelines: Seq<(Seq<char>, PipelineConfigView)>)
    ensures
        forall|i: int|
            0 <= i < pipeline_requests(pipelines).len() ==> graph_spec(pipelines).0.contains(
                NodeView::Service(#[trigger] pipeline_requests(pipelines)[i]),
            ),
    decreases pipelines.len(),
{
    if pipelines.len() > 0 {
        let prev = pipelines.drop_last();
        requested_services_are_nodes(prev);
        lemma_graph_step(pipelines);
        let old_nodes = graph_spec(prev).0;
        let nodes = graph_spec(pipelines).0;
        let old_reqs = pipeline_requests(prev);
        let reqs = pipeline_requests(pipelines);
        let p = pipelines.last();
        assert forall|i: int| 0 <= i < old_reqs.len() implies nodes.contains(NodeView::Service(#[trigger] old_reqs[i])) by {
            lemma_prefix_contains(old_nodes, nodes, NodeView::Service(old_reqs[i]));
        }
        if pipeline_accepted(p) {
            let rn = receiver_nodes(p.1.receivers);
            let pn = processor_nodes(p.1.processors);
            let xn = exporter_nodes(p.1.exporters);
            let n1 = with_nodes(old_nodes, rn);
            let n2 = with_nodes(n1, pn);
            let n3 = with_nodes(n2, xn);
            lemma_with_nodes(old_nodes, rn);
            lemma_with_nodes(n1, pn);
            lemma_with_nodes(n2, xn);
            lemma_prefix_trans(n1, n2, n3);
            assert(nodes == n3);
            let rs = p.1.receivers.map_values(|id: Seq<char>| ServiceIdView::Receiver(id));
            let ps = p.1.processors.map_values(|id: Seq<char>| ServiceIdView::Processor(id));
            let xs = p.1.exporters.map_values(|id: Seq<char>| ServiceIdView::Exporter(id));
            assert(reqs == old_reqs + (rs + ps + xs));
            assert forall|i: int| 0 <= i < reqs.len() implies nodes.contains(NodeView::Service(#[trigger] reqs[i])) by {
                if i < old_reqs.len() {
                    assert(reqs[i] == old_reqs[i]);
                } else {
                    let k = i - old_reqs.len();
                    if k < rs.len() {
                        assert(reqs[i] == rs[k]);
                        assert(NodeView::Service(rs[k]) == rn[k]);
                        lemma_prefix_contains(n1, n3, rn[k]);
                    } else if k < rs.len() + ps.len() {
                        assert(reqs[i] == ps[k - rs.len()]);
                        assert(NodeView::Service(ps[k - rs.len()]) == pn[k - rs.len()]);
                        lemma_prefix_contains(n2, n3, pn[k - rs.len()]);
                    } else {
                        assert(reqs[i] == xs[k - rs.len() - ps.len()]);
                        assert(NodeView::Service(xs[k - rs.len() - ps.len()]) == xn[k - rs.len() - ps.len()]);
                    }
                }
            }
        } else {
            assert(reqs == old_reqs);
        }
    }
}

/// A service that has settings after an entry is taken out had them before.
pub proof fn lemma_entry_from_removed(entries: Seq<(String, serde_yaml::Value)>, i: int, key: Seq<char>)
    requires
        0 <= i < entries.len(),
        has_entry(entries.remove(i), key),
    ensures
        has_entry(entries, key),
{
    let keys = entry_keys(entries);
    assert(entry_keys(entries.remove(i)) =~= keys.remove(i));
    lemma_entry_position(keys.remove(i), key);
    let j = choose|j: int| 0 <= j < keys.remove(i).len() && keys.remove(i)[j] == key;
    if j < i {
        assert(keys[j] == key);
    } else {
        assert(keys[j + 1] == key);
    }
    lemma_entry_position(keys, key);
}

/// The next unbuilt position is the first one from `from` on whose service was not built.
pub proof fn lemma_next_unbuilt(reqs: Seq<ServiceIdView>, built: Seq<ServiceIdView>, from: int)
    requires
        0 <= from <= reqs.len(),
    ensures
        from <= next_unbuilt(reqs, built, from) <= reqs.len(),
        next_unbuilt(reqs, built, from) < reqs.len() ==> !built.contains(reqs[next_unbuilt(reqs, built, from)]),
        forall|j: int| from <= j < next_unbuilt(reqs, built, from) ==> built.contains(#[trigger] reqs[j]),
    decreases reqs.len() - from,
{
    if from < reqs.len() && built.contains(reqs[from]) {
        lemma_next_unbuilt(reqs, built, from + 1);
    }
}

/// The raw settings that a configuration gives for services of a kind.
pub open spec fn config_entries(config: Config, kind: ServiceKind) -> Seq<(String, serde_yaml::Value)> {
    match kind {
        ServiceKind::Receiver => config.receivers.receivers@,
        ServiceKind::Processor => config.processors.processors@,
        ServiceKind::Exporter => config.exporters.exporters@,
    }
}

/// Whether the configuration gives raw settings for each of these services.
pub open spec fn all_configured(config: Config, reqs: Seq<ServiceIdView>) -> bool {
    forall|j: int| 0 <= j < reqs.len() ==> has_entry(config_entries(config, reqs[j].kind()), #[trigger] reqs[j].id())
}

/// The identifier of a service of a kind.
pub open spec fn id_of(kind: ServiceKind, id: Seq<char>) -> ServiceIdView {
    match kind {
        ServiceKind::Receiver => ServiceIdView::Receiver(id),
        ServiceKind::Processor => ServiceIdView::Processor(id),
        ServiceKind::Exporter => ServiceIdView::Exporter(id),
    }
}

/// The identifiers of built services, in the order they were built.
pub open spec fn service_keys<S>(services: Seq<(ServiceIdentifier, S)>) -> Seq<ServiceIdView> {
    services.map_values(|e: (ServiceIdentifier, S)| e.0@)
}

/// The raw settings of receivers, processors and exporters.
pub type EntriesView = (
    Seq<(String, serde_yaml::Value)>,
    Seq<(String, serde_yaml::Value)>,
    Seq<(String, serde_yaml::Value)>,
);

/// The raw settings of the services of a kind.
pub open spec fn entries_of(es: EntriesView, kind: ServiceKind) -> Seq<(String, serde_yaml::Value)> {
    match kind {
        ServiceKind::Receiver => es.0,
        ServiceKind::Processor => es.1,
        ServiceKind::Exporter => es.2,
    }
}

/// The raw settings with those of a kind replaced.
pub open spec fn with_entries(es: EntriesView, kind: ServiceKind, e: Seq<(String, serde_yaml::Value)>) -> EntriesView {
    match kind {
        ServiceKind::Receiver => (e, es.1, es.2),
        ServiceKind::Processor => (es.0, e, es.2),
        ServiceKind::Exporter => (es.0, es.1, e),
    }
}

/// The raw settings that a configuration gives.
pub open spec fn config_entries_all(config: Config) -> EntriesView {
    (config.receivers.receivers@, config.processors.processors@, config.exporters.exporters@)
}

/// What assembling the services does: the builder calls, each with the service, the name
/// of what it is and its raw settings; the services built, in order; and the service whose
/// settings were missing, if one was.
pub struct Assembly {
    pub calls: Seq<(ServiceIdView, Seq<char>, serde_yaml::Value)>,
    pub built: Seq<ServiceIdView>,
    pub missing: Option<(ServiceKind, Seq<char>)>,
}

/// Assembling the services requested from position `i` on, with the raw settings `es`
/// not handed out yet, the services `built` so far, and `oks` saying, call after call,
/// whether the builder built the service: a service built already is skipped; one whose
/// settings are missing stops everything; any other is handed to the builder, with its
/// settings taken out, and counts as built when the builder built it.
pub open spec fn assemble(
    reqs: Seq<ServiceIdView>,
    i: int,
    es: EntriesView,
    built: Seq<ServiceIdView>,
    oks: Seq<bool>,
) -> Assembly
    decreases reqs.len() - i,
{
    if i >= reqs.len() || i < 0 {
        Assembly { calls: Seq::empty(), built, missing: None }
    } else if built.contains(reqs[i]) {
        assemble(reqs, i + 1, es, built, oks)
    } else {
        let r = reqs[i];
        let entries = entries_of(es, r.kind());
        match entry_position(entry_keys(entries), r.id()) {
            None => Assembly { calls: Seq::empty(), built, missing: Some((r.kind(), r.id())) },
            Some(p) => {
                let ok = oks.len() > 0 && oks[0];
                let rest = assemble(
                    reqs,
                    i + 1,
                    with_entries(es, r.kind(), entries.remove(p)),
                    if ok {
                        built.push(r)
                    } else {
                        built
                    },
                    if oks.len() > 0 {
                        oks.drop_first()
                    } else {
                        oks
                    },
                );
                Assembly {
                    calls: seq![(r, service_name(r.id()), entries[p].1)] + rest.calls,
                    built: rest.built,
                    missing: rest.missing,
                }
            },
        }
    }
}

/// A builder that refuses every service it is handed builds none: the assembly adds no
/// service to those built before, and no service is returned.
pub proof fn refused_services_are_left_out<S>(
    reqs: Seq<ServiceIdView>,
    i: int,
    es: EntriesView,
    built: Seq<ServiceIdView>,
    outs: Seq<Result<S, ServiceError>>,
)
    requires
        forall|k: int| 0 <= k < outs.len() ==> #[trigger] outs[k] is Err,
    ensures
        assemble(reqs, i, es, built, oks_of(outs)).built == built,
        ok_values(outs) == Seq::<S>::empty(),
{
    assert(!oks_of(outs).contains(true));
    lemma_refusals_build_nothing(reqs, i, es, built, oks_of(outs));
    lemma_refusals_return_nothing(outs);
}

/// Refusals return no service.
proof fn lemma_refusals_return_nothing<S>(outs: Seq<Result<S, ServiceError>>)
    requires
        forall|k: int| 0 <= k < outs.len() ==> #[trigger] outs[k] is Err,
    ensures
        ok_values(outs) == Seq::<S>::empty(),
    decreases outs.len(),
{
    if outs.len() > 0 {
        assert(outs.last() is Err);
        lemma_refusals_return_nothing(outs.drop_last());
    }
}

/// With every outcome a refusal, the assembly keeps the services built before.
proof fn lemma_refusals_build_nothing(reqs: Seq<ServiceIdView>, i: int, es: EntriesView, built: Seq<ServiceIdView>, oks: Seq<bool>)
    requires
        !oks.contains(true),
    ensures
        assemble(reqs, i, es, built, oks).built == built,
    decreases reqs.len() - i,
{
    if 0 <= i < reqs.len() {
        if built.contains(reqs[i]) {
            lemma_refusals_build_nothing(reqs, i + 1, es, built, oks);
        } else {
            let r = reqs[i];
            let entries = entries_of(es, r.kind());
            match entry_position(entry_keys(entries), r.id()) {
                None => {},
                Some(p) => {
                    let rest = if oks.len() > 0 {
                        oks.drop_first()
                    } else {
                        oks
                    };
                    if oks.len() > 0 {
                        assert(oks[0] == false);
                        if rest.contains(true) {
                            let k = choose|k: int| 0 <= k < rest.len() && rest[k] == true;
                            assert(oks[k + 1] == true);
                        }
                    }
                    lemma_refusals_build_nothing(reqs, i + 1, with_entries(es, r.kind(), entries.remove(p)), built, rest);
                },
            }
        }
    }
}

/// Skipping services built already does not change the assembly.
pub proof fn lemma_assemble_skip(
    reqs: Seq<ServiceIdView>,
    i: int,
    es: EntriesView,
    built: Seq<ServiceIdView>,
    oks: Seq<bool>,
)
    requires
        0 <= i <= reqs.len(),
    ensures
        assemble(reqs, i, es, built, oks) == assemble(reqs, next_unbuilt(reqs, built, i), es, built, oks),
    decreases reqs.len() - i,
{
    if i < reqs.len() && built.contains(reqs[i]) {
        lemma_assemble_skip(reqs, i + 1, es, built, oks);
    }
}

/// Whether each call of a sequence was built: the outcomes that are `Ok`.
pub open spec fn oks_of<S>(outs: Seq<Result<S, ServiceError>>) -> Seq<bool> {
    outs.map_values(|o: Result<S, ServiceError>| o is Ok)
}

/// The services that the builder returned, in order.
pub open spec fn ok_values<S>(outs: Seq<Result<S, ServiceError>>) -> Seq<S>
    decreases outs.len(),
{
    if outs.len() == 0 {
        Seq::empty()
    } else {
        let rest = ok_values(outs.drop_last());
        match outs.last() {
            Ok(v) => rest.push(v),
            Err(_) => rest,
        }
    }
}

/// The built services, without their identifiers.
pub open spec fn service_values<S>(services: Seq<(ServiceIdentifier, S)>) -> Seq<S> {
    services.map_values(|e: (ServiceIdentifier, S)| e.1)
}

/// `out` is what the builder may return when called with the service, the name and the
/// raw settings of `call`.
pub open spec fn built_by<B: ServiceBuilder>(
    call: (ServiceIdView, Seq<char>, serde_yaml::Value),
    out: Result<B::Service, ServiceError>,
) -> bool {
    exists|id: ServiceIdentifier, name: &str|
        #![trigger call_ensures(B::build_service, (&id, name, call.2), out)]
        id@ == call.0 && name@ == call.1 && call_ensures(B::build_service, (&id, name, call.2), out)
}

/// The raw settings that a plan has not handed out yet.
pub open spec fn plan_entries(plan: ServicePlan) -> EntriesView {
    (plan.receivers@, plan.processors@, plan.exporters@)
}

/// `a` is the assembly made of the calls `calls`, followed by the assembly `b`.
pub open spec fn continues(a: Assembly, calls: Seq<(ServiceIdView, Seq<char>, serde_yaml::Value)>, b: Assembly) -> bool {
    &&& a.calls == calls + b.calls
    &&& a.built == b.built
    &&& a.missing == b.missing
}

/// One builder call of the assembly: the next service not built yet has settings at `p`,
/// and the call's outcome is `ok`.
pub proof fn lemma_assemble_call(
    reqs: Seq<ServiceIdView>,
    i: int,
    es: EntriesView,
    built: Seq<ServiceIdView>,
    ok: bool,
    f: Seq<bool>,
)
    requires
        0 <= i <= reqs.len(),
        next_unbuilt(reqs, built, i) < reqs.len(),
        entry_position(
            entry_keys(entries_of(es, reqs[next_unbuilt(reqs, built, i)].kind())),
            reqs[next_unbuilt(reqs, built, i)].id(),
        ) is Some,
    ensures
        ({
            let k = next_unbuilt(reqs, built, i);
            let r = reqs[k];
            let entries = entries_of(es, r.kind());
            let p = entry_position(entry_keys(entries), r.id()).unwrap();
            continues(
                assemble(reqs, i, es, built, seq![ok] + f),
                seq![(r, service_name(r.id()), entries[p].1)],
                assemble(
                    reqs,
                    k + 1,
                    with_entries(es, r.kind(), entries.remove(p)),
                    if ok {
                        built.push(r)
                    } else {
                        built
                    },
                    f,
                ),
            )
        }),
{
    lemma_next_unbuilt(reqs, built, i);
    lemma_assemble_skip(reqs, i, es, built, seq![ok] + f);
    assert((seq![ok] + f).drop_first() =~= f);
    assert((seq![ok] + f)[0] == ok);
}

/// The assembly ends where no service is left to call or a service has no settings.
pub proof fn lemma_assemble_end(reqs: Seq<ServiceIdView>, i: int, es: EntriesView, built: Seq<ServiceIdView>, f: Seq<bool>)
    requires
        0 <= i <= reqs.len(),
        next_unbuilt(reqs, built, i) < reqs.len() ==> entry_position(
            entry_keys(entries_of(es, reqs[next_unbuilt(reqs, built, i)].kind())),
            reqs[next_unbuilt(reqs, built, i)].id(),
        ) is None,
    ensures
        ({
            let k = next_unbuilt(reqs, built, i);
            let a = assemble(reqs, i, es, built, f);
            &&& a.calls == Seq::<(ServiceIdView, Seq<char>, serde_yaml::Value)>::empty()
            &&& a.built == built
            &&& a.missing == if k < reqs.len() {
                Some((reqs[k].kind(), reqs[k].id()))
            } else {
                None::<(ServiceKind, Seq<char>)>
            }
        }),
{
    lemma_next_unbuilt(reqs, built, i);
    lemma_assemble_skip(reqs, i, es, built, f);
}

/// The raw settings after one kind's were replaced.
pub proof fn lemma_plan_entries(before: ServicePlan, after: ServicePlan, kind: ServiceKind, e: Seq<(String, serde_yaml::Value)>)
    requires
        after.entries(kind) == e,
        forall|kd: ServiceKind| kd != kind ==> #[trigger] after.entries(kd) == before.entries(kd),
    ensures
        plan_entries(after) == with_entries(plan_entries(before), kind, e),
{
    assert(after.entries(ServiceKind::Receiver) == after.receivers@);
    assert(after.entries(ServiceKind::Processor) == after.processors@);
    assert(after.entries(ServiceKind::Exporter) == after.exporters@);
}

/// Builds a service from its identifier, the name of what it is and its raw settings.
pub trait ServiceBuilder {
    type Service;

    fn build_service(
        unique_id: &ServiceIdentifier,
        service: &str,
        raw_config: serde_yaml::Value,
    ) -> Result<Self::Service, ServiceError>;
}

/// The services that the pipelines run, by identifier, and the graph that connects them.
#[derive(Debug)]
pub struct Pipelines<S> {
    pub services: Vec<(ServiceIdentifier, S)>,
    pub pipelines: PipelineGraph,
}

impl<S> Pipelines<S> {
    /// Each service is held once, as the keys of a map are.
    pub open spec fn wf(&self) -> bool {
        service_keys(self.services@).no_duplicates()
    }

    /// Builds the graph of the pipelines of the configuration, then, pipeline after pipeline,
    /// each service it names that was not built yet, with the builder: a service whose raw
    /// settings are missing (or were handed out already) fails the whole; one that the
    /// builder refuses is left out. With every named service distinct, the result is `Ok`
    /// exactly when the configuration gives settings for each.
    pub fn from_config<B: ServiceBuilder<Service = S>>(config: Config) -> (r: Result<Pipelines<S>, ServiceError>)
        requires
            graph_fits(config),
        ensures
            ({
                let reqs = pipeline_requests(pipelines_view(config));
                &&& match r {
                    Ok(p) => {
                        &&& graph_nodes(p.pipelines) == graph_spec(pipelines_view(config)).0
                        &&& graph_edges(p.pipelines) == graph_spec(pipelines_view(config)).1
                        &&& p.wf()
                        &&& forall|i: int| 0 <= i < p.services@.len() ==> reqs.contains(#[trigger] service_keys(p.services@)[i])
                    },
                    Err(e) => e matches ServiceError::MissingService { kind, id } && reqs.contains(id_of(kind, id@)),
                }
            }),
            pipeline_requests(pipelines_view(config)).no_duplicates() ==> (r is Ok <==> all_configured(
                config,
                pipeline_requests(pipelines_view(config)),
            )),
            exists|outs: Seq<Result<S, ServiceError>>|
                #![trigger oks_of(outs)]
                ({
                    let a = assemble(
                        pipeline_requests(pipelines_view(config)),
                        0,
                        config_entries_all(config),
                        Seq::<ServiceIdView>::empty(),
                        oks_of(outs),
                    );
                    &&& outs.len() == a.calls.len()
                    &&& forall|k: int| 0 <= k < outs.len() ==> built_by::<B>(#[trigger] a.calls[k], outs[k])
                    &&& match r {
                        Ok(p) => {
                            &&& a.missing is None
                            &&& service_keys(p.services@) == a.built
                            &&& service_values(p.services@) == ok_values(outs)
                        },
                        Err(e) => a.missing matches Some((kind, id)) && e matches ServiceError::MissingService {
                            kind: k2,
                            id: i2,
                        } && k2 == kind && i2@ == id,
                    }
                }),
    {
        let ghost reqs = pipeline_requests(pipelines_view(config));
        let ghost cfg = config;
        let ghost es0 = config_entries_all(config);
        let (graph, _source) = build_pipeline_graph(&config);
        let mut plan = ServicePlan::new(config);
        let mut services: Vec<(ServiceIdentifier, S)> = Vec::new();
        let ghost mut outs: Seq<Result<S, ServiceError>> = Seq::empty();
        let ghost mut calls: Seq<(ServiceIdView, Seq<char>, serde_yaml::Value)> = Seq::empty();
        assert(service_keys(services@) =~= plan.built_view());
        assert(service_values(services@) =~= ok_values(outs));
        assert(plan_entries(plan) == es0);
        assert forall|f: Seq<bool>|
            continues(
                #[trigger] assemble(reqs, 0, es0, Seq::<ServiceIdView>::empty(), oks_of(outs) + f),
                calls,
                assemble(reqs, plan.next as int, plan_entries(plan), plan.built_view(), f),
            ) by {
            assert(oks_of(outs) + f =~= f);
            assert(plan.built_view() =~= Seq::<ServiceIdView>::empty());
            let b = assemble(reqs, plan.next as int, plan_entries(plan), plan.built_view(), f);
            assert(calls + b.calls =~= b.calls);
        }
        loop
            invariant
                es0 == config_entries_all(cfg),
                outs.len() == calls.len(),
                forall|k: int| 0 <= k < outs.len() ==> built_by::<B>(#[trigger] calls[k], outs[k]),
                service_values(services@) == ok_values(outs),
                forall|f: Seq<bool>|
                    continues(
                        #[trigger] assemble(reqs, 0, es0, Seq::<ServiceIdView>::empty(), oks_of(outs) + f),
                        calls,
                        assemble(reqs, plan.next as int, plan_entries(plan), plan.built_view(), f),
                    ),
                plan.wf(),
                plan.requests_view() == reqs,
                cfg == config,
                reqs == pipeline_requests(pipelines_view(cfg)),
                graph_nodes(graph) == graph_spec(pipelines_view(cfg)).0,
                graph_edges(graph) == graph_spec(pipelines_view(cfg)).1,
                service_keys(services@) == plan.built_view(),
                plan.built_view().no_duplicates(),
                forall|i: int| 0 <= i < plan.built_view().len() ==> reqs.take(plan.next as int).contains(#[trigger] plan.built_view()[i]),
                reqs.no_duplicates() ==> forall|j: int| 0 <= j < plan.next ==> has_entry(config_entries(cfg, reqs[j].kind()), #[trigger] reqs[j].id()),
                reqs.no_duplicates() ==> forall|j: int| plan.next <= j < reqs.len() ==> (has_entry(plan.entries(reqs[j].kind()), #[trigger] reqs[j].id())
                    <==> has_entry(config_entries(cfg, reqs[j].kind()), reqs[j].id())),
            ensures
                outs.len() == calls.len(),
                forall|k: int| 0 <= k < outs.len() ==> built_by::<B>(#[trigger] calls[k], outs[k]),
                service_values(services@) == ok_values(outs),
                continues(
                    assemble(reqs, 0, es0, Seq::<ServiceIdView>::empty(), oks_of(outs) + Seq::<bool>::empty()),
                    calls,
                    Assembly { calls: Seq::empty(), built: service_keys(services@), missing: None },
                ),
                graph_nodes(graph) == graph_spec(pipelines_view(cfg)).0,
                graph_edges(graph) == graph_spec(pipelines_view(cfg)).1,
                service_keys(services@).no_duplicates(),
                forall|i: int| 0 <= i < services@.len() ==> reqs.contains(#[trigger] service_keys(services@)[i]),
                reqs.no_duplicates() ==> all_configured(cfg, reqs),
            decreases plan.requests@.len() - plan.next,
        {
            let ghost before = plan;
            proof {
                lemma_next_unbuilt(reqs, plan.built_view(), plan.next as int);
            }
            let ghost k = next_unbuilt(reqs, plan.built_view(), plan.next as int);
            let step = plan.next_request();
            proof {
                if reqs.no_duplicates() && k > before.next {
                    let j = before.next as int;
                    assert(before.built_view().contains(reqs[j]));
                    let b = choose|b: int| 0 <= b < before.built_view().len() && before.built_view()[b] == reqs[j];
                    assert(reqs.take(before.next as int).contains(before.built_view()[b]));
                    let j2 = choose|j2: int| 0 <= j2 < before.next && reqs.take(before.next as int)[j2] == reqs[j];
                    assert(reqs[j2] == reqs[j]);
                    assert(false);
                }
            }
            match step {
                None => {
                    proof {
                        lemma_plan_entries(before, plan, ServiceKind::Receiver, before.entries(ServiceKind::Receiver));
                        assert forall|f: Seq<bool>|
                            continues(
                                #[trigger] assemble(reqs, 0, es0, Seq::<ServiceIdView>::empty(), oks_of(outs) + f),
                                calls,
                                assemble(reqs, plan.next as int, plan_entries(plan), plan.built_view(), f),
                            ) by {
                            lemma_assemble_skip(reqs, before.next as int, plan_entries(before), before.built_view(), f);
                            lemma_assemble_skip(reqs, plan.next as int, plan_entries(before), before.built_view(), f);
                        }
                        lemma_assemble_end(reqs, before.next as int, plan_entries(before), before.built_view(), Seq::<bool>::empty());
                        assert(continues(
                            assemble(reqs, 0, es0, Seq::<ServiceIdView>::empty(), oks_of(outs) + Seq::<bool>::empty()),
                            calls,
                            assemble(reqs, before.next as int, plan_entries(before), before.built_view(), Seq::<bool>::empty()),
                        ));
                        assert forall|i: int| 0 <= i < services@.len() implies reqs.contains(#[trigger] service_keys(services@)[i]) by {
                            let x = service_keys(services@)[i];
                            assert(reqs.take(plan.next as int).contains(x));
                            let j = choose|j: int| 0 <= j < plan.next && reqs.take(plan.next as int)[j] == x;
                            assert(reqs[j] == x);
                        }
                        if reqs.no_duplicates() {
                            assert forall|j: int| 0 <= j < reqs.len() implies has_entry(config_entries(cfg, reqs[j].kind()), #[trigger] reqs[j].id()) by {
                                assert(j < plan.next);
                            }
                        }
                    }
                    break;
                },
                Some(Err(e)) => {
                    proof {
                        let id = reqs[k];
                        assert(k < reqs.len());
                        assert(entry_position(entry_keys(before.entries(id.kind())), id.id()) is None);
                        assert(id_of(id.kind(), id.id()) == id);
                        assert(reqs.contains(id));
                        assert(e matches ServiceError::MissingService { kind, id: m } && kind == id.kind() && m@ == id.id());
                        if reqs.no_duplicates() {
                            assert(!has_entry(before.entries(id.kind()), id.id()));
                            assert(k == before.next);
                            assert(!has_entry(config_entries(cfg, reqs[k].kind()), reqs[k].id()));
                            assert(!all_configured(cfg, reqs));
                        }
                        assert(e matches ServiceError::MissingService { kind, id: m } && reqs.contains(id_of(kind, m@)));
                        assert(entries_of(plan_entries(before), id.kind()) == before.entries(id.kind()));
                        lemma_assemble_end(reqs, before.next as int, plan_entries(before), before.built_view(), Seq::<bool>::empty());
                        let a = assemble(reqs, 0, es0, Seq::<ServiceIdView>::empty(), oks_of(outs) + Seq::<bool>::empty());
                        assert(continues(
                            a,
                            calls,
                            assemble(reqs, before.next as int, plan_entries(before), before.built_view(), Seq::<bool>::empty()),
                        ));
                        assert(oks_of(outs) + Seq::<bool>::empty() =~= oks_of(outs));
                        assert(calls + Seq::<(ServiceIdView, Seq<char>, serde_yaml::Value)>::empty() =~= calls);
                    }
                    return Err(e);
                },
                Some(Ok(req)) => {
                    let ghost kid = reqs[k];
                    let ghost i = entry_position(entry_keys(before.entries(kid.kind())), kid.id()).unwrap();
                    proof {
                        lemma_entry_position(entry_keys(before.entries(kid.kind())), kid.id());
                        assert(before.entries(kid.kind())[i].0@ == kid.id());
                        if reqs.no_duplicates() {
                            assert forall|j: int| plan.next <= j < reqs.len() implies (has_entry(plan.entries(reqs[j].kind()), #[trigger] reqs[j].id())
                                <==> has_entry(config_entries(cfg, reqs[j].kind()), reqs[j].id())) by {
                                assert(j != k);
                                if reqs[j].kind() == kid.kind() {
                                    assert(reqs[j] != kid);
                                    assert(reqs[j].id() != kid.id());
                                    if has_entry(before.entries(kid.kind()), reqs[j].id()) {
                                        lemma_entry_kept(before.entries(kid.kind()), i, reqs[j].id());
                                    }
                                    if has_entry(plan.entries(kid.kind()), reqs[j].id()) {
                                        lemma_entry_from_removed(before.entries(kid.kind()), i, reqs[j].id());
                                    }
                                }
                            }
                            assert(has_entry(before.entries(kid.kind()), kid.id()));
                        }
                    }
                    let ServiceRequest { unique_id, service, raw_config } = req;
                    let ghost raw0 = raw_config;
                    let ghost call = (kid, service_name(kid.id()), raw0);
                    let ghost after_request = plan;
                    proof {
                        assert(entries_of(plan_entries(before), kid.kind()) == before.entries(kid.kind()));
                        lemma_plan_entries(before, after_request, kid.kind(), before.entries(kid.kind()).remove(i));
                    }
                    let build = B::build_service;
                    let name = service.as_str();
                    let out = build(&unique_id, name, raw_config);
                    let ghost out0 = out;
                    proof {
                        assert(call_ensures(B::build_service, (&unique_id, name, call.2), out0));
                        assert(built_by::<B>(call, out0));
                    }
                    let ghost old_outs = outs;
                    let ghost old_calls = calls;
                    proof {
                        outs = outs.push(out0);
                        calls = calls.push(call);
                        assert forall|f: Seq<bool>|
                            continues(
                                #[trigger] assemble(reqs, 0, es0, Seq::<ServiceIdView>::empty(), oks_of(outs) + f),
                                calls,
                                assemble(
                                    reqs,
                                    k + 1,
                                    plan_entries(after_request),
                                    if out0 is Ok {
                                        before.built_view().push(kid)
                                    } else {
                                        before.built_view()
                                    },
                                    f,
                                ),
                            ) by {
                            let ok = out0 is Ok;
                            assert(oks_of(outs) + f =~= oks_of(old_outs) + (seq![ok] + f));
                            lemma_assemble_call(reqs, before.next as int, plan_entries(before), before.built_view(), ok, f);
                            let rest = assemble(
                                reqs,
                                k + 1,
                                plan_entries(after_request),
                                if ok {
                                    before.built_view().push(kid)
                                } else {
                                    before.built_view()
                                },
                                f,
                            );
                            assert(old_calls + (seq![call] + rest.calls) =~= calls + rest.calls);
                        }
                        assert forall|x: int| 0 <= x < outs.len() implies built_by::<B>(#[trigger] calls[x], outs[x]) by {
                            if x < old_outs.len() {
                                assert(calls[x] == old_calls[x] && outs[x] == old_outs[x]);
                            }
                        }
                    }
                    match out {
                        Ok(built) => {
                            let ghost old_built = plan.built_view();
                            plan.record_built(unique_id.duplicate());
                            let ghost old_services = services@;
                            services.push((unique_id, built));
                            proof {
                                assert(outs.drop_last() =~= old_outs);
                                assert(service_values(services@) =~= service_values(old_services).push(built));
                                assert(plan.built_view() =~= old_built.push(kid));
                                assert(service_keys(services@) =~= service_keys(old_services).push(kid));
                                assert forall|a: int, b: int| 0 <= a < b < plan.built_view().len() implies plan.built_view()[a] != plan.built_view()[b] by {
                                    if b == old_built.len() {
                                        assert(old_built[a] == plan.built_view()[a]);
                                    }
                                }
                                assert forall|x: int| 0 <= x < plan.built_view().len() implies reqs.take(plan.next as int).contains(#[trigger] plan.built_view()[x]) by {
                                    if x < old_built.len() {
                                        let y = old_built[x];
                                        assert(reqs.take(before.next as int).contains(y));
                                        let j = choose|j: int| 0 <= j < before.next && reqs.take(before.next as int)[j] == y;
                                        assert(reqs.take(plan.next as int)[j] == y);
                                    } else {
                                        assert(reqs.take(plan.next as int)[k] == kid);
                                    }
                                }
                            }
                        },
                        Err(_) => {
                            proof {
                                assert(outs.drop_last() =~= old_outs);
                                assert forall|x: int| 0 <= x < plan.built_view().len() implies reqs.take(plan.next as int).contains(#[trigger] plan.built_view()[x]) by {
                                    let y = plan.built_view()[x];
                                    assert(reqs.take(before.next as int).contains(y));
                                    let j = choose|j: int| 0 <= j < before.next && reqs.take(before.next as int)[j] == y;
                                    assert(reqs.take(plan.next as int)[j] == y);
                                }
                            }
                        },
                    }
                },
            }
        }
        proof {
            let a = assemble(reqs, 0, es0, Seq::<ServiceIdView>::empty(), oks_of(outs) + Seq::<bool>::empty());
            assert(oks_of(outs) + Seq::<bool>::empty() =~= oks_of(outs));
            assert(calls + Seq::<(ServiceIdView, Seq<char>, serde_yaml::Value)>::empty() =~= calls);
            assert(a.calls == calls);
        }
        Ok(Pipelines { services, pipelines: graph })
    }
}

/// The services among the nodes of a graph, in the order of the nodes.
pub open spec fn service_nodes(nodes: Seq<NodeView>) -> Seq<ServiceIdView>
    decreases nodes.len(),
{
    if nodes.len() == 0 {
        Seq::empty()
    } else {
        let rest = service_nodes(nodes.drop_last());
        match nodes.last() {
            NodeView::Service(id) => rest.push(id),
            _ => rest,
        }
    }
}

impl ServicePlan {
    /// The plan for the services of the nodes of a graph, in the order of the nodes, with
    /// the raw settings of the configuration and nothing built.
    pub fn for_graph(graph: &PipelineGraph, config: Config) -> (r: ServicePlan)
        ensures
            r.wf(),
            r.next == 0,
            r.requests_view() == service_nodes(graph_nodes(*graph)),
            r.receivers@ == config.receivers.receivers@,
            r.processors@ == config.processors.processors@,
            r.exporters@ == config.exporters.exporters@,
            r.built@.len() == 0,
    {
        let ghost nodes = graph_nodes(*graph);
        let n = graph_node_count(graph);
        let mut requests: Vec<ServiceIdentifier> = Vec::new();
        let mut i: usize = 0;
        assert(nodes.take(0) =~= Seq::<NodeView>::empty());
        while i < n
            invariant
                n == nodes.len(),
                n <= u32::MAX,
                nodes == graph_nodes(*graph),
                i <= n,
                ids_view(requests@) == service_nodes(nodes.take(i as int)),
            decreases n - i,
        {
            proof {
                assert(nodes.take(i + 1).drop_last() =~= nodes.take(i as int));
                assert(nodes.take(i + 1).last() == nodes[i as int]);
            }
            match graph_node_weight(graph, i) {
                Some(PipelineNode::Service(id)) => {
                    let ghost prev = requests@;
                    requests.push(id.duplicate());
                    assert(ids_view(requests@) =~= ids_view(prev).push(id@));
                },
                _ => {},
            }
            i = i + 1;
        }
        assert(nodes.take(n as int) =~= nodes);
        let Config { receivers, processors, exporters, service: _ } = config;
        ServicePlan {
            requests,
            next: 0,
            receivers: receivers.receivers,
            processors: processors.processors,
            exporters: exporters.exporters,
            built: Vec::new(),
        }
    }
}

/// The graph of the pipelines of a configuration, with the index of its source, unless it
/// holds no service: only the source and the sink.
pub fn build_service_graph(config: &Config) -> (r: Option<(PipelineGraph, usize)>)
    requires
        graph_fits(*config),
    ensures
        match r {
            Some((g, source)) => {
                &&& graph_nodes(g) == graph_spec(pipelines_view(*config)).0
                &&& graph_edges(g) == graph_spec(pipelines_view(*config)).1
                &&& source == 0
                &&& graph_nodes(g).len() != 2
            },
            None => graph_spec(pipelines_view(*config)).0.len() == 2,
        },
{
    let (graph, source) = build_pipeline_graph(config);
    if graph_node_count(&graph) == 2 {
        None
    } else {
        Some((graph, source))
    }
}

/// The number of edges an accepted pipeline adds.
pub open spec fn pipeline_edge_count(p: PipelineConfigView) -> int {
    let r = p.receivers.len() as int;
    let q = p.processors.len() as int;
    let x = p.exporters.len() as int;
    if q > 0 {
        r + r + (q - 1) + x + x
    } else {
        r + r * x + x
    }
}

/// The number of edges of the graph of the pipelines.
pub open spec fn edges_total(pipelines: Seq<(Seq<char>, PipelineConfigView)>) -> int
    decreases pipelines.len(),
{
    if pipelines.len() == 0 {
        0
    } else {
        edges_total(pipelines.drop_last()) + if pipeline_accepted(pipelines.last()) {
            pipeline_edge_count(pipelines.last().1)
        } else {
            0
        }
    }
}

/// The number of services the pipelines name, counted with repetitions.
pub open spec fn ids_total(pipelines: Seq<(Seq<char>, PipelineConfigView)>) -> int
    decreases pipelines.len(),
{
    if pipelines.len() == 0 {
        0
    } else {
        let p = pipelines.last().1;
        ids_total(pipelines.drop_last()) + p.receivers.len() + p.processors.len() + p.exporters.len()
    }
}

/// The graph has at most two nodes more than the pipelines name services, and exactly the
/// edges that the accepted pipelines add.
pub proof fn lemma_graph_size(pipelines: Seq<(Seq<char>, PipelineConfigView)>)
    ensures
        graph_spec(pipelines).0.len() <= 2 + ids_total(pipelines),
        graph_spec(pipelines).1.len() == edges_total(pipelines),
    decreases pipelines.len(),
{
    if pipelines.len() > 0 {
        let prev = pipelines.drop_last();
        lemma_graph_size(prev);
        let (nodes, edges) = graph_spec(prev);
        let p = pipelines.last();
        let rn = receiver_nodes(p.1.receivers);
        let pn = processor_nodes(p.1.processors);
        let xn = exporter_nodes(p.1.exporters);
        let n1 = with_nodes(nodes, rn);
        let n2 = with_nodes(n1, pn);
        let n3 = with_nodes(n2, xn);
        lemma_with_nodes(nodes, rn);
        lemma_with_nodes(n1, pn);
        lemma_with_nodes(n2, xn);
        if let Some(e) = pipeline_kind(p.0) {
            if p.1.receivers.len() > 0 && p.1.exporters.len() > 0 {
                let rs = positions(n3, rn);
                let ps = positions(n3, pn);
                let xs = positions(n3, xn);
                lemma_cross_len(rs, xs, e);
                assert(pipeline_edges(e, rs, ps, xs).len() == pipeline_edge_count(p.1));
            }
        }
    }
}

/// The totals of the first pipelines are no larger than those of all.
pub proof fn lemma_totals_prefix(pipelines: Seq<(Seq<char>, PipelineConfigView)>, k: int)
    requires
        0 <= k <= pipelines.len(),
    ensures
        ids_total(pipelines.take(k)) <= ids_total(pipelines),
        edges_total(pipelines.take(k)) <= edges_total(pipelines),
    decreases pipelines.len(),
{
    if k == pipelines.len() {
        assert(pipelines.take(k) =~= pipelines);
    } else {
        assert(pipelines.take(k) =~= pipelines.drop_last().take(k));
        lemma_totals_prefix(pipelines.drop_last(), k);
        let p = pipelines.last().1;
        if pipeline_accepted(pipelines.last()) {
            assert(pipeline_edge_count(p) >= 0);
        }
    }
}

/// Whether the graph of the pipelines of a configuration surely fits `u32` indices: the
/// services the pipelines name, counted with repetitions, plus the source and the sink,
/// and the edges, each number no more than `u32::MAX`.
pub fn graph_fits_config(config: &Config) -> (r: bool)
    ensures
        r == (2 + ids_total(pipelines_view(*config)) <= u32::MAX && edges_total(pipelines_view(*config))
            <= u32::MAX),
        r ==> graph_fits(*config),
{
    let ghost pv = pipelines_view(*config);
    let pipelines = &config.service.pipelines.pipelines;
    let limit: u128 = 4294967295;
    let mut ids: u128 = 2;
    let mut edges: u128 = 0;
    let mut k: usize = 0;
    assert(pv.take(0) =~= Seq::<(Seq<char>, PipelineConfigView)>::empty());
    while k < pipelines.len()
        invariant
            pv == pipelines_view(*config),
            *pipelines == config.service.pipelines.pipelines,
            k <= pipelines@.len(),
            ids == 2 + ids_total(pv.take(k as int)),
            edges == edges_total(pv.take(k as int)),
            ids <= limit,
            edges <= limit,
            limit == u32::MAX,
        decreases pipelines@.len() - k,
    {
        let pipeline_id = &pipelines[k].0;
        let pipeline = &pipelines[k].1;
        let ghost p = pv[k as int];
        proof {
            assert(pv.take(k + 1).drop_last() =~= pv.take(k as int));
            assert(pv.take(k + 1).last() == p);
            assert(p.0 == pipeline_id@ && p.1 == pipeline@);
        }
        let r = pipeline.receivers.len() as u128;
        let q = pipeline.processors.len() as u128;
        let x = pipeline.exporters.len() as u128;
        proof {
            lemma_totals_prefix(pv, k + 1);
        }
        if r > limit || q > limit || x > limit {
            return false;
        }
        let named = r + q + x;
        if ids + named > limit {
            return false;
        }
        ids = ids + named;
        let accepted = match pipeline_edge_kind(pipeline_id.as_str()) {
            Some(_) => r > 0 && x > 0,
            None => false,
        };
        if accepted {
            assert(r * x <= limit * limit) by (nonlinear_arith)
                requires
                    r <= limit,
                    x <= limit,
            ;
            let count: u128 = if q > 0 {
                r + r + (q - 1) + x + x
            } else {
                r + r * x + x
            };
            if edges + count > limit {
                return false;
            }
            edges = edges + count;
        }
        k = k + 1;
    }
    proof {
        assert(pv.take(k as int) =~= pv);
        lemma_graph_size(pv);
    }
    true
}

} // verus!

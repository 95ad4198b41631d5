use otel_collector::component::{BuiltinService, BuiltinServiceBuilder};
use otel_collector::config::{Config, Exporters, PipelineConfig, Pipelines as PipelineSection, Processors, Receivers, Services};
use otel_collector::pipeline::{
    PipelineEdge, PipelineGraph, PipelineNode, ServiceError, ServiceIdentifier, ServiceKind, build_pipeline_graph,
    get_or_insert_node, metric_sources,
    service_id,
};
use otel_collector::services::{
    Pipelines, ServiceBuilder, ServicePlan, build_service_graph, contains_id, graph_fits_config,
};

fn strings(v: &[&str]) -> Vec<String> {
    v.iter().map(|s| s.to_string()).collect()
}

fn pipeline(id: &str, r: &[&str], p: &[&str], x: &[&str]) -> (String, PipelineConfig) {
    (id.to_string(), PipelineConfig { receivers: strings(r), processors: strings(p), exporters: strings(x) })
}

fn entries(ids: &[&str]) -> Vec<(String, serde_yaml::Value)> {
    ids.iter().map(|s| (s.to_string(), serde_yaml::Value::String(s.to_string()))).collect()
}

fn config(pipelines: Vec<(String, PipelineConfig)>, r: &[&str], p: &[&str], x: &[&str]) -> Config {
    Config {
        receivers: Receivers { receivers: entries(r) },
        processors: Processors { processors: entries(p) },
        exporters: Exporters { exporters: entries(x) },
        service: Services { pipelines: PipelineSection { pipelines } },
    }
}

fn node_names(g: &otel_collector::pipeline::PipelineGraph) -> Vec<String> {
    g.node_weights()
        .map(|n| match n {
            PipelineNode::Source => "SOURCE".to_string(),
            PipelineNode::Sink => "SINK".to_string(),
            PipelineNode::Service(id) => id.display(),
        })
        .collect()
}

fn edge_list(g: &otel_collector::pipeline::PipelineGraph) -> Vec<(usize, usize, PipelineEdge)> {
    g.raw_edges().iter().map(|e| (e.source().index(), e.target().index(), e.weight)).collect()
}

#[test]
fn service_id_takes_the_name_before_the_slash_in_lower_case() {
    assert_eq!(service_id("Batch/fast"), Some("batch".to_string()));
    assert_eq!(service_id("otlp"), Some("otlp".to_string()));
    assert_eq!(service_id(""), Some("".to_string()));
    assert_eq!(service_id("/x"), Some("".to_string()));
}

#[test]
fn identifiers_know_their_kind_and_id() {
    let id = ServiceIdentifier::Processor("Batch/2".to_string());
    assert_eq!(id.kind(), ServiceKind::Processor);
    assert_eq!(id.id(), "Batch/2");
    match id.to_service_id() {
        Ok(ServiceIdentifier::Processor(name)) => assert_eq!(name, "batch"),
        other => panic!("unexpected {:?}", other),
    }
    assert_eq!(id.display(), "Processor(\"Batch/2\")");
    assert_eq!(ServiceKind::Exporter.as_str(), "exporter");
    assert_eq!(PipelineEdge::Logs.as_str(), "logs");
}

#[test]
fn graph_of_a_pipeline_with_processors() {
    let c = config(vec![pipeline("metrics", &["mongodb"], &["batch", "batch/2"], &["otlp", "debug"])], &[], &[], &[]);
    let (g, source) = build_pipeline_graph(&c);
    assert_eq!(source, 0);
    assert_eq!(
        node_names(&g),
        vec![
            "SOURCE",
            "SINK",
            "Receiver(\"mongodb\")",
            "Processor(\"batch\")",
            "Processor(\"batch/2\")",
            "Exporter(\"otlp\")",
            "Exporter(\"debug\")",
        ]
    );
    let m = PipelineEdge::Metrics;
    assert_eq!(edge_list(&g), vec![(0, 2, m), (2, 3, m), (3, 4, m), (4, 5, m), (4, 6, m), (5, 1, m), (6, 1, m)]);
}

#[test]
fn graph_without_processors_connects_every_receiver_to_every_exporter() {
    let c = config(vec![pipeline("logs/x", &["a", "b"], &[], &["c"])], &[], &[], &[]);
    let (g, _) = build_pipeline_graph(&c);
    let l = PipelineEdge::Logs;
    assert_eq!(edge_list(&g), vec![(0, 2, l), (0, 3, l), (2, 4, l), (3, 4, l), (4, 1, l)]);
}

#[test]
fn graph_skips_unknown_pipelines_and_shares_nodes() {
    let c = config(
        vec![
            pipeline("profiles", &["a"], &[], &["b"]),
            pipeline("metrics", &[], &[], &["b"]),
            pipeline("traces", &["a"], &[], &[]),
            pipeline("metrics/2", &["a"], &[], &["b"]),
        ],
        &[],
        &[],
        &[],
    );
    let (g, _) = build_pipeline_graph(&c);
    assert_eq!(node_names(&g), vec!["SOURCE", "SINK", "Receiver(\"a\")", "Exporter(\"b\")"]);
    let m = PipelineEdge::Metrics;
    assert_eq!(edge_list(&g), vec![(0, 2, m), (2, 3, m), (3, 1, m)]);
    // the source has no incoming edge and the sink no outgoing one
    assert!(edge_list(&g).iter().all(|(a, b, _)| *b != 0 && *a != 1));
}

#[test]
fn empty_graph_is_refused() {
    let c = config(vec![pipeline("unknown", &["a"], &[], &["b"])], &[], &[], &[]);
    assert!(build_service_graph(&c).is_none());
    let c = config(vec![pipeline("metrics", &["a"], &[], &["b"])], &[], &[], &[]);
    let (g, source) = build_service_graph(&c).unwrap();
    assert_eq!(source, 0);
    assert_eq!(g.node_count(), 4);
}

struct Recording;

impl ServiceBuilder for Recording {
    type Service = (String, String);

    fn build_service(
        unique_id: &ServiceIdentifier,
        service: &str,
        raw_config: serde_yaml::Value,
    ) -> Result<(String, String), ServiceError> {
        if service == "broken" {
            return Err(ServiceError::Service("refused".to_string()));
        }
        Ok((format!("{}:{}", unique_id.id(), service), raw_config.as_str().unwrap_or("").to_string()))
    }
}

#[test]
fn pipelines_build_each_named_service_once() {
    let c = config(
        vec![pipeline("metrics", &["mongodb/1"], &["batch"], &["otlp"]), pipeline("logs", &["mongodb/1"], &[], &["otlp"])],
        &["mongodb/1"],
        &["batch"],
        &["otlp"],
    );
    let p: Pipelines<(String, String)> = Pipelines::from_config::<Recording>(c).unwrap();
    let keys: Vec<String> = p.services.iter().map(|(k, _)| k.display()).collect();
    assert_eq!(keys, vec!["Receiver(\"mongodb/1\")", "Processor(\"batch\")", "Exporter(\"otlp\")"]);
    assert_eq!(p.services[0].1, ("mongodb/1:mongodb".to_string(), "mongodb/1".to_string()));
    assert_eq!(p.pipelines.node_count(), 5);
}

#[test]
fn pipelines_fail_on_a_service_without_settings() {
    let c = config(vec![pipeline("metrics", &["mongodb"], &[], &["otlp"])], &["mongodb"], &[], &[]);
    match Pipelines::<(String, String)>::from_config::<Recording>(c) {
        Err(ServiceError::MissingService { kind, id }) => {
            assert_eq!(kind, ServiceKind::Exporter);
            assert_eq!(id, "otlp");
        },
        other => panic!("unexpected {:?}", other.map(|_| ())),
    }
}

#[test]
fn pipelines_leave_out_services_the_builder_refuses() {
    let c = config(vec![pipeline("metrics", &["broken"], &[], &["otlp"])], &["broken"], &[], &["otlp"]);
    let p = Pipelines::<(String, String)>::from_config::<Recording>(c).unwrap();
    assert_eq!(p.services.len(), 1);
    assert_eq!(p.services[0].0.display(), "Exporter(\"otlp\")");
    // a refused service named again has no settings left
    let c = config(
        vec![pipeline("metrics", &["broken"], &[], &["otlp"]), pipeline("logs", &["broken"], &[], &["otlp"])],
        &["broken"],
        &[],
        &["otlp"],
    );
    assert!(matches!(
        Pipelines::<(String, String)>::from_config::<Recording>(c),
        Err(ServiceError::MissingService { kind: ServiceKind::Receiver, .. })
    ));
}

#[test]
fn plan_hands_out_requests_in_order() {
    let c = config(vec![pipeline("metrics", &["r"], &[], &["x"])], &["r"], &[], &[]);
    let mut plan = ServicePlan::new(c);
    assert_eq!(plan.requests.len(), 2);
    match plan.next_request() {
        Some(Ok(req)) => {
            assert_eq!(req.unique_id.display(), "Receiver(\"r\")");
            assert_eq!(req.service, "r");
            plan.record_built(req.unique_id);
        },
        _ => panic!("expected a request"),
    }
    assert!(contains_id(&plan.built, &ServiceIdentifier::Receiver("r".to_string())));
    assert!(matches!(plan.next_request(), Some(Err(ServiceError::MissingService { .. }))));
    assert!(plan.next_request().is_none());
}

#[test]
fn plan_for_a_graph_follows_its_nodes() {
    let c = config(vec![pipeline("metrics", &["r"], &["p"], &["x"])], &["r"], &["p"], &["x"]);
    let (g, _) = build_pipeline_graph(&c);
    let mut plan = ServicePlan::for_graph(&g, c);
    let mut seen = Vec::new();
    while let Some(Ok(req)) = plan.next_request() {
        seen.push(req.unique_id.display());
    }
    assert_eq!(seen, vec!["Receiver(\"r\")", "Processor(\"p\")", "Exporter(\"x\")"]);
}

#[test]
fn the_name_of_a_name_is_itself() {
    for id in ["Batch/fast", "OTLP", "a/b/c", "", "/", "MongoDB/Primary"] {
        let name = service_id(id).unwrap();
        assert_eq!(service_id(&name), Some(name.clone()));
    }
}

#[test]
fn every_built_service_is_a_node_of_the_graph() {
    let c = config(
        vec![
            pipeline("metrics", &["r1", "r2"], &["p"], &["x"]),
            pipeline("traces", &["r2"], &[], &["y"]),
            pipeline("other", &["z"], &[], &["z"]),
        ],
        &["r1", "r2"],
        &["p"],
        &["x", "y"],
    );
    let p = Pipelines::<(String, String)>::from_config::<Recording>(c).unwrap();
    let nodes = node_names(&p.pipelines);
    assert_eq!(p.services.len(), 5);
    for (id, _) in p.services.iter() {
        assert!(nodes.contains(&id.display()));
    }
}

#[test]
fn metric_sources_are_the_producers_feeding_a_node() {
    let c = config(
        vec![pipeline("metrics", &["r1", "r2"], &["p"], &["x"]), pipeline("logs", &["r3"], &["p"], &["x"])],
        &[],
        &[],
        &[],
    );
    let (g, _) = build_pipeline_graph(&c);
    // nodes: SOURCE, SINK, r1, r2, p, x, r3
    let names = |v: Vec<ServiceIdentifier>| v.iter().map(|id| id.display()).collect::<Vec<_>>();
    assert_eq!(names(metric_sources(&g, 4)), vec!["Receiver(\"r1\")", "Receiver(\"r2\")"]);
    assert_eq!(names(metric_sources(&g, 5)), vec!["Processor(\"p\")"]);
    assert!(metric_sources(&g, 1).is_empty());
    assert!(metric_sources(&g, 0).is_empty());
}

#[test]
fn the_kind_of_an_identifier() {
    assert_eq!(ServiceKind::from(ServiceIdentifier::Exporter("x".to_string())), ServiceKind::Exporter);
    assert_eq!(ServiceKind::from(ServiceIdentifier::Receiver("x".to_string())), ServiceKind::Receiver);
    assert_eq!(ServiceKind::Processor.as_str(), "processor");
}

#[test]
fn small_graphs_fit() {
    let c = config(vec![pipeline("metrics", &["a", "b"], &["p"], &["x"])], &[], &[], &[]);
    assert!(graph_fits_config(&c));
    let c = config(vec![], &[], &[], &[]);
    assert!(graph_fits_config(&c));
}

struct Refusing;

impl ServiceBuilder for Refusing {
    type Service = ();

    fn build_service(unique_id: &ServiceIdentifier, _service: &str, _raw: serde_yaml::Value) -> Result<(), ServiceError> {
        Err(ServiceError::UnknownService { kind: unique_id.kind(), id: unique_id.id().to_string() })
    }
}

fn null_entries(ids: &[&str]) -> Vec<(String, serde_yaml::Value)> {
    ids.iter().map(|s| (s.to_string(), serde_yaml::Value::Null)).collect()
}

fn two_pipeline_config() -> Config {
    Config {
        receivers: Receivers { receivers: null_entries(&["r1", "r2"]) },
        processors: Processors { processors: null_entries(&["p1", "p2"]) },
        exporters: Exporters { exporters: null_entries(&["e1", "e2"]) },
        service: Services {
            pipelines: PipelineSection {
                pipelines: vec![
                    pipeline("metrics", &["r1"], &["p1", "p2"], &["e1"]),
                    pipeline("logs", &["r2"], &[], &["e2"]),
                ],
            },
        },
    }
}

fn named_edges(g: &PipelineGraph) -> Vec<(String, String, PipelineEdge)> {
    let names = node_names(g);
    let mut edges: Vec<(String, String, PipelineEdge)> =
        edge_list(g).into_iter().map(|(a, b, k)| (names[a].clone(), names[b].clone(), k)).collect();
    edges.sort_by(|x, y| (&x.0, &x.1).cmp(&(&y.0, &y.1)));
    edges
}

#[test]
fn pipelines_keep_no_service_that_the_builder_refuses() {
    let p = Pipelines::<()>::from_config::<Refusing>(two_pipeline_config()).unwrap();
    assert!(p.services.is_empty());
    let mut names = node_names(&p.pipelines);
    names.sort();
    assert_eq!(
        names,
        vec![
            "Exporter(\"e1\")", "Exporter(\"e2\")", "Processor(\"p1\")", "Processor(\"p2\")", "Receiver(\"r1\")",
            "Receiver(\"r2\")", "SINK", "SOURCE",
        ]
    );
    let s = |x: &str| x.to_string();
    let mut expected = vec![
        (s("SOURCE"), s("Receiver(\"r1\")"), PipelineEdge::Metrics),
        (s("Receiver(\"r1\")"), s("Processor(\"p1\")"), PipelineEdge::Metrics),
        (s("Processor(\"p1\")"), s("Processor(\"p2\")"), PipelineEdge::Metrics),
        (s("Processor(\"p2\")"), s("Exporter(\"e1\")"), PipelineEdge::Metrics),
        (s("Exporter(\"e1\")"), s("SINK"), PipelineEdge::Metrics),
        (s("SOURCE"), s("Receiver(\"r2\")"), PipelineEdge::Logs),
        (s("Receiver(\"r2\")"), s("Exporter(\"e2\")"), PipelineEdge::Logs),
        (s("Exporter(\"e2\")"), s("SINK"), PipelineEdge::Logs),
    ];
    expected.sort_by(|x, y| (&x.0, &x.1).cmp(&(&y.0, &y.1)));
    assert_eq!(named_edges(&p.pipelines), expected);
}

#[test]
fn pipelines_report_the_first_service_without_settings() {
    let mut c = two_pipeline_config();
    c.processors.processors.retain(|(k, _)| k != "p2");
    match Pipelines::<(String, String)>::from_config::<Recording>(c) {
        Err(ServiceError::MissingService { kind, id }) => {
            assert_eq!(kind, ServiceKind::Processor);
            assert_eq!(id, "p2");
        },
        other => panic!("unexpected {:?}", other.map(|_| ())),
    }
}

#[test]
fn pipeline_paths_run_from_source_to_sink() {
    let (g, _) = build_pipeline_graph(&two_pipeline_config());
    let mut paths = otel_collector::paths::pipeline_paths(&g).unwrap();
    paths.sort();
    assert_eq!(
        paths,
        vec![
            "SOURCE -> Receiver(\"r1\") -> Processor(\"p1\") -> Processor(\"p2\") -> Exporter(\"e1\") -> SINK",
            "SOURCE -> Receiver(\"r2\") -> Exporter(\"e2\") -> SINK",
        ]
    );
}

#[test]
fn pipeline_paths_need_one_source_and_one_sink() {
    let mut g = PipelineGraph::new();
    g.add_node(PipelineNode::Source);
    g.add_node(PipelineNode::Sink);
    assert!(otel_collector::paths::pipeline_paths(&g).is_none());
    g.add_edge(petgraph::graph::NodeIndex::new(0), petgraph::graph::NodeIndex::new(1), PipelineEdge::Metrics);
    assert_eq!(otel_collector::paths::pipeline_paths(&g).unwrap(), vec!["SOURCE -> SINK"]);
}

#[test]
fn path_text_joins_node_displays() {
    let (g, _) = build_pipeline_graph(&two_pipeline_config());
    let names = node_names(&g);
    let text = otel_collector::paths::path_text(&g, &vec![0, 2]);
    assert_eq!(text, format!("{} -> {}", names[0], names[2]));
    assert_eq!(otel_collector::paths::path_text(&g, &vec![]), "");
}

#[test]
fn get_or_insert_node_finds_an_equal_node_again() {
    let mut g = PipelineGraph::new();
    let a = get_or_insert_node(&mut g, PipelineNode::Source);
    let b = get_or_insert_node(&mut g, PipelineNode::Service(ServiceIdentifier::Receiver("r".to_string())));
    assert_eq!((a, b), (0, 1));
    let again = get_or_insert_node(&mut g, PipelineNode::Service(ServiceIdentifier::Receiver("r".to_string())));
    assert_eq!(again, 1);
    assert_eq!(g.node_count(), 2);
    let other = get_or_insert_node(&mut g, PipelineNode::Service(ServiceIdentifier::Exporter("r".to_string())));
    assert_eq!(other, 2);
}

#[test]
fn pipeline_paths_list_parallel_edges_once() {
    let mut g = PipelineGraph::new();
    g.add_node(PipelineNode::Source);
    g.add_node(PipelineNode::Sink);
    let (a, b) = (petgraph::graph::NodeIndex::new(0), petgraph::graph::NodeIndex::new(1));
    g.add_edge(a, b, PipelineEdge::Metrics);
    g.add_edge(a, b, PipelineEdge::Logs);
    assert_eq!(otel_collector::paths::pipeline_paths(&g).unwrap(), vec!["SOURCE -> SINK"]);
}

#[test]
fn the_builtin_builder_keeps_no_unknown_service() {
    let p = Pipelines::from_config::<BuiltinServiceBuilder>(two_pipeline_config()).unwrap();
    assert!(p.services.is_empty());
    assert_eq!(p.pipelines.node_count(), 8);
    assert_eq!(p.pipelines.edge_count(), 8);
}

#[test]
fn the_builtin_builder_selects_builtin_services() {
    let c = config(
        vec![pipeline("metrics", &["mongodb"], &["batch/fast", "debug"], &["otlp"])],
        &["mongodb"],
        &["batch/fast", "debug"],
        &["otlp"],
    );
    let p = Pipelines::from_config::<BuiltinServiceBuilder>(c).unwrap();
    let kept: Vec<(String, BuiltinService)> = p.services.iter().map(|(k, s)| (k.display(), s.service)).collect();
    assert_eq!(
        kept,
        vec![
            ("Receiver(\"mongodb\")".to_string(), BuiltinService::MongoDbReceiver),
            ("Processor(\"batch/fast\")".to_string(), BuiltinService::BatchProcessor),
            ("Exporter(\"otlp\")".to_string(), BuiltinService::OtlpExporter),
        ]
    );
    assert_eq!(p.services[1].1.raw_config, serde_yaml::Value::String("batch/fast".to_string()));
}

use otel_collector::config::{Config, Exporters, PipelineConfig, Pipelines, Processors, Receivers, Services};
use otel_collector::executor::start_order;
use otel_collector::pipeline::build_pipeline_graph;

fn strings(v: &[&str]) -> Vec<String> {
    v.iter().map(|s| s.to_string()).collect()
}

fn config(pipelines: Vec<(&str, &[&str], &[&str], &[&str])>) -> Config {
    Config {
        receivers: Receivers { receivers: Vec::new() },
        processors: Processors { processors: Vec::new() },
        exporters: Exporters { exporters: Vec::new() },
        service: Services {
            pipelines: Pipelines {
                pipelines: pipelines
                    .into_iter()
                    .map(|(id, r, p, x)| {
                        (id.to_string(), PipelineConfig { receivers: strings(r), processors: strings(p), exporters: strings(x) })
                    })
                    .collect(),
            },
        },
    }
}

#[test]
fn services_start_from_the_sink_up() {
    let c = config(vec![("metrics", &["r"], &["p"], &["x"])]);
    let (g, _) = build_pipeline_graph(&c);
    let order: Vec<(usize, String)> = start_order(&g).unwrap().into_iter().map(|(i, id)| (i, id.display())).collect();
    assert_eq!(
        order,
        vec![
            (4, "Exporter(\"x\")".to_string()),
            (3, "Processor(\"p\")".to_string()),
            (2, "Receiver(\"r\")".to_string()),
        ]
    );
}

fn position(order: &[(usize, String)], name: &str) -> usize {
    order.iter().position(|(_, id)| id == name).unwrap()
}

#[test]
fn consumers_start_before_the_services_that_feed_them() {
    // a receiver shared by two pipelines: r -> p -> e and r -> x
    let c = config(vec![("metrics", &["r"], &["p"], &["e"]), ("logs", &["r"], &[], &["x"])]);
    let (g, _) = build_pipeline_graph(&c);
    let order: Vec<(usize, String)> = start_order(&g).unwrap().into_iter().map(|(i, id)| (i, id.display())).collect();
    assert_eq!(order.len(), 4);
    let r = position(&order, "Receiver(\"r\")");
    let p = position(&order, "Processor(\"p\")");
    let e = position(&order, "Exporter(\"e\")");
    let x = position(&order, "Exporter(\"x\")");
    assert!(e < p && p < r && x < r);
}

#[test]
fn services_of_a_pipeline_without_exporters_still_start() {
    let c = config(vec![("metrics", &["r"], &[], &[])]);
    let (g, _) = build_pipeline_graph(&c);
    let order: Vec<String> = start_order(&g).unwrap().into_iter().map(|(_, id)| id.display()).collect();
    assert_eq!(order, vec!["Receiver(\"r\")".to_string()]);
}

#[test]
fn no_start_order_for_a_cycle() {
    // two pipelines that run the same processors in opposite orders
    let c = config(vec![("metrics", &["r"], &["a", "b"], &["x"]), ("metrics/2", &["r"], &["b", "a"], &["x"])]);
    let (g, _) = build_pipeline_graph(&c);
    assert!(start_order(&g).is_none());
}

//! The Prometheus exporter's types. Its collector describes and collects nothing yet, so
//! there is nothing here to compute.
use vstd::prelude::*;

verus! {

/// The collector that a Prometheus exporter registers.
#[derive(Debug)]
pub struct Collector {}

/// A Prometheus exporter.
#[derive(Debug)]
pub struct PrometheusExporter {}

/// How long a metric is kept without updates by default: five minutes, in nanoseconds.
pub const DEFAULT_METRIC_EXPIRATION: u128 = 300_000_000_000;

/// Settings of a Prometheus exporter; the metric expiration is in nanoseconds.
#[derive(Debug, Clone, PartialEq, Eq)]
pub struct Config {
    pub namespace: Option<String>,
    pub const_labels: Vec<(String, String)>,
    pub send_timestamps: Option<bool>,
    pub metric_expiration: Option<u128>,
    pub enable_open_metrics: Option<bool>,
    pub add_metric_suffixes: Option<bool>,
}

impl Default for Config {
    /// No namespace or constant labels, no timestamps, metrics that expire after five
    /// minutes, no OpenMetrics, and metric suffixes.
    fn default() -> (r: Config)
        ensures
            r.namespace is None,
            r.const_labels@.len() == 0,
            r.send_timestamps == Some(false),
            r.metric_expiration == Some(DEFAULT_METRIC_EXPIRATION),
            r.enable_open_metrics == Some(false),
            r.add_metric_suffixes == Some(true),
    {
        Config {
            namespace: None,
            const_labels: Vec::new(),
            send_timestamps: Some(false),
            metric_expiration: Some(DEFAULT_METRIC_EXPIRATION),
            enable_open_metrics: Some(false),
            add_metric_suffixes: Some(true),
        }
    }
}

} // verus!

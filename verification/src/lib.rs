//! Verified core of an OpenTelemetry collector for MongoDB metrics.
pub mod attributes;
pub mod batch;
pub mod component;
pub mod config;
pub mod doc;
pub mod executor;
pub mod metrics;
pub mod paths;
pub mod pipeline;
pub mod prometheus;
pub mod scrape;
pub mod server_status;
pub mod services;
pub mod status;
pub mod telemetry;
pub mod text;
pub mod version;

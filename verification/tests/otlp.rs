use otel_collector::config::{OtlpExporterConfig, TlsConfig};

#[test]
fn it_works() {}

#[test]
fn exporter_config_holds_its_endpoint() {
    let c = OtlpExporterConfig { endpoint: "http://localhost:4317".to_string(), tls: Some(TlsConfig { insecure: Some(true) }) };
    assert_eq!(c.clone(), c);
    assert_eq!(c.endpoint, "http://localhost:4317");
}

use otel_collector::doc::Bson;
use otel_collector::metrics::{AttributeValue, StorageEngine};
use otel_collector::status::{
    DEFAULT_PORT, ResourceAttributesConfig, ScrapeError, get_server_address_and_port, get_storage_engine, get_version,
    parse_port, scrapes_index_stats,
};

fn doc(entries: Vec<(&str, Bson)>) -> Bson {
    Bson::Document(entries.into_iter().map(|(k, v)| (k.to_string(), v)).collect())
}

fn text(s: &str) -> Bson {
    Bson::String(s.to_string())
}

#[test]
fn ports_are_read_as_u16_from_str_reads_them() {
    assert_eq!(parse_port("27017"), Some(27017));
    assert_eq!(parse_port("+80"), Some(80));
    assert_eq!(parse_port("0"), Some(0));
    assert_eq!(parse_port("65535"), Some(65535));
    assert_eq!(parse_port("65536"), None);
    assert_eq!(parse_port("999999999999"), None);
    assert_eq!(parse_port(""), None);
    assert_eq!(parse_port("+"), None);
    assert_eq!(parse_port("-1"), None);
    assert_eq!(parse_port("8a"), None);
    assert_eq!(parse_port(" 80"), None);
    for s in ["1", "+2", "00042", "65535", "65536", "x", "", "+", "1_0"] {
        assert_eq!(parse_port(s), s.parse::<u16>().ok());
    }
}

#[test]
fn host_without_port_gets_the_default_port() {
    let status = doc(vec![("host", text("db.example"))]);
    let (host, port) = get_server_address_and_port(&status).unwrap();
    assert_eq!(host, "db.example");
    assert_eq!(port, DEFAULT_PORT);
    assert_eq!(port, 27017);
}

#[test]
fn host_with_port() {
    let status = doc(vec![("host", text("localhost:27018"))]);
    assert_eq!(get_server_address_and_port(&status).unwrap(), ("localhost", 27018));
}

#[test]
fn host_errors() {
    let status = doc(vec![("host", text("a:b:c"))]);
    assert!(matches!(get_server_address_and_port(&status), Err(ScrapeError::UnexpectedHostFormat(h)) if h == "a:b:c"));
    let status = doc(vec![("host", text("a:port"))]);
    assert!(matches!(get_server_address_and_port(&status), Err(ScrapeError::InvalidPort(p)) if p == "port"));
    let status = doc(vec![("host", Bson::Int32(3))]);
    assert!(matches!(get_server_address_and_port(&status), Err(ScrapeError::Query(_))));
    let status = doc(vec![]);
    assert!(matches!(get_server_address_and_port(&status), Err(ScrapeError::Query(_))));
}

#[test]
fn storage_engine_from_the_status() {
    let status = doc(vec![("storageEngine", doc(vec![("name", text("wiredTiger"))]))]);
    assert!(matches!(get_storage_engine(&status), Some(StorageEngine::WiredTiger)));
    let status = doc(vec![("storageEngine", doc(vec![("name", text("inMemory"))]))]);
    assert!(matches!(get_storage_engine(&status), Some(StorageEngine::Other(n)) if n == "inMemory"));
    let status = doc(vec![("storageEngine", doc(vec![]))]);
    assert!(get_storage_engine(&status).is_none());
}

#[test]
fn version_from_the_status() {
    let status = doc(vec![("version", text("7.0.2"))]);
    let v = get_version(&status).unwrap();
    assert_eq!((v.major, v.minor, v.patch), (7, 0, 2));
    assert!(v.is_below(7, 0, 3));
    assert!(!v.is_below(7, 0, 2));
    let status = doc(vec![("version", text("4.4.0-rc1"))]);
    let v = get_version(&status).unwrap();
    assert_eq!(v.pre, "rc1");
    assert!(v.is_below(4, 4, 0));
    let status = doc(vec![("version", text("seven"))]);
    assert!(matches!(get_version(&status), Err(ScrapeError::InvalidVersion(t)) if t == "seven"));
    let status = doc(vec![]);
    assert!(matches!(get_version(&status), Err(ScrapeError::Query(_))));
}

#[test]
fn index_stats_are_scraped_except_for_local() {
    assert!(!scrapes_index_stats("local"));
    assert!(scrapes_index_stats("admin"));
    assert!(scrapes_index_stats("Local"));
}

#[test]
fn resource_attributes() {
    let attrs = ResourceAttributesConfig { database: None, server_address: "h".to_string(), server_port: 1 }.into_resource();
    assert_eq!(attrs.len(), 2);
    assert_eq!(attrs[0].key, "server.address");
    assert!(matches!(&attrs[0].value, AttributeValue::String(s) if s == "h"));
    assert_eq!(attrs[1].key, "server.port");
    assert!(matches!(attrs[1].value, AttributeValue::I64(1)));
    let attrs =
        ResourceAttributesConfig { database: Some("db".to_string()), server_address: "h".to_string(), server_port: 2 }
            .into_resource();
    assert_eq!(attrs.len(), 3);
    assert_eq!(attrs[2].key, "database");
    assert!(matches!(&attrs[2].value, AttributeValue::String(s) if s == "db"));
}

#[test]
fn a_scrape_reports_the_server_then_each_database() {
    let dbs = vec!["admin".to_string(), "shop".to_string()];
    let r = otel_collector::status::scrape_resources(&"db.local".to_string(), 27017, &dbs);
    assert_eq!(r.len(), 3);
    assert!(r.iter().all(|c| c.server_address == "db.local" && c.server_port == 27017));
    assert_eq!(r[0].database, None);
    assert_eq!(r[1].database.as_deref(), Some("admin"));
    assert_eq!(r[2].database.as_deref(), Some("shop"));
    assert_eq!(otel_collector::status::scrape_resources(&"h".to_string(), 1, &Vec::new()).len(), 1);
}

use otel_collector::doc::{Bson, BsonKey, OwnedPath, QueryError, decimal_text, get_i64, get_path, get_str};
use otel_collector::metrics::{CacheOperations, Config, Error, MetricData, NumDatapoints, StorageEngine};
use otel_collector::scrape::{MetricScraper, Metrics};
use otel_collector::version::Version;
use std::time::{Duration, SystemTime};

fn doc(entries: Vec<(&str, Bson)>) -> Bson {
    Bson::Document(entries.into_iter().map(|(k, v)| (k.to_string(), v)).collect())
}

fn config() -> Config {
    Config {
        database_name: None,
        start_time: SystemTime::UNIX_EPOCH,
        time: SystemTime::UNIX_EPOCH + Duration::from_secs(60),
        storage_engine: Some(StorageEngine::WiredTiger),
        version: Version::new(7, 0, 0),
    }
}

fn points(data: &MetricData) -> Vec<i64> {
    match data {
        MetricData::Sum(s) => s.data_points.iter().map(|p| p.value).collect(),
        MetricData::Gauge(g) => g.data_points.iter().map(|p| p.value).collect(),
    }
}

#[test]
fn paths_are_looked_up_in_documents_and_arrays() {
    let d = doc(vec![("a", doc(vec![("b", Bson::Array(vec![Bson::Int32(5), Bson::String("x".to_string())]))]))]);
    let p = [BsonKey::KeyStr("a"), BsonKey::KeyStr("b"), BsonKey::Index(0)];
    assert_eq!(get_i64(&d, &p).unwrap(), 5);
    let p = [BsonKey::KeyStr("a"), BsonKey::KeyStr("b"), BsonKey::Index(1)];
    assert_eq!(get_str(&d, &p).unwrap(), "x");
    assert!(get_i64(&d, &p).is_err());
    let p = [BsonKey::KeyStr("a"), BsonKey::KeyStr("c")];
    let err = get_path(&d, &p).unwrap_err();
    match err.source {
        QueryError::NotFound { partial_match: Some(m) } => assert_eq!(m.path.keys().len(), 1),
        other => panic!("unexpected {:?}", other),
    }
}

#[test]
fn a_new_scraper_has_empty_metrics() {
    let mut scraper = MetricScraper::new(SystemTime::UNIX_EPOCH);
    let global = scraper.metrics.emit_global();
    assert_eq!(global.len(), 16);
    assert_eq!(global[0].name, "mongodb.database.count");
    assert_eq!(global[1].name, "mongodb.operation.time");
    assert_eq!(global[2].name, "mongodb.cache.operations");
    assert_eq!(global[15].name, "mongodb.health");
    assert!(global.iter().all(|m| m.num_datapoints() == Some(0)));
    let db = scraper.metrics.emit_database();
    assert_eq!(db.len(), 15);
    assert_eq!(db[0].name, "mongodb.index.access.count");
    assert_eq!(db[1].name, "mongodb.collection.count");
    assert_eq!(db[8].name, "mongodb.connection.count");
    assert_eq!(db[14].name, "mongodb.lock.deadlock.count");
}

#[test]
fn server_status_metrics_are_recorded_then_emitted_once() {
    let mut metrics = Metrics::default();
    let status = doc(vec![
        ("uptime", Bson::Int64(1234)),
        ("globalLock", doc(vec![("totalTime", Bson::Int64(5_000_000))])),
        ("network", doc(vec![("bytesIn", Bson::Int64(10)), ("bytesOut", Bson::Int64(20)), ("numRequests", Bson::Int64(3))])),
    ]);
    let mut errors = Vec::new();
    metrics.record_server_status(&status, &config(), &mut errors);
    assert!(!errors.is_empty());
    assert_eq!(points(&metrics.global_lock_time.0.data), vec![5000]);
    assert_eq!(points(&metrics.network_in.0.data), vec![10]);
    assert_eq!(points(&metrics.network_out.0.data), vec![20]);
    assert_eq!(points(&metrics.network_request_count.0.data), vec![3]);
    metrics.database_count.record(4, &config());
    let global = metrics.emit_global();
    assert_eq!(global[0].num_datapoints(), Some(1));
    assert_eq!(points(&global[0].data), vec![4]);
    let again = metrics.emit_global();
    assert!(again.iter().all(|m| m.num_datapoints() == Some(0)));
}

#[test]
fn server_info_reads_version_engine_and_host() {
    let scraper = MetricScraper::new(SystemTime::UNIX_EPOCH);
    let status = doc(vec![
        ("host", Bson::String("mongo:27019".to_string())),
        ("version", Bson::String("6.0.1".to_string())),
        ("storageEngine", doc(vec![("name", Bson::String("wiredTiger".to_string()))])),
    ]);
    let now = SystemTime::UNIX_EPOCH + Duration::from_secs(1);
    let info = scraper.server_info(&status, now).unwrap();
    assert_eq!(info.server_address, "mongo");
    assert_eq!(info.server_port, 27019);
    assert_eq!(info.config.version.major, 6);
    assert!(matches!(info.config.storage_engine, Some(StorageEngine::WiredTiger)));
    assert!(info.config.database_name.is_none());
    assert_eq!(info.config.time, now);
    let status = doc(vec![("host", Bson::String("mongo".to_string()))]);
    assert!(scraper.server_info(&status, now).is_err());
}

#[test]
fn paths_are_shown_with_dots() {
    let path = [BsonKey::KeyStr("locks"), BsonKey::KeyStr("Global"), BsonKey::Index(10)];
    assert_eq!(OwnedPath::from_keys(&path).to_text(), "locks.Global.10");
    assert_eq!(OwnedPath::from_keys(&[]).to_text(), "");
    assert_eq!(BsonKey::Index(7).to_text(), "7");
    for n in [0usize, 9, 10, 99, 100, 12345, usize::MAX] {
        assert_eq!(decimal_text(n), n.to_string());
    }
}

fn cache_stats(read: i64, requested: i64) -> Bson {
    doc(vec![(
        "wiredTiger",
        doc(vec![(
            "cache",
            doc(vec![("pages read into cache", Bson::Int64(read)), ("pages requested from the cache", Bson::Int64(requested))]),
        )]),
    )])
}

#[test]
fn cache_operations_are_misses_and_hits() {
    let mut metric = CacheOperations::default();
    let mut errors: Vec<Error> = Vec::new();
    metric.record(&cache_stats(3, 10), &config(), &mut errors);
    assert!(errors.is_empty());
    assert_eq!(points(&metric.0.data), vec![3, 7]);
}

#[test]
fn cache_operations_ignore_other_storage_engines() {
    let mut c = config();
    c.storage_engine = None;
    let mut metric = CacheOperations::default();
    let mut errors: Vec<Error> = Vec::new();
    metric.record(&cache_stats(-1, i64::MAX), &c, &mut errors);
    assert!(errors.is_empty());
    assert_eq!(points(&metric.0.data), Vec::<i64>::new());
}

#[test]
fn omitted_values_cut_documents_and_arrays_short() {
    let d = doc(vec![
        ("a", doc(vec![("b", Bson::Int32(1))])),
        ("c", Bson::Array(vec![Bson::Int32(2)])),
        ("d", Bson::String("x".to_string())),
    ]);
    let cut = otel_collector::doc::omit_values(d, 1);
    let expected = doc(vec![
        ("a", doc(vec![("omitted", Bson::Boolean(true))])),
        ("c", Bson::Array(vec![Bson::String("omitted".to_string())])),
        ("d", Bson::String("x".to_string())),
    ]);
    assert_eq!(format!("{:?}", cut), format!("{:?}", expected));
    assert_eq!(format!("{:?}", otel_collector::doc::omit_values(Bson::Int64(7), 0)), format!("{:?}", Bson::Int64(7)));
    let top = otel_collector::doc::omit_values(doc(vec![("a", Bson::Null)]), 0);
    assert_eq!(format!("{:?}", top), format!("{:?}", doc(vec![("omitted", Bson::Boolean(true))])));
}

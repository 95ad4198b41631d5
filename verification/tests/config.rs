use otel_collector::config::{
    Config, Exporters, PipelineConfig, Pipelines, Processors, Receivers, Services, remove_entry, unique_keys,
};
use otel_collector::text::{eq_ignore_ascii_case, split_char, str_eq};

#[test]
fn remove_entry_takes_out_the_first_entry_with_the_key() {
    let mut entries = vec![
        ("a".to_string(), serde_yaml::Value::from(1)),
        ("b".to_string(), serde_yaml::Value::from(2)),
        ("a".to_string(), serde_yaml::Value::from(3)),
    ];
    assert_eq!(remove_entry(&mut entries, "a"), Some(serde_yaml::Value::from(1)));
    assert_eq!(entries.len(), 2);
    assert_eq!(entries[0].0, "b");
    assert_eq!(remove_entry(&mut entries, "c"), None);
    assert_eq!(entries.len(), 2);
}

#[test]
fn text_helpers() {
    assert_eq!(split_char("a:b::c", ':'), vec!["a", "b", "", "c"]);
    assert_eq!(split_char("", ':'), vec![""]);
    assert!(str_eq("abc", "abc"));
    assert!(!str_eq("abc", "abd"));
    assert!(eq_ignore_ascii_case("JsOn", "json"));
    assert!(!eq_ignore_ascii_case("jsön", "JSÖN"));
}

fn section(ids: &[&str]) -> Vec<(String, serde_yaml::Value)> {
    ids.iter().map(|s| (s.to_string(), serde_yaml::Value::Null)).collect()
}

#[test]
fn unique_keys_finds_a_repeated_identifier() {
    assert!(unique_keys(&section(&[])));
    assert!(unique_keys(&section(&["a", "b", "c"])));
    assert!(!unique_keys(&section(&["a", "b", "a"])));
    assert!(!unique_keys(&section(&["b", "b"])));
}

#[test]
fn a_configuration_names_each_service_once() {
    let pipeline = PipelineConfig { receivers: vec![], processors: vec![], exporters: vec![] };
    let mut c = Config {
        receivers: Receivers { receivers: section(&["r"]) },
        processors: Processors { processors: section(&["p"]) },
        exporters: Exporters { exporters: section(&["e", "f"]) },
        service: Services { pipelines: Pipelines { pipelines: vec![("metrics".to_string(), pipeline.clone())] } },
    };
    assert!(c.has_unique_keys());
    c.service.pipelines.pipelines.push(("metrics".to_string(), pipeline));
    assert!(!c.has_unique_keys());
}

#[test]
fn a_removed_identifier_is_gone_when_keys_are_unique() {
    let mut entries = section(&["a", "b"]);
    assert!(remove_entry(&mut entries, "a").is_some());
    assert!(remove_entry(&mut entries, "a").is_none());
    assert!(unique_keys(&entries));
}

use otel_collector::component::{BuiltinService, BuiltinServiceBuilder, ComponentName, ComponentNameError, first_failure};
use otel_collector::pipeline::{ServiceError, ServiceIdentifier, ServiceKind};
use otel_collector::telemetry::{LogFormat, LogLevel};

#[test]
fn component_names() {
    assert_eq!(ComponentName::new("batch".to_string()).unwrap().as_str(), "batch");
    assert_eq!(ComponentName::new("mongodb".to_string()).unwrap().as_str(), "mongodb");
    assert!(ComponentName::new("a_1".to_string()).is_ok());
    assert!(matches!(ComponentName::new("1abc".to_string()), Err(ComponentNameError::InvalidName(n)) if n == "1abc"));
    assert!(ComponentName::new("".to_string()).is_err());
    assert!(ComponentName::new("with space".to_string()).is_err());
    assert!(ComponentName::new("a".repeat(63)).is_ok());
    assert!(ComponentName::new("a".repeat(64)).is_err());
    assert!(ComponentName::from_match("x".to_string(), Some(false)).is_err());
    assert!(ComponentName::from_match("x".to_string(), None).is_err());
    assert!(ComponentName::from_match("x".to_string(), Some(true)).is_ok());
}

#[test]
fn builtin_services() {
    let id = ServiceIdentifier::Exporter("otlp/2".to_string());
    assert_eq!(BuiltinServiceBuilder::select(&id, "otlp").unwrap(), BuiltinService::OtlpExporter);
    let id = ServiceIdentifier::Processor("batch".to_string());
    assert_eq!(BuiltinServiceBuilder::select(&id, "batch").unwrap(), BuiltinService::BatchProcessor);
    let id = ServiceIdentifier::Receiver("mongodb".to_string());
    assert_eq!(BuiltinServiceBuilder::select(&id, "mongodb").unwrap(), BuiltinService::MongoDbReceiver);
    let id = ServiceIdentifier::Receiver("otlp".to_string());
    match BuiltinServiceBuilder::select(&id, "otlp") {
        Err(ServiceError::UnknownService { kind, id }) => {
            assert_eq!(kind, ServiceKind::Receiver);
            assert_eq!(id, "Receiver(\"otlp\")");
        },
        other => panic!("unexpected {:?}", other),
    }
}

#[test]
fn log_formats_ignore_ascii_case() {
    assert_eq!(LogFormat::parse("json").unwrap(), LogFormat::Json);
    assert_eq!(LogFormat::parse("JSON").unwrap(), LogFormat::Json);
    assert_eq!(LogFormat::parse("Pretty").unwrap(), LogFormat::Pretty);
    assert!(LogFormat::parse("yaml").is_err());
    assert_eq!("PRETTY".parse::<LogFormat>().unwrap(), LogFormat::Pretty);
}

#[test]
fn log_level_names() {
    assert_eq!(LogLevel::Disabled.as_str(), "None");
    assert_eq!(LogLevel::Basic.as_str(), "Basic");
    assert_eq!(LogLevel::Normal.as_str(), "Normal");
    assert_eq!(LogLevel::Detailed.as_str(), "Detailed");
}

#[test]
fn the_first_failure_is_the_outcome() {
    assert_eq!(first_failure::<u32>(vec![]), Ok(()));
    assert_eq!(first_failure::<u32>(vec![Ok(()), Ok(())]), Ok(()));
    assert_eq!(first_failure(vec![Ok(()), Err(1), Ok(()), Err(2)]), Err(1));
}

#[test]
fn component_names_are_ascii_and_anchored() {
    assert!(ComponentName::new("Z9_".to_string()).is_ok());
    assert!(ComponentName::new("ab\n".to_string()).is_err());
    assert!(ComponentName::new("ab-c".to_string()).is_err());
    assert!(ComponentName::new("é".to_string()).is_err());
    assert!(ComponentName::new("aé".to_string()).is_err());
    assert!(ComponentName::new("_a".to_string()).is_err());
}

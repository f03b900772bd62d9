use tipup::demultiplexor::Demultiplexor;
use tipup::document::{
    parse_analyzer_definition, parse_result_document, AnalyzerDefinition, DocField, Value,
};
use tipup::error::TipupError;
use tipup::flag_manager::{Flag, FlagChannel, FlagKind, FlagManager};
use tipup::loader::{load_analyzers, register_analyzer};

fn field(name: &str, value: Value) -> DocField {
    DocField { name: name.to_string(), value }
}

fn text(s: &str) -> Value {
    Value::Text(s.to_string())
}

fn result_record(host: &str, measurement: &str, ts: i64) -> Vec<DocField> {
    vec![
        field("hostname", text(host)),
        field("measurement", text(measurement)),
        field("timestamp", Value::Int(ts)),
        field("value", Value::Int(3)),
    ]
}

fn definition_record(name: &str, class: &str, measurement: &str, params: Vec<Value>) -> Vec<DocField> {
    vec![
        field("name", text(name)),
        field("class", text(class)),
        field("measurement", text(measurement)),
        field("parameters", Value::List(params)),
    ]
}

fn bayesian_params() -> Vec<Value> {
    vec![text("value"), Value::Int(0)]
}

#[test]
fn result_record_is_decoded() {
    let doc = parse_result_document(result_record("h1", "cpu", 42)).unwrap();
    assert_eq!(doc.hostname, "h1");
    assert_eq!(doc.measurement, "cpu");
    assert_eq!(doc.timestamp, 42);
    assert_eq!(doc.payload.len(), 4);
}

#[test]
fn result_record_without_hostname_is_rejected() {
    let record = vec![field("measurement", text("cpu")), field("timestamp", Value::Int(1))];
    assert_eq!(parse_result_document(record).err(), Some(TipupError::ResultHostnameField));
}

#[test]
fn result_record_with_non_text_hostname_is_rejected() {
    let record = vec![
        field("hostname", Value::Int(9)),
        field("measurement", text("cpu")),
        field("timestamp", Value::Int(1)),
    ];
    assert_eq!(parse_result_document(record).err(), Some(TipupError::ResultHostnameField));
}

#[test]
fn result_record_without_measurement_is_rejected() {
    let record = vec![field("hostname", text("h1")), field("timestamp", Value::Int(1))];
    assert_eq!(parse_result_document(record).err(), Some(TipupError::ResultMeasurementField));
}

#[test]
fn result_record_with_text_timestamp_is_rejected() {
    let record = vec![
        field("hostname", text("h1")),
        field("measurement", text("cpu")),
        field("timestamp", text("late")),
    ];
    assert_eq!(parse_result_document(record).err(), Some(TipupError::ResultTimestampField));
}

#[test]
fn definition_record_is_decoded() {
    let def = parse_analyzer_definition(definition_record(
        "a1",
        "BayesianAnalyzer",
        "cpu",
        bayesian_params(),
    ))
    .unwrap();
    assert_eq!(def.name, "a1");
    assert_eq!(def.class, "BayesianAnalyzer");
    assert_eq!(def.measurement, "cpu");
    assert_eq!(def.parameters.len(), 2);
}

#[test]
fn definition_record_errors_name_the_first_bad_field() {
    let no_name = vec![field("class", text("ErrorAnalyzer"))];
    assert_eq!(parse_analyzer_definition(no_name).err(), Some(TipupError::AnalyzerNameField));

    let no_class = vec![field("name", text("a1"))];
    assert_eq!(parse_analyzer_definition(no_class).err(), Some(TipupError::AnalyzerClassField));

    let no_measurement = vec![field("name", text("a1")), field("class", text("ErrorAnalyzer"))];
    assert_eq!(
        parse_analyzer_definition(no_measurement).err(),
        Some(TipupError::AnalyzerMeasurementField)
    );

    let bad_params = vec![
        field("name", text("a1")),
        field("class", text("ErrorAnalyzer")),
        field("measurement", text("cpu")),
        field("parameters", text("oops")),
    ];
    assert_eq!(
        parse_analyzer_definition(bad_params).err(),
        Some(TipupError::AnalyzerParametersField)
    );
}

#[test]
fn duplicate_field_names_keep_the_first_occurrence() {
    let record = vec![
        field("hostname", text("first")),
        field("hostname", text("second")),
        field("measurement", text("cpu")),
        field("timestamp", Value::Int(7)),
    ];
    let doc = parse_result_document(record).unwrap();
    assert_eq!(doc.hostname, "first");
}

#[test]
fn known_classes_load_and_register() {
    let mut demux = Demultiplexor::new();
    let defs = vec![
        parse_analyzer_definition(definition_record(
            "a1",
            "BayesianAnalyzer",
            "cpu",
            bayesian_params(),
        ))
        .unwrap(),
        parse_analyzer_definition(definition_record("a2", "ErrorAnalyzer", "disk", Vec::new()))
            .unwrap(),
    ];
    assert!(load_analyzers(&mut demux, defs).is_ok());
}

#[test]
fn unknown_class_is_a_configuration_error() {
    let mut demux = Demultiplexor::new();
    let def = AnalyzerDefinition {
        name: "a1".to_string(),
        class: "FourierAnalyzer".to_string(),
        measurement: "cpu".to_string(),
        parameters: Vec::new(),
    };
    assert_eq!(register_analyzer(&mut demux, def), Err(TipupError::UnknownAnalyzerClass));
}

#[test]
fn malformed_parameters_fail_the_load() {
    let mut demux = Demultiplexor::new();
    let def = AnalyzerDefinition {
        name: "a1".to_string(),
        class: "BayesianAnalyzer".to_string(),
        measurement: "cpu".to_string(),
        parameters: vec![Value::Int(3)],
    };
    assert_eq!(register_analyzer(&mut demux, def), Err(TipupError::MalformedParameters));
}

#[test]
fn loading_stops_at_the_first_broken_definition() {
    let mut demux = Demultiplexor::new();
    let good = AnalyzerDefinition {
        name: "a1".to_string(),
        class: "ErrorAnalyzer".to_string(),
        measurement: "cpu".to_string(),
        parameters: Vec::new(),
    };
    let duplicate = AnalyzerDefinition {
        name: "a1".to_string(),
        class: "ErrorAnalyzer".to_string(),
        measurement: "cpu".to_string(),
        parameters: Vec::new(),
    };
    let never_reached = AnalyzerDefinition {
        name: "a3".to_string(),
        class: "NoSuchAnalyzer".to_string(),
        measurement: "net".to_string(),
        parameters: Vec::new(),
    };
    let r = load_analyzers(&mut demux, vec![good, duplicate, never_reached]);
    assert_eq!(r, Err(TipupError::DuplicateRegistration));
}

fn flag(analyzer: &str, ts: i64) -> Flag {
    Flag {
        analyzer_name: analyzer.to_string(),
        hostname: "h1".to_string(),
        measurement: "cpu".to_string(),
        timestamp: ts,
        kind: FlagKind::Anomaly,
        message: "value".to_string(),
    }
}

#[test]
fn channel_is_first_in_first_out() {
    let mut chan = FlagChannel::new();
    chan.send(flag("a1", 1));
    chan.send(flag("a2", 2));
    chan.send(flag("a1", 3));
    assert_eq!(chan.len(), 3);
    assert_eq!(chan.recv().map(|f| f.timestamp), Some(1));
    assert_eq!(chan.recv().map(|f| f.timestamp), Some(2));
    assert_eq!(chan.recv().map(|f| f.timestamp), Some(3));
    assert_eq!(chan.recv().map(|f| f.timestamp), None);
}

#[test]
fn interleaved_producers_each_keep_their_order() {
    let mut chan = FlagChannel::new();
    chan.send(flag("a1", 1));
    chan.send(flag("a2", 10));
    chan.send(flag("a1", 2));
    chan.send(flag("a2", 20));
    let mut manager = FlagManager::new();
    assert_eq!(manager.drain(&mut chan), 4);
    assert_eq!(chan.len(), 0);
    let flags = manager.processed_flags();
    let a1: Vec<i64> = flags.iter().filter(|f| f.analyzer_name == "a1").map(|f| f.timestamp).collect();
    let a2: Vec<i64> = flags.iter().filter(|f| f.analyzer_name == "a2").map(|f| f.timestamp).collect();
    assert_eq!(a1, vec![1, 2]);
    assert_eq!(a2, vec![10, 20]);
}

#[test]
fn manager_serializes_flags_in_arrival_order() {
    let mut manager = FlagManager::new();
    manager.process_flag(flag("a1", 5));
    manager.process_flag(flag("a2", 4));
    let flags = manager.processed_flags();
    assert_eq!(flags.len(), 2);
    assert_eq!(flags[0], flag("a1", 5));
    assert_eq!(flags[1], flag("a2", 4));
}

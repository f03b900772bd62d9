use tipup::analyzer::{Analyzer, BayesianAnalyzer};
use tipup::demultiplexor::Demultiplexor;
use tipup::document::{DocField, ResultDocument, Value};
use tipup::error::TipupError;
use tipup::fetch::{process_host_results, select_new_results, HostCursors};
use tipup::flag_manager::{FlagChannel, FlagManager};

fn doc_with_value(host: &str, measurement: &str, ts: i64, value: i64) -> ResultDocument {
    ResultDocument {
        hostname: host.to_string(),
        measurement: measurement.to_string(),
        timestamp: ts,
        payload: vec![DocField { name: "value".to_string(), value: Value::Int(value) }],
    }
}

fn flagging_analyzer(name: &str) -> Analyzer {
    let params = vec![Value::Text("value".to_string()), Value::Int(0)];
    Analyzer::Bayesian(BayesianAnalyzer::new(name.to_string(), &params).unwrap())
}

#[test]
fn unseen_host_has_cursor_zero() {
    let cursors = HostCursors::new();
    assert_eq!(cursors.get(&"h1".to_string()), 0);
}

#[test]
fn advance_moves_forward_and_never_backwards() {
    let mut cursors = HostCursors::new();
    cursors.advance(&"h1".to_string(), 100);
    assert_eq!(cursors.get(&"h1".to_string()), 100);
    cursors.advance(&"h1".to_string(), 70);
    assert_eq!(cursors.get(&"h1".to_string()), 100);
    cursors.advance(&"h1".to_string(), 150);
    assert_eq!(cursors.get(&"h1".to_string()), 150);
}

#[test]
fn advance_leaves_other_hosts_alone() {
    let mut cursors = HostCursors::new();
    cursors.advance(&"h1".to_string(), 100);
    cursors.advance(&"h2".to_string(), 30);
    assert_eq!(cursors.get(&"h1".to_string()), 100);
    assert_eq!(cursors.get(&"h2".to_string()), 30);
    assert_eq!(cursors.get(&"h3".to_string()), 0);
}

#[test]
fn selection_is_per_host_and_inclusive() {
    let store = vec![
        doc_with_value("h1", "cpu", 150, 1),
        doc_with_value("h2", "cpu", 140, 1),
        doc_with_value("h1", "cpu", 100, 1),
        doc_with_value("h1", "cpu", 90, 1),
    ];
    let fetched = select_new_results(store, &"h1".to_string(), 100);
    let stamps: Vec<i64> = fetched.iter().map(|d| d.timestamp).collect();
    // The bound is inclusive: the document sitting exactly at the cursor is
    // fetched; older ones and other hosts' are not.
    assert_eq!(stamps, vec![150, 100]);
}

#[test]
fn cycle_advances_cursor_to_newest_processed() {
    let mut demux = Demultiplexor::new();
    let mut cursors = HostCursors::new();
    let mut chan = FlagChannel::new();
    demux.add_analyzer("a1".to_string(), "cpu".to_string(), flagging_analyzer("a1")).unwrap();

    let docs = vec![
        doc_with_value("h1", "cpu", 150, 1),
        doc_with_value("h1", "cpu", 120, 1),
        doc_with_value("h1", "cpu", 130, 1),
    ];
    let host = "h1".to_string();
    let r = process_host_results(&mut demux, &mut cursors, &host, &docs, &mut chan);
    assert!(r.is_ok());
    assert_eq!(cursors.get(&host), 150);
}

#[test]
fn empty_batch_leaves_cursor_unchanged() {
    let mut demux = Demultiplexor::new();
    let mut cursors = HostCursors::new();
    let mut chan = FlagChannel::new();
    let host = "h1".to_string();
    cursors.advance(&host, 80);
    let r = process_host_results(&mut demux, &mut cursors, &host, &Vec::new(), &mut chan);
    assert!(r.is_ok());
    assert_eq!(cursors.get(&host), 80);
}

#[test]
fn boundary_document_is_not_fetched_again_after_the_cursor_moves() {
    let host = "h1".to_string();
    let store = vec![
        doc_with_value("h1", "cpu", 150, 1),
        doc_with_value("h1", "cpu", 100, 1),
    ];
    // Cursor at 100: the boundary document (timestamp 100) is fetched once
    // more, together with the newer one.
    let fetched = select_new_results(duplicate_store(&store), &host, 100);
    let stamps: Vec<i64> = fetched.iter().map(|d| d.timestamp).collect();
    assert_eq!(stamps, vec![150, 100]);

    // After the cycle the cursor stands at 150; with no new data the next
    // fetch returns only the document at the new boundary — the old
    // boundary document is not redelivered.
    let mut demux = Demultiplexor::new();
    let mut cursors = HostCursors::new();
    let mut chan = FlagChannel::new();
    cursors.advance(&host, 100);
    process_host_results(&mut demux, &mut cursors, &host, &fetched, &mut chan).unwrap();
    assert_eq!(cursors.get(&host), 150);

    let refetched = select_new_results(store, &host, cursors.get(&host));
    let stamps: Vec<i64> = refetched.iter().map(|d| d.timestamp).collect();
    assert_eq!(stamps, vec![150]);
}

#[test]
fn analyzer_failure_still_advances_the_cursor_and_reports() {
    let mut demux = Demultiplexor::new();
    let mut cursors = HostCursors::new();
    let mut chan = FlagChannel::new();
    let missing = vec![Value::Text("missing".to_string()), Value::Int(0)];
    let broken = Analyzer::Bayesian(BayesianAnalyzer::new("broken".to_string(), &missing).unwrap());
    demux.add_analyzer("broken".to_string(), "cpu".to_string(), broken).unwrap();

    let host = "h1".to_string();
    let docs = vec![doc_with_value("h1", "cpu", 60, 1)];
    let r = process_host_results(&mut demux, &mut cursors, &host, &docs, &mut chan);
    assert_eq!(r, Err(TipupError::MissingPayloadField));
    assert_eq!(cursors.get(&host), 60);
}

#[test]
fn full_cycle_scenario_routes_and_advances() {
    // Analyzer a1 watches "cpu", a2 watches "disk". Host h1 has cursor 100
    // and the fetch hands three newer documents; a1 must see the cpu
    // documents in order, a2 the disk one, and the cursor must reach 150.
    let mut demux = Demultiplexor::new();
    let mut cursors = HostCursors::new();
    let mut chan = FlagChannel::new();
    demux.add_analyzer("a1".to_string(), "cpu".to_string(), flagging_analyzer("a1")).unwrap();
    demux.add_analyzer("a2".to_string(), "disk".to_string(), flagging_analyzer("a2")).unwrap();

    let host = "h1".to_string();
    cursors.advance(&host, 100);
    let docs = vec![
        doc_with_value("h1", "cpu", 150, 1),
        doc_with_value("h1", "disk", 120, 1),
        doc_with_value("h1", "cpu", 130, 1),
    ];
    let r = process_host_results(&mut demux, &mut cursors, &host, &docs, &mut chan);
    assert!(r.is_ok());
    assert_eq!(cursors.get(&host), 150);

    let mut manager = FlagManager::new();
    assert_eq!(manager.drain(&mut chan), 3);
    let flags = manager.processed_flags();
    let a1: Vec<i64> = flags.iter().filter(|f| f.analyzer_name == "a1").map(|f| f.timestamp).collect();
    let a2: Vec<i64> = flags.iter().filter(|f| f.analyzer_name == "a2").map(|f| f.timestamp).collect();
    assert_eq!(a1, vec![150, 130]);
    assert_eq!(a2, vec![120]);
}

fn duplicate_store(store: &Vec<ResultDocument>) -> Vec<ResultDocument> {
    store
        .iter()
            .map(|d| ResultDocument {
                hostname: d.hostname.clone(),
                measurement: d.measurement.clone(),
                timestamp: d.timestamp,
                payload: d
                    .payload
                    .iter()
                    .map(|f| DocField {
                        name: f.name.clone(),
                        value: match &f.value {
                            Value::Int(n) => Value::Int(*n),
                            Value::Text(s) => Value::Text(s.clone()),
                            Value::List(_) => panic!("not needed here"),
                        },
                    })
                    .collect(),
            })
        .collect()
}

use log_sentinel::distributed::{
    WorkerState,
    aggregate_worker_results,
    decode_frame_len,
    encode_frame,
    worker_step,
};
use log_sentinel::models::{AlertType, LogEntry, MasterMessage, Rule, RuleType, WorkerMessage};
use log_sentinel::parallel_analysis::run_parallel_analysis;
use log_sentinel::rules_engine::RulesEngine;
use log_sentinel::log_processor::{process_parallel, process_sequential};
use log_sentinel::sequential_analysis::{compute_rate, run_sequential_analysis};
use log_sentinel::threat_detection::ThreatDetector;

fn entry(ip: &str, user: Option<&str>, event: Option<&str>, ts: i64) -> LogEntry {
    LogEntry {
        raw_log: format!("{} event at {}", ip, ts),
        timestamp: Some(ts),
        ip_address: Some(ip.to_string()),
        user_id: user.map(|u| u.to_string()),
        event_type: event.map(|e| e.to_string()),
        level: None,
        message: None,
        extra: Vec::new(),
    }
}

fn hf_rule(window: u64, threshold: u64) -> Rule {
    Rule {
        id: "hf".to_string(),
        name: "high frequency".to_string(),
        pattern: String::new(),
        description: "too many requests".to_string(),
        alert_type: AlertType::HighFrequencyRequest,
        enabled: true,
        rule_type: RuleType::HighFrequencyRequest,
        time_window_seconds: Some(window),
        threshold: Some(threshold),
    }
}

fn custom_rule(name: &str, pattern: &str, label: &str) -> Rule {
    Rule {
        id: name.to_string(),
        name: name.to_string(),
        pattern: pattern.to_string(),
        description: format!("{} rule", name),
        alert_type: AlertType::Custom(label.to_string()),
        enabled: true,
        rule_type: RuleType::Custom(label.to_string()),
        time_window_seconds: None,
        threshold: None,
    }
}

#[test]
fn sequential_run_counts_and_detects() {
    let t: i64 = 1_700_000_000;
    let records: Vec<LogEntry> = (0..5).map(|k| entry("10.0.0.2", None, None, t + k)).collect();
    let metrics = run_sequential_analysis(records, vec![hf_rule(10, 5)]);
    assert_eq!(metrics.total_logs_processed, 5);
    assert_eq!(metrics.mode, "Sequential");
    assert_eq!(metrics.alerts_generated.len(), 1);
    assert_eq!(
        metrics.alerts_generated[0].description,
        "High-frequency requests detected from IP 10.0.0.2"
    );
}

#[test]
fn sequential_and_parallel_agree_on_partition_aligned_keys() {
    // Two IPs whose records sit in different partitions: the multiset of
    // alerts (ids aside) is identical between the two drivers.
    let t: i64 = 1_700_000_000;
    let mut records = Vec::new();
    for k in 0..3 {
        records.push(entry("10.0.0.1", None, None, t + k));
    }
    for k in 0..3 {
        records.push(entry("10.0.0.2", None, None, t + k));
    }
    let sequential = run_sequential_analysis(records.clone(), vec![hf_rule(100, 3)]);
    let parallel = run_parallel_analysis(records, vec![hf_rule(100, 3)], 2);
    assert_eq!(parallel.mode, "Parallel");
    assert_eq!(parallel.total_logs_processed, 6);
    let mut seq_alerts: Vec<(i64, String)> = sequential
        .alerts_generated
        .iter()
        .map(|a| (a.timestamp, a.description.clone()))
        .collect();
    let mut par_alerts: Vec<(i64, String)> = parallel
        .alerts_generated
        .iter()
        .map(|a| (a.timestamp, a.description.clone()))
        .collect();
    seq_alerts.sort();
    par_alerts.sort();
    assert_eq!(seq_alerts.len(), 2);
    assert_eq!(seq_alerts, par_alerts);
}

#[test]
fn rate_is_computed_exactly() {
    assert_eq!(compute_rate(1000, 500), 2000);
    assert_eq!(compute_rate(0, 100), 0);
    assert_eq!(compute_rate(7, 0), 0);
    assert_eq!(compute_rate(3, 2000), 1);
}

#[test]
fn rules_engine_assigns_padded_ids() {
    let mut engine = RulesEngine::new();
    for _ in 0..10 {
        engine.add_rule(custom_rule("noise", "x", "y"));
    }
    assert_eq!(engine.rules[0].id, "rule_001");
    assert_eq!(engine.rules[9].id, "rule_010");
}

#[test]
fn rules_engine_evaluates_all_matching_rules() {
    let mut engine = RulesEngine::new();
    engine.set_rules(vec![
        custom_rule("refused", "connection refused", "ConnectionError"),
        custom_rule("errors", "ERROR", "AnyError"),
        custom_rule("never", "no such text", "x"),
    ]);
    let e = LogEntry {
        raw_log: "ERROR connection refused by peer".to_string(),
        timestamp: None,
        ip_address: None,
        user_id: None,
        event_type: None,
        level: None,
        message: None,
        extra: Vec::new(),
    };
    let alerts = engine.evaluate_log_entry_at(&e, 42);
    assert_eq!(alerts.len(), 2);
    assert_eq!(alerts[0].description, "Rule 'refused' triggered: refused rule");
    assert_eq!(alerts[1].description, "Rule 'errors' triggered: errors rule");
    assert_eq!(alerts[0].timestamp, 42);
}

#[test]
fn custom_rule_outcome_depends_only_on_line_pattern_and_kind() {
    // Two rules sharing pattern and alert kind, on two records sharing the
    // raw line, fire identically whatever their other fields hold.
    let mut engine1 = RulesEngine::new();
    engine1.set_rules(vec![custom_rule("one", "refused", "Err")]);
    let mut engine2 = RulesEngine::new();
    let mut other = custom_rule("another name", "refused", "Err");
    other.description = "quite different".to_string();
    engine2.set_rules(vec![other]);
    let make = |ts: Option<i64>| LogEntry {
        raw_log: "connection refused".to_string(),
        timestamp: ts,
        ip_address: ts.map(|_| "10.9.9.9".to_string()),
        user_id: None,
        event_type: None,
        level: None,
        message: None,
        extra: Vec::new(),
    };
    let a1 = engine1.evaluate_log_entry_at(&make(Some(7)), 0);
    let a2 = engine2.evaluate_log_entry_at(&make(None), 99);
    assert_eq!(a1.len(), 1);
    assert_eq!(a2.len(), 1);
    assert!(matches!(a1[0].alert_type, AlertType::Custom(ref l) if l == "Err"));
    assert!(matches!(a2[0].alert_type, AlertType::Custom(ref l) if l == "Err"));
}

#[test]
fn process_drivers_report_counts_and_modes() {
    let mut engine = RulesEngine::new();
    engine.set_rules(vec![custom_rule("errors", "ERROR", "AnyError")]);
    let records: Vec<LogEntry> = (0..4)
        .map(|k| LogEntry {
            raw_log: if k % 2 == 0 { format!("ERROR {}", k) } else { format!("ok {}", k) },
            timestamp: None,
            ip_address: None,
            user_id: None,
            event_type: None,
            level: None,
            message: None,
            extra: Vec::new(),
        })
        .collect();
    let seq = process_sequential(records.clone(), &engine);
    assert_eq!(seq.total_logs_processed, 4);
    assert_eq!(seq.mode, "Sequential");
    assert_eq!(seq.alerts_generated.len(), 2);
    let par = process_parallel(records, &engine);
    assert_eq!(par.total_logs_processed, 4);
    assert_eq!(par.mode, "Parallel");
    assert_eq!(par.alerts_generated.len(), 2);
}

#[test]
fn frame_round_trip() {
    let body: Vec<u8> = b"{\"kind\":\"Ack\"}".to_vec();
    let framed = encode_frame(body.clone());
    assert_eq!(framed.len(), body.len() + 4);
    let header: Vec<u8> = framed[0..4].to_vec();
    assert_eq!(decode_frame_len(&header) as usize, body.len());
    assert_eq!(&framed[4..], &body[..]);
}

#[test]
fn frame_length_is_little_endian() {
    let body: Vec<u8> = vec![0u8; 258];
    let framed = encode_frame(body);
    assert_eq!(&framed[0..4], &[2u8, 1u8, 0u8, 0u8]);
}

#[test]
fn distributed_workers_aggregate_to_master_totals() {
    // Two workers, 100 records split 50/50 with partition-aligned keys, and
    // a rule that fires three times per partition: the master sees 100
    // records and 6 alerts.
    let t: i64 = 1_700_000_000;
    let rules = vec![hf_rule(10_000, 16)];
    let mut results = Vec::new();
    for (w, ip) in ["10.0.0.1", "10.0.0.2"].iter().enumerate() {
        let chunk: Vec<LogEntry> =
            (0..50).map(|k| entry(ip, None, None, t + k)).collect();
        let state = WorkerState::new();
        let (state, reply, done) = worker_step(
            state,
            WorkerMessage::Rules(rules.iter().map(clone_rule).collect()),
            t,
        );
        assert!(matches!(reply, MasterMessage::Ack));
        assert!(!done);
        let (state, reply, done) = worker_step(state, WorkerMessage::LogChunk(chunk), t);
        assert!(matches!(reply, MasterMessage::Ack));
        assert!(!done);
        let (_, reply, done) = worker_step(state, WorkerMessage::Shutdown, t);
        assert!(done);
        match reply {
            MasterMessage::AnalysisResult(m) => {
                assert_eq!(m.total_logs_processed, 50);
                assert_eq!(m.alerts_generated.len(), 3, "worker {}", w);
                assert_eq!(m.mode, "Distributed Worker");
                results.push(m);
            },
            _ => panic!("shutdown must return a result"),
        }
    }
    let (total, alerts) = aggregate_worker_results(results);
    assert_eq!(total, 100);
    assert_eq!(alerts.len(), 6);
}

#[test]
fn worker_ignores_chunks_before_rules() {
    let t: i64 = 1_700_000_000;
    let chunk: Vec<LogEntry> = (0..3).map(|k| entry("10.0.0.1", None, None, t + k)).collect();
    let state = WorkerState::new();
    let (state, reply, done) = worker_step(state, WorkerMessage::LogChunk(chunk), t);
    assert!(matches!(reply, MasterMessage::Ack));
    assert!(!done);
    let (_, reply, _) = worker_step(state, WorkerMessage::Shutdown, t);
    match reply {
        MasterMessage::AnalysisResult(m) => {
            assert_eq!(m.total_logs_processed, 3);
            assert!(m.alerts_generated.is_empty());
        },
        _ => panic!("shutdown must return a result"),
    }
}

#[test]
fn detectors_share_nothing_across_instances() {
    let t: i64 = 1_700_000_000;
    let mut d1 = ThreatDetector::new(vec![hf_rule(100, 2)]);
    let mut d2 = ThreatDetector::new(vec![hf_rule(100, 2)]);
    let e = entry("10.0.0.1", None, None, t);
    assert!(d1.detect_threats_at(&e, t).is_none());
    // A private detector starts fresh: the other instance saw nothing.
    assert!(d2.detect_threats_at(&e, t).is_none());
    assert!(d1.detect_threats_at(&e, t).is_some());
}

fn clone_rule(r: &Rule) -> Rule {
    r.clone()
}

#[test]
fn empty_input_produces_empty_metrics() {
    let seq = run_sequential_analysis(Vec::new(), vec![hf_rule(10, 1)]);
    assert_eq!(seq.total_logs_processed, 0);
    assert!(seq.alerts_generated.is_empty());
    let par = run_parallel_analysis(Vec::new(), vec![hf_rule(10, 1)], 4);
    assert_eq!(par.total_logs_processed, 0);
    assert!(par.alerts_generated.is_empty());
}

#[test]
fn rule_ids_grow_past_three_digits() {
    let mut engine = RulesEngine::new();
    for _ in 0..1000 {
        engine.add_rule(custom_rule("noise", "x", "y"));
    }
    assert_eq!(engine.rules[99].id, "rule_100");
    assert_eq!(engine.rules[999].id, "rule_1000");
}

#[test]
fn disabled_engine_rules_do_not_fire() {
    let mut engine = RulesEngine::new();
    let mut r = custom_rule("off", "ERROR", "x");
    r.enabled = false;
    engine.set_rules(vec![r]);
    let e = LogEntry {
        raw_log: "ERROR everywhere".to_string(),
        timestamp: None,
        ip_address: None,
        user_id: None,
        event_type: None,
        level: None,
        message: None,
        extra: Vec::new(),
    };
    assert!(engine.evaluate_log_entry_at(&e, 0).is_empty());
}

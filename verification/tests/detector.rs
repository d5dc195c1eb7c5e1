use log_sentinel::models::{AlertType, LogEntry, Rule, RuleType};
use log_sentinel::threat_detection::ThreatDetector;

fn entry(ip: &str, user: Option<&str>, event: Option<&str>, ts: i64) -> LogEntry {
    LogEntry {
        raw_log: format!("{} event at {}", ip, ts),
        timestamp: Some(ts),
        ip_address: Some(ip.to_string()),
        user_id: user.map(|u| u.to_string()),
        event_type: event.map(|e| e.to_string()),
        level: None,
        message: None,
        extra: Vec::new(),
    }
}

fn rule(kind: RuleType, alert: AlertType, window: Option<u64>, threshold: Option<u64>) -> Rule {
    Rule {
        id: "r1".to_string(),
        name: "test rule".to_string(),
        pattern: String::new(),
        description: "a test rule".to_string(),
        alert_type: alert,
        enabled: true,
        rule_type: kind,
        time_window_seconds: window,
        threshold,
    }
}

#[test]
fn brute_force_fires_on_threshold() {
    let r = rule(RuleType::BruteForce, AlertType::BruteForce, Some(300), Some(3));
    let mut detector = ThreatDetector::new(vec![r]);
    let t: i64 = 1_700_000_000;
    let e1 = entry("10.0.0.1", Some("alice"), Some("login_failed"), t);
    let e2 = entry("10.0.0.1", Some("alice"), Some("login_failed"), t + 60);
    let e3 = entry("10.0.0.1", Some("alice"), Some("login_failed"), t + 120);
    let e4 = entry("10.0.0.1", Some("alice"), Some("login_failed"), t + 180);
    assert!(detector.detect_threats_at(&e1, t).is_none());
    assert!(detector.detect_threats_at(&e2, t + 60).is_none());
    let alert = detector.detect_threats_at(&e3, t + 120).expect("third event must fire");
    assert!(matches!(alert.alert_type, AlertType::BruteForce));
    assert_eq!(
        alert.description,
        "Brute-force attempt detected from IP 10.0.0.1 for user alice"
    );
    assert_eq!(alert.timestamp, t + 120);
    let sample = alert.log_entry_sample.expect("alert carries the record");
    assert_eq!(sample.raw_log, e3.raw_log);
    // The key was evicted on fire: an identical fourth event does not fire.
    assert!(detector.detect_threats_at(&e4, t + 180).is_none());
}

#[test]
fn brute_force_needs_event_type_ip_and_user() {
    let r = rule(RuleType::BruteForce, AlertType::BruteForce, Some(300), Some(1));
    let mut detector = ThreatDetector::new(vec![r]);
    let t: i64 = 1_700_000_000;
    let mut no_user = entry("10.0.0.1", None, Some("login_failed"), t);
    no_user.user_id = None;
    assert!(detector.detect_threats_at(&no_user, t).is_none());
    let wrong_event = entry("10.0.0.1", Some("alice"), Some("login_ok"), t);
    assert!(detector.detect_threats_at(&wrong_event, t).is_none());
    let fires = entry("10.0.0.1", Some("alice"), Some("login_failed"), t);
    assert!(detector.detect_threats_at(&fires, t).is_some());
}

#[test]
fn window_reset_prevents_alert() {
    let r = rule(RuleType::BruteForce, AlertType::BruteForce, Some(300), Some(3));
    let mut detector = ThreatDetector::new(vec![r]);
    let t: i64 = 1_700_000_000;
    let e1 = entry("10.0.0.1", Some("alice"), Some("login_failed"), t);
    let e2 = entry("10.0.0.1", Some("alice"), Some("login_failed"), t + 299);
    let e3 = entry("10.0.0.1", Some("alice"), Some("login_failed"), t + 600);
    assert!(detector.detect_threats_at(&e1, t).is_none());
    assert!(detector.detect_threats_at(&e2, t + 299).is_none());
    // The gap from t+299 to t+600 is >= 300, so the counter restarts at 1.
    assert!(detector.detect_threats_at(&e3, t + 600).is_none());
}

#[test]
fn high_frequency_fires_on_fifth() {
    let r = rule(
        RuleType::HighFrequencyRequest,
        AlertType::HighFrequencyRequest,
        Some(10),
        Some(5),
    );
    let mut detector = ThreatDetector::new(vec![r]);
    let t: i64 = 1_700_000_000;
    for k in 0..4 {
        let e = entry("10.0.0.2", None, None, t + k);
        assert!(detector.detect_threats_at(&e, t + k).is_none());
    }
    let e5 = entry("10.0.0.2", None, None, t + 4);
    let alert = detector.detect_threats_at(&e5, t + 4).expect("fifth request must fire");
    assert!(matches!(alert.alert_type, AlertType::HighFrequencyRequest));
    assert_eq!(alert.description, "High-frequency requests detected from IP 10.0.0.2");
}

#[test]
fn suspicious_ip_fires_on_distinct_event_types() {
    let r = rule(RuleType::SuspiciousIp, AlertType::SuspiciousIp, Some(60), Some(3));
    let mut detector = ThreatDetector::new(vec![r]);
    let t: i64 = 1_700_000_000;
    let e1 = entry("10.0.0.3", None, Some("login_failed"), t);
    let e2 = entry("10.0.0.3", None, Some("port_scan"), t + 5);
    let e3 = entry("10.0.0.3", None, Some("file_access"), t + 10);
    assert!(detector.detect_threats_at(&e1, t).is_none());
    assert!(detector.detect_threats_at(&e2, t + 5).is_none());
    let alert = detector.detect_threats_at(&e3, t + 10).expect("third event type must fire");
    assert!(matches!(alert.alert_type, AlertType::SuspiciousIp));
    assert_eq!(
        alert.description,
        "Suspicious IP behavior detected from IP 10.0.0.3: multiple event types"
    );
}

#[test]
fn suspicious_ip_repeated_event_type_does_not_fire() {
    let r = rule(RuleType::SuspiciousIp, AlertType::SuspiciousIp, Some(60), Some(3));
    let mut detector = ThreatDetector::new(vec![r]);
    let t: i64 = 1_700_000_000;
    for k in 0..5 {
        let e = entry("10.0.0.3", None, Some("login_failed"), t + k);
        assert!(detector.detect_threats_at(&e, t + k).is_none());
    }
}

#[test]
fn custom_rule_fires_on_regex_match() {
    let mut r = rule(
        RuleType::Custom("x".to_string()),
        AlertType::Custom("ConnectionError".to_string()),
        None,
        None,
    );
    r.pattern = "connection refused".to_string();
    let mut detector = ThreatDetector::new(vec![r]);
    let line = "[2024-01-01T00:00:00Z] ERROR 10.0.0.4 connection refused";
    let e = LogEntry {
        raw_log: line.to_string(),
        timestamp: Some(1_700_000_000),
        ip_address: Some("10.0.0.4".to_string()),
        user_id: None,
        event_type: None,
        level: None,
        message: None,
        extra: Vec::new(),
    };
    let alert = detector.detect_threats_at(&e, 0).expect("pattern must match");
    assert!(matches!(alert.alert_type, AlertType::Custom(ref label) if label == "ConnectionError"));
    assert!(alert.description.starts_with("Rule '"));
    assert_eq!(alert.description, "Rule 'test rule' triggered: a test rule");
    assert_eq!(alert.log_entry_sample.unwrap().raw_log, line);
}

#[test]
fn custom_rule_invalid_pattern_is_skipped() {
    let mut r = rule(
        RuleType::Custom("x".to_string()),
        AlertType::Custom("x".to_string()),
        None,
        None,
    );
    r.pattern = "foo(bar".to_string();
    let mut detector = ThreatDetector::new(vec![r]);
    let e = entry("10.0.0.4", None, None, 0);
    assert!(detector.detect_threats_at(&e, 0).is_none());
}

#[test]
fn disabled_rules_are_never_evaluated() {
    let mut r = rule(
        RuleType::HighFrequencyRequest,
        AlertType::HighFrequencyRequest,
        Some(10),
        Some(1),
    );
    r.enabled = false;
    let mut detector = ThreatDetector::new(vec![r]);
    let t: i64 = 1_700_000_000;
    let e = entry("10.0.0.2", None, None, t);
    assert!(detector.detect_threats_at(&e, t).is_none());
}

#[test]
fn first_alert_only_is_emitted() {
    // Both a high-frequency rule and a suspicious-IP rule would fire on the
    // same record; only the first in declared order is emitted.
    let hf = rule(
        RuleType::HighFrequencyRequest,
        AlertType::HighFrequencyRequest,
        Some(10),
        Some(1),
    );
    let si = rule(RuleType::SuspiciousIp, AlertType::SuspiciousIp, Some(10), Some(1));
    let mut detector = ThreatDetector::new(vec![hf, si]);
    let t: i64 = 1_700_000_000;
    let e = entry("10.0.0.9", None, Some("ping"), t);
    let alert = detector.detect_threats_at(&e, t).expect("the first rule fires");
    assert!(matches!(alert.alert_type, AlertType::HighFrequencyRequest));
}

#[test]
fn eviction_allows_refire_after_threshold_fresh_events() {
    let r = rule(RuleType::BruteForce, AlertType::BruteForce, Some(300), Some(2));
    let mut detector = ThreatDetector::new(vec![r]);
    let t: i64 = 1_700_000_000;
    for round in 0..3 {
        let base = t + round * 10;
        let e1 = entry("10.0.0.1", Some("bob"), Some("login_failed"), base);
        let e2 = entry("10.0.0.1", Some("bob"), Some("login_failed"), base + 1);
        assert!(detector.detect_threats_at(&e1, base).is_none());
        assert!(detector.detect_threats_at(&e2, base + 1).is_some());
    }
}

#[test]
fn missing_timestamp_uses_the_supplied_instant() {
    let r = rule(
        RuleType::HighFrequencyRequest,
        AlertType::HighFrequencyRequest,
        Some(10),
        Some(2),
    );
    let mut detector = ThreatDetector::new(vec![r]);
    let mut e = entry("10.0.0.5", None, None, 0);
    e.timestamp = None;
    let now: i64 = 1_700_000_000;
    assert!(detector.detect_threats_at(&e, now).is_none());
    let alert = detector.detect_threats_at(&e, now + 1).expect("second event fires");
    assert_eq!(alert.timestamp, now + 1);
}

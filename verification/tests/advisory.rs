use log_sentinel::ai_module::{explain_log_entry, generate_rule_from_description};
use log_sentinel::models::{AlertType, LogEntry, RuleType};

fn line_entry(raw: &str) -> LogEntry {
    LogEntry {
        raw_log: raw.to_string(),
        timestamp: None,
        ip_address: None,
        user_id: None,
        event_type: None,
        level: None,
        message: None,
        extra: Vec::new(),
    }
}

#[test]
fn explains_authentication_failures_and_suggests_a_rule() {
    let r = explain_log_entry(&line_entry("ERROR authentication failed for bob"));
    assert!(r.explanation.starts_with(
        "This log entry indicates an error or a failure event."
    ));
    assert!(r.explanation.contains("authentication failure"));
    assert_eq!(r.suggested_rules.len(), 1);
    assert_eq!(r.suggested_rules[0].id, "auth_fail_rule");
    assert!(matches!(r.suggested_rules[0].rule_type, RuleType::BruteForce));
    assert_eq!(r.suggested_rules[0].time_window_seconds, Some(300));
    assert_eq!(r.suggested_rules[0].threshold, Some(5));
}

#[test]
fn explains_connection_refused() {
    let r = explain_log_entry(&line_entry("ERROR connection refused by upstream"));
    assert!(r.explanation.contains("connection issue"));
    assert_eq!(r.suggested_rules.len(), 1);
    assert_eq!(r.suggested_rules[0].id, "conn_refused_rule");
    assert!(
        matches!(r.suggested_rules[0].alert_type, AlertType::Custom(ref l) if l == "ConnectionError")
    );
}

#[test]
fn explains_warnings_infos_and_denials() {
    let warn = explain_log_entry(&line_entry("WARN disk almost full"));
    assert!(warn.explanation.contains("warning"));
    assert!(warn.suggested_rules.is_empty());

    let info = explain_log_entry(&line_entry("INFO login successful for carol"));
    assert!(info.explanation.contains("informational"));
    assert!(info.explanation.contains("successfully logged in"));
    assert!(info.suggested_rules.is_empty());

    let denied = explain_log_entry(&line_entry("access denied on /admin"));
    assert!(denied.explanation.contains("access control issue"));
    assert_eq!(denied.suggested_rules.len(), 1);
    assert_eq!(denied.suggested_rules[0].id, "access_denied_rule");
}

#[test]
fn unrecognised_lines_get_the_generic_explanation() {
    let raw = "something entirely unremarkable";
    let r = explain_log_entry(&line_entry(raw));
    assert_eq!(
        r.explanation,
        format!(
            "This log entry: \"{}\" does not match any specific known patterns, but appears to be a general system message.",
            raw
        )
    );
    assert!(r.suggested_rules.is_empty());
}

#[test]
fn generates_a_rule_from_a_recognised_request() {
    let r = generate_rule_from_description("Alert on outages if log contains 'connection refused'")
        .expect("the request has the recognised shape");
    assert_eq!(r.pattern, "connection refused");
    assert_eq!(r.name, "Generated Rule: connection refused");
    assert_eq!(r.description, "Alert on outages if log contains 'connection refused'");
    assert!(r.enabled);
    assert!(r.id.starts_with("generated_rule_"));
    assert!(matches!(r.rule_type, RuleType::Custom(ref l) if l == "generated"));
    assert!(matches!(r.alert_type, AlertType::Custom(ref l) if l == "GeneratedAlert"));
    assert_eq!(r.time_window_seconds, None);
    assert_eq!(r.threshold, None);
}

#[test]
fn generation_lowercases_the_request() {
    // The whole request is lowercased before the markers are searched, so an
    // upper-case request is recognised and the pattern comes out lower-case.
    let r = generate_rule_from_description("ALERT ON NOISE IF LOG CONTAINS 'TIMEOUT'")
        .expect("markers are found after lowercasing");
    assert_eq!(r.pattern, "timeout");
}

#[test]
fn generation_rejects_requests_without_the_markers() {
    assert!(generate_rule_from_description("please watch for timeouts").is_none());
    assert!(generate_rule_from_description("alert on timeouts").is_none());
    assert!(generate_rule_from_description("if log contains 'x'").is_none());
    // Both markers present but nothing usable follows the second one.
    assert!(generate_rule_from_description("alert on x if log contains ''").is_none());
    assert!(generate_rule_from_description("alert on x if log contains   ").is_none());
}

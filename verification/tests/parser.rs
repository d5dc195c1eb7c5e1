use log_sentinel::log_parser::parse_log_entry;
use log_sentinel::log_processor::{parse_line, parse_log_content};
use log_sentinel::models::ParsingRule;
use log_sentinel::timeutil::normalize_timestamp;

fn parsing_rule(name: &str, pattern: &str, map: &[(&str, &str)], default: bool) -> ParsingRule {
    ParsingRule {
        name: name.to_string(),
        pattern: pattern.to_string(),
        field_map: map.iter().map(|(g, f)| (g.to_string(), f.to_string())).collect(),
        default,
    }
}

#[test]
fn parse_log_entry_reads_bracketed_line() {
    // The shape needs two "] " separators: timestamp, level, then the
    // white-space-separated payload.
    let line =
        "[2023-10-27T10:00:00Z] [INFO] 192.168.1.1 user_id=testuser event=login_failed details=bad";
    let e = parse_log_entry(line).expect("well-formed line parses");
    let expected_ts = chrono::DateTime::parse_from_rfc3339("2023-10-27T10:00:00Z")
        .unwrap()
        .with_timezone(&chrono::Utc)
        .timestamp();
    assert_eq!(e.timestamp, Some(expected_ts));
    assert_eq!(e.ip_address.as_deref(), Some("192.168.1.1"));
    assert_eq!(e.user_id.as_deref(), Some("testuser"));
    assert_eq!(e.event_type.as_deref(), Some("login_failed"));
    assert_eq!(e.message.as_deref(), Some("bad"));
    assert_eq!(e.level, None);
    assert_eq!(e.raw_log, line);
    assert!(e.extra.is_empty());
}

#[test]
fn parse_log_entry_rejects_malformed_lines() {
    assert!(parse_log_entry("no separators here").is_none());
    // A single separator is not enough.
    assert!(parse_log_entry("[2023-10-27T10:00:00Z] INFO 10.0.0.1 event=x").is_none());
    assert!(parse_log_entry("[not-a-timestamp] [INFO] 10.0.0.1 event=x").is_none());
    assert!(parse_log_entry("[2023-10-27T10:00:00Z] [INFO] ").is_none());
}

#[test]
fn parser_first_match_wins() {
    // Both non-default rules match; the record is populated exclusively from
    // the first in declared order.
    let first = parsing_rule(
        "levels",
        r"(?P<level>ERROR|INFO)",
        &[("level", "level")],
        false,
    );
    let second = parsing_rule(
        "messages",
        r"(?P<message>ERROR.*)",
        &[("message", "message")],
        false,
    );
    let rules = vec![first, second];
    let record = parse_line(&rules, "ERROR something went wrong");
    assert_eq!(record.level.as_deref(), Some("ERROR"));
    assert_eq!(record.message, None);
}

#[test]
fn default_rules_are_tried_last() {
    let fallback = parsing_rule("fallback", r"(?P<message>.*)", &[("message", "message")], true);
    let specific = parsing_rule(
        "specific",
        r"ip=(?P<ip>[0-9.]+)",
        &[("ip", "ip_address")],
        false,
    );
    let rules = vec![fallback, specific];
    // The specific rule matches, so the default one contributes nothing.
    let record = parse_line(&rules, "ip=10.0.0.1");
    assert_eq!(record.ip_address.as_deref(), Some("10.0.0.1"));
    assert_eq!(record.message, None);
    // No non-default rule matches, so the default one applies.
    let record = parse_line(&rules, "nothing to see");
    assert_eq!(record.ip_address, None);
    assert_eq!(record.message.as_deref(), Some("nothing to see"));
}

#[test]
fn unmatched_line_keeps_only_raw_log() {
    let specific = parsing_rule(
        "specific",
        r"ip=(?P<ip>[0-9.]+)",
        &[("ip", "ip_address")],
        false,
    );
    let rules = vec![specific];
    let record = parse_line(&rules, "no ip here");
    assert_eq!(record.raw_log, "no ip here");
    assert_eq!(record.ip_address, None);
    assert_eq!(record.timestamp, None);
    assert!(record.extra.is_empty());
}

#[test]
fn unmapped_capture_goes_to_extras() {
    let r = parsing_rule(
        "kv",
        r"session=(?P<session>\w+)",
        &[("session", "session_id")],
        false,
    );
    let rules = vec![r];
    let record = parse_line(&rules, "session=abc42");
    assert_eq!(record.extra, vec![("session_id".to_string(), "abc42".to_string())]);
}

#[test]
fn parse_log_content_yields_one_record_per_line() {
    let r = parsing_rule(
        "kv",
        r"ip=(?P<ip>[0-9.]+)",
        &[("ip", "ip_address")],
        false,
    );
    let rules = vec![r];
    let content = "ip=10.0.0.1\nunmatched\r\nip=10.0.0.2\n";
    let records = parse_log_content(content, &rules);
    assert_eq!(records.len(), 3);
    assert_eq!(records[0].ip_address.as_deref(), Some("10.0.0.1"));
    assert_eq!(records[0].raw_log, "ip=10.0.0.1");
    assert_eq!(records[1].ip_address, None);
    assert_eq!(records[1].raw_log, "unmatched");
    assert_eq!(records[2].ip_address.as_deref(), Some("10.0.0.2"));
}

#[test]
fn parse_log_content_normalises_timestamps() {
    let r = parsing_rule(
        "ts",
        r"^(?P<ts>[0-9-]+ [0-9:]+) (?P<message>.*)$",
        &[("ts", "timestamp"), ("message", "message")],
        false,
    );
    let rules = vec![r];
    let records = parse_log_content("2024-01-02 03:04:05 hello", &rules);
    assert_eq!(records.len(), 1);
    let expected = chrono::NaiveDateTime::parse_from_str("2024-01-02 03:04:05", "%Y-%m-%d %H:%M:%S")
        .unwrap()
        .and_utc()
        .timestamp();
    assert_eq!(records[0].timestamp, Some(expected));
    assert_eq!(records[0].message.as_deref(), Some("hello"));
}

#[test]
fn timestamp_round_trip_per_supported_format() {
    // For each supported format that chrono can read back, formatting an
    // instant and normalising the text preserves the instant.
    let instant: i64 = 1_706_788_245;
    let dt = chrono::DateTime::<chrono::Utc>::from_timestamp(instant, 0).unwrap();
    let formats = [
        "%Y-%m-%dT%H:%M:%S%.3fZ",
        "%Y-%m-%dT%H:%M:%S%:z",
        "%Y-%m-%d %H:%M:%S",
        "%Y/%m/%d %H:%M:%S",
    ];
    for format in formats {
        let text = dt.format(format).to_string();
        assert_eq!(
            normalize_timestamp(&text),
            Some(instant),
            "round trip failed for {}",
            format
        );
    }
}

#[test]
fn syslog_format_lacks_a_year_and_cannot_round_trip() {
    // The syslog-like format carries no year, so chrono cannot rebuild an
    // instant from it; normalisation reports failure rather than guessing.
    let instant: i64 = 1_706_788_245;
    let dt = chrono::DateTime::<chrono::Utc>::from_timestamp(instant, 0).unwrap();
    let text = dt.format("%b %d %H:%M:%S").to_string();
    assert_eq!(normalize_timestamp(&text), None);
}

#[test]
fn unparseable_timestamp_stays_absent() {
    assert_eq!(normalize_timestamp("not a timestamp"), None);
    let r = parsing_rule(
        "ts",
        r"^(?P<ts>\S+)",
        &[("ts", "timestamp")],
        false,
    );
    let rules = vec![r];
    let records = parse_log_content("garbage", &rules);
    assert_eq!(records[0].timestamp, None);
}

#[test]
fn normalize_prefers_the_first_format() {
    // A string both RFC 3339-like formats accept: the first one wins; both
    // agree on the instant here, which pins the first-success policy.
    let parsed = normalize_timestamp("2024-01-02T03:04:05.250Z").unwrap();
    let expected = chrono::NaiveDateTime::parse_from_str(
        "2024-01-02T03:04:05.250Z",
        "%Y-%m-%dT%H:%M:%S%.3fZ",
    )
    .unwrap()
    .and_utc()
    .timestamp();
    assert_eq!(parsed, expected);
}

//! Heuristic advice about log lines: a plain-text explanation driven by
//! substring checks, suggested rules for common incident shapes, and a rule
//! generator that reads a lowercased free-text request.

use vstd::prelude::*;
use vstd::string::StringExecFns;
use crate::models::{AlertType, AlertTypeV, LogEntry, Rule, RuleType, RuleTypeV, RuleV};
use crate::text::{
    contains_seq,
    contains_sub,
    first_occurrence_from,
    find_from,
    has_prefix,
    lemma_first_occurrence_charac,
    trim_char_exec,
    trim_char_spec,
    trim_exec,
    trim_spec,
};
use crate::utils::new_uuid_string;

verus! {

/// An explanation of a log entry, with rules worth enabling for it.
pub struct AiExplanation {
    pub explanation: String,
    pub suggested_rules: Vec<Rule>,
}

/// The rule suggested for repeated authentication failures.
pub open spec fn auth_fail_rule_v() -> RuleV {
    RuleV {
        id: "auth_fail_rule"@,
        name: "Authentication Failure"@,
        pattern: "authentication failed"@,
        description: "Alert on repeated authentication failures."@,
        alert_type: AlertTypeV::BruteForce,
        enabled: true,
        rule_type: RuleTypeV::BruteForce,
        time_window_seconds: Some(300u64),
        threshold: Some(5u64),
    }
}

/// The rule suggested for connection-refused errors.
pub open spec fn conn_refused_rule_v() -> RuleV {
    RuleV {
        id: "conn_refused_rule"@,
        name: "Connection Refused"@,
        pattern: "connection refused"@,
        description: "Alert on connection refused errors."@,
        alert_type: AlertTypeV::Custom("ConnectionError"@),
        enabled: true,
        rule_type: RuleTypeV::Custom("connection_error"@),
        time_window_seconds: None,
        threshold: None,
    }
}

/// The rule suggested for denied or unauthorized access.
pub open spec fn access_denied_rule_v() -> RuleV {
    RuleV {
        id: "access_denied_rule"@,
        name: "Access Denied/Unauthorized"@,
        pattern: "access denied|unauthorized"@,
        description: "Alert on access denied or unauthorized attempts."@,
        alert_type: AlertTypeV::Custom("AccessControl"@),
        enabled: true,
        rule_type: RuleTypeV::Custom("access_control"@),
        time_window_seconds: None,
        threshold: None,
    }
}

/// The explanation text for a raw line, decided by substring checks in a
/// fixed order.
pub open spec fn explanation_of(raw: Seq<char>) -> Seq<char> {
    if contains_seq(raw, "ERROR"@) || contains_seq(raw, "failed"@) {
        let base =
            "This log entry indicates an error or a failure event. It's critical and requires immediate attention."@;
        if contains_seq(raw, "authentication"@) {
            base
                + " Specifically, it seems to be an authentication failure, possibly due to incorrect credentials or an unauthorized access attempt."@
        } else if contains_seq(raw, "connection refused"@) {
            base
                + " The error suggests a connection issue, where a client was unable to establish a connection to a service."@
        } else {
            base
        }
    } else if contains_seq(raw, "WARN"@) || contains_seq(raw, "warning"@) {
        "This log entry indicates a warning. While not critical, it suggests a potential issue that might lead to problems if not addressed."@
    } else if contains_seq(raw, "INFO"@) || contains_seq(raw, "success"@) {
        let base =
            "This is an informational log entry, indicating a normal operation or a successful event."@;
        if contains_seq(raw, "login successful"@) {
            base + " A user has successfully logged in."@
        } else {
            base
        }
    } else if contains_seq(raw, "denied"@) || contains_seq(raw, "unauthorized"@) {
        "This log entry indicates an access control issue, where an operation was denied due to insufficient permissions or unauthorized access."@
    } else {
        "This log entry: \""@ + raw
            + "\" does not match any specific known patterns, but appears to be a general system message."@
    }
}

/// The rules suggested for a raw line, under the same checks.
pub open spec fn suggested_rules_of(raw: Seq<char>) -> Seq<RuleV> {
    if contains_seq(raw, "ERROR"@) || contains_seq(raw, "failed"@) {
        if contains_seq(raw, "authentication"@) {
            seq![auth_fail_rule_v()]
        } else if contains_seq(raw, "connection refused"@) {
            seq![conn_refused_rule_v()]
        } else {
            Seq::empty()
        }
    } else if contains_seq(raw, "WARN"@) || contains_seq(raw, "warning"@) {
        Seq::empty()
    } else if contains_seq(raw, "INFO"@) || contains_seq(raw, "success"@) {
        Seq::empty()
    } else if contains_seq(raw, "denied"@) || contains_seq(raw, "unauthorized"@) {
        seq![access_denied_rule_v()]
    } else {
        Seq::empty()
    }
}

fn make_auth_fail_rule() -> (r: Rule)
    ensures
        r@ == auth_fail_rule_v(),
{
    Rule {
        id: "auth_fail_rule".to_owned(),
        name: "Authentication Failure".to_owned(),
        pattern: "authentication failed".to_owned(),
        description: "Alert on repeated authentication failures.".to_owned(),
        alert_type: AlertType::BruteForce,
        enabled: true,
        rule_type: RuleType::BruteForce,
        time_window_seconds: Some(300),
        threshold: Some(5),
    }
}

fn make_conn_refused_rule() -> (r: Rule)
    ensures
        r@ == conn_refused_rule_v(),
{
    Rule {
        id: "conn_refused_rule".to_owned(),
        name: "Connection Refused".to_owned(),
        pattern: "connection refused".to_owned(),
        description: "Alert on connection refused errors.".to_owned(),
        alert_type: AlertType::Custom("ConnectionError".to_owned()),
        enabled: true,
        rule_type: RuleType::Custom("connection_error".to_owned()),
        time_window_seconds: None,
        threshold: None,
    }
}

fn make_access_denied_rule() -> (r: Rule)
    ensures
        r@ == access_denied_rule_v(),
{
    Rule {
        id: "access_denied_rule".to_owned(),
        name: "Access Denied/Unauthorized".to_owned(),
        pattern: "access denied|unauthorized".to_owned(),
        description: "Alert on access denied or unauthorized attempts.".to_owned(),
        alert_type: AlertType::Custom("AccessControl".to_owned()),
        enabled: true,
        rule_type: RuleType::Custom("access_control".to_owned()),
        time_window_seconds: None,
        threshold: None,
    }
}

/// Explains a log entry from fixed substring checks on its raw line and
/// suggests rules for the incident shapes it recognises.
pub fn explain_log_entry(log_entry: &LogEntry) -> (r: AiExplanation)
    ensures
        r.explanation@ == explanation_of(log_entry.raw_log@),
        r.suggested_rules.deep_view() == suggested_rules_of(log_entry.raw_log@),
{
    let raw = log_entry.raw_log.as_str();
    let mut suggested_rules: Vec<Rule> = Vec::new();
    let explanation: String;
    if contains_sub(raw, "ERROR") || contains_sub(raw, "failed") {
        let mut text =
            "This log entry indicates an error or a failure event. It's critical and requires immediate attention.".to_owned();
        if contains_sub(raw, "authentication") {
            text.append(
                " Specifically, it seems to be an authentication failure, possibly due to incorrect credentials or an unauthorized access attempt.",
            );
            suggested_rules.push(make_auth_fail_rule());
            proof {
                assert(suggested_rules.deep_view() =~= seq![auth_fail_rule_v()]);
            }
        } else if contains_sub(raw, "connection refused") {
            text.append(
                " The error suggests a connection issue, where a client was unable to establish a connection to a service.",
            );
            suggested_rules.push(make_conn_refused_rule());
            proof {
                assert(suggested_rules.deep_view() =~= seq![conn_refused_rule_v()]);
            }
        } else {
            proof {
                assert(suggested_rules.deep_view() =~= Seq::<RuleV>::empty());
            }
        }
        explanation = text;
    } else if contains_sub(raw, "WARN") || contains_sub(raw, "warning") {
        explanation =
            "This log entry indicates a warning. While not critical, it suggests a potential issue that might lead to problems if not addressed.".to_owned();
        proof {
            assert(suggested_rules.deep_view() =~= Seq::<RuleV>::empty());
        }
    } else if contains_sub(raw, "INFO") || contains_sub(raw, "success") {
        let mut text =
            "This is an informational log entry, indicating a normal operation or a successful event.".to_owned();
        if contains_sub(raw, "login successful") {
            text.append(" A user has successfully logged in.");
        }
        explanation = text;
        proof {
            assert(suggested_rules.deep_view() =~= Seq::<RuleV>::empty());
        }
    } else if contains_sub(raw, "denied") || contains_sub(raw, "unauthorized") {
        explanation =
            "This log entry indicates an access control issue, where an operation was denied due to insufficient permissions or unauthorized access.".to_owned();
        suggested_rules.push(make_access_denied_rule());
        proof {
            assert(suggested_rules.deep_view() =~= seq![access_denied_rule_v()]);
        }
    } else {
        let mut text = "This log entry: \"".to_owned();
        text.append(raw);
        text.append(
            "\" does not match any specific known patterns, but appears to be a general system message.",
        );
        explanation = text;
        proof {
            assert(suggested_rules.deep_view() =~= Seq::<RuleV>::empty());
        }
    }
    AiExplanation { explanation, suggested_rules }
}

/// The segment of `s` between the first and second occurrence of `sep`, or
/// after the first occurrence when there is no second.
pub open spec fn split_second_segment(s: Seq<char>, sep: Seq<char>) -> Option<Seq<char>> {
    match first_occurrence_from(s, sep, 0) {
        None => None,
        Some(p) => {
            let start = p + sep.len();
            match first_occurrence_from(s, sep, start as int) {
                Some(q) => Some(s.subrange(start as int, q)),
                None => Some(s.subrange(start as int, s.len() as int)),
            }
        },
    }
}

/// What the rule generator extracts from the lowercased request: the text
/// between the first two `"if log contains"` markers (or after a lone one),
/// trimmed of white space and quotes — provided the request holds both
/// `"alert on"` and `"if log contains"` and the extract is non-empty.
pub open spec fn generated_pattern_of(lower: Seq<char>) -> Option<Seq<char>> {
    if contains_seq(lower, "alert on"@) && contains_seq(lower, "if log contains"@) {
        match split_second_segment(lower, "if log contains"@) {
            Some(seg) => {
                let p = trim_char_spec(trim_spec(seg), '\'');
                if p.len() > 0 {
                    Some(p)
                } else {
                    None
                }
            },
            None => None,
        }
    } else {
        None
    }
}

/// Builds a custom rule from a free-text request of the shape
/// `alert on ... if log contains '...'`. The request is lowercased first, so
/// the generated pattern is in lower case.
pub fn generate_rule_from_description(description: &str) -> (r: Option<Rule>)
    ensures
        match r {
            Some(rule) => {
                &&& generated_pattern_of(crate::text::lower_of(description@)) == Some(
                    rule.pattern@,
                )
                &&& rule.name@ == "Generated Rule: "@ + rule.pattern@
                &&& rule.description@ == description@
                &&& rule.enabled
                &&& rule.rule_type@ == RuleTypeV::Custom("generated"@)
                &&& rule.alert_type@ == AlertTypeV::Custom("GeneratedAlert"@)
                &&& rule.time_window_seconds is None
                &&& rule.threshold is None
                &&& has_prefix(rule.id@, "generated_rule_"@)
            },
            None => generated_pattern_of(crate::text::lower_of(description@)) is None,
        },
{
    let lower = crate::text::lowercase(description);
    let lower_str = lower.as_str();
    if !(contains_sub(lower_str, "alert on") && contains_sub(lower_str, "if log contains")) {
        return None;
    }
    let n = lower_str.unicode_len();
    let sep_len = "if log contains".unicode_len();
    let p = match find_from(lower_str, "if log contains", 0) {
        Some(p) => p,
        None => {
            proof {
                lemma_first_occurrence_charac(lower@, "if log contains"@, 0);
                assert(false) by {
                    let at = choose|at: int| crate::text::occurs_at(
                        lower@,
                        "if log contains"@,
                        at,
                    );
                    assert(crate::text::occurs_at(lower@, "if log contains"@, at));
                }
            }
            return None;
        },
    };
    proof {
        lemma_first_occurrence_charac(lower@, "if log contains"@, 0);
    }
    let start = p + sep_len;
    let seg_end = match find_from(lower_str, "if log contains", start) {
        Some(q) => q,
        None => n,
    };
    proof {
        lemma_first_occurrence_charac(lower@, "if log contains"@, start as int);
    }
    let segment = lower_str.substring_char(start, seg_end);
    let ghost segv = split_second_segment(lower@, "if log contains"@)->0;
    proof {
        assert(segment@ =~= segv);
    }
    let trimmed = trim_exec(segment);
    let pattern = trim_char_exec(trimmed.as_str(), '\'');
    if pattern.unicode_len() == 0 {
        return None;
    }
    let mut id = "generated_rule_".to_owned();
    id.append(new_uuid_string().as_str());
    let mut name = "Generated Rule: ".to_owned();
    name.append(pattern.as_str());
    let rule = Rule {
        id,
        name,
        pattern,
        description: description.to_owned(),
        alert_type: AlertType::Custom("GeneratedAlert".to_owned()),
        enabled: true,
        rule_type: RuleType::Custom("generated".to_owned()),
        time_window_seconds: None,
        threshold: None,
    };
    proof {
        assert(rule.id@.subrange(0, "generated_rule_"@.len() as int) =~= "generated_rule_"@);
    }
    Some(rule)
}

} // verus!

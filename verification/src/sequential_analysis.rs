//! The sequential driver: one detector, records fed in arrival order.

use vstd::prelude::*;
use crate::models::{Alert, AlertCore, LogEntry, Metrics, Rule, alerts_match};
use crate::threat_detection::{ThreatDetector, chunk_alerts};
use crate::timeutil::now_seconds;
use crate::utils::{Timer, new_uuid_string};

verus! {

/// Records per second from a total and a duration in milliseconds, guarding
/// against a zero duration and capping at the largest representable rate.
pub open spec fn rate_per_second(total: nat, ms: nat) -> u64 {
    if ms == 0 {
        0u64
    } else if total * 1000 / ms > u64::MAX {
        u64::MAX
    } else {
        (total * 1000 / ms) as u64
    }
}

/// Computes `rate_per_second` exactly, using wide intermediate arithmetic.
pub fn compute_rate(total: usize, ms: u64) -> (r: u64)
    ensures
        r == rate_per_second(total as nat, ms as nat),
{
    if ms == 0 {
        return 0;
    }
    let q: u128 = (total as u128) * 1000 / (ms as u128);
    if q > u64::MAX as u128 {
        u64::MAX
    } else {
        q as u64
    }
}

/// Attaches a fresh identifier to each alert core, in order.
pub fn attach_ids(cores: Vec<AlertCore>) -> (r: Vec<Alert>)
    ensures
        alerts_match(r@, cores.deep_view()),
{
    let mut rest = cores;
    let mut r: Vec<Alert> = Vec::new();
    while rest.len() > 0
        invariant
            r@.len() + rest@.len() == cores.deep_view().len(),
            rest@ == cores@.skip(r@.len() as int),
            forall|j: int| 0 <= j < r@.len() ==> #[trigger] r@[j].matches(cores.deep_view()[j]),
        decreases rest@.len(),
    {
        let ghost k = r@.len() as int;
        let c = rest.remove(0);
        proof {
            assert(c == cores@[k]);
            assert(rest@ =~= cores@.skip(k + 1));
        }
        r.push(c.into_alert(new_uuid_string()));
    }
    r
}

/// Runs one detector over the records in order, collecting the first alert
/// of each record, and reports the count, the elapsed time and the rate.
pub fn run_sequential_analysis(parsed_logs: Vec<LogEntry>, rules: Vec<Rule>) -> (r: Metrics)
    ensures
        r.total_logs_processed == parsed_logs@.len(),
        r.mode@ == "Sequential"@,
        r.logs_per_second == rate_per_second(
            parsed_logs@.len() as nat,
            r.execution_time_ms as nat,
        ),
        exists|now: i64|
            alerts_match(
                r.alerts_generated@,
                #[trigger] chunk_alerts(rules.deep_view(), parsed_logs.deep_view(), now),
            ),
{
    let timer = Timer::new();
    let now = now_seconds();
    let alerts = run_sequential_analysis_at(&parsed_logs, rules, now);
    let ms = timer.elapsed_millis();
    let total = parsed_logs.len();
    Metrics {
        total_logs_processed: total,
        execution_time_ms: ms,
        logs_per_second: compute_rate(total, ms),
        alerts_generated: alerts,
        mode: "Sequential".to_owned(),
    }
}

/// The sequential driver's detection pass at a fixed wall-clock instant.
pub fn run_sequential_analysis_at(parsed_logs: &Vec<LogEntry>, rules: Vec<Rule>, now: i64) -> (r:
    Vec<Alert>)
    ensures
        alerts_match(r@, chunk_alerts(rules.deep_view(), parsed_logs.deep_view(), now)),
{
    let mut detector = ThreatDetector::new(rules);
    let cores = detector.run_entries(parsed_logs, now);
    attach_ids(cores)
}

} // verus!

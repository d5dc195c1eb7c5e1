//! The stateful threat detector: sliding-window counters per key, evaluated
//! rule by rule in declared order. The mathematical model of every step is
//! written out here and each executable method is proved against it.

use vstd::prelude::*;
use vstd::string::StringExecFns;
use crate::models::{
    Alert,
    AlertCore,
    AlertType,
    AlertTypeV,
    AlertV,
    LogEntry,
    LogEntryV,
    Rule,
    RuleType,
    RuleTypeV,
    RuleV,
};
use crate::patterns::{regex_is_match, regex_match_of};
use crate::tables::StrTable;
use crate::timeutil::now_seconds;
use crate::utils::new_uuid_string;

verus! {

/// The model of the detector's mutable state: three keyed families of
/// sliding-window cells. Brute-force cells are keyed by IP and then by user;
/// the other two families are keyed by IP alone.
#[verifier::ext_equal]
pub struct DetectorStateV {
    pub bf: Map<Seq<char>, Map<Seq<char>, (u64, i64)>>,
    pub hf: Map<Seq<char>, (u64, i64)>,
    pub si: Map<Seq<char>, (Map<Seq<char>, u64>, i64)>,
}

/// The state of a freshly created detector.
pub open spec fn empty_state() -> DetectorStateV {
    DetectorStateV {
        bf: Map::empty(),
        hf: Map::empty(),
        si: Map::empty(),
    }
}

/// The instant used for windowing: the record's own timestamp, or the
/// wall-clock reading `now` when the record has none.
pub open spec fn ts_of(e: LogEntryV, now: i64) -> i64 {
    match e.timestamp {
        Some(t) => t,
        None => now,
    }
}

/// Whether an event at `ts` falls inside the window opened at `last`.
pub open spec fn in_window(ts: i64, last: i64, window: u64) -> bool {
    ts - last < window
}

/// A counter increment that cannot overflow.
pub open spec fn sat_inc(c: u64) -> u64 {
    if c == u64::MAX {
        c
    } else {
        (c + 1) as u64
    }
}

/// One step of a sliding-window counter cell: increment inside the window,
/// restart at one outside it or for a fresh key, and remember the instant.
pub open spec fn window_step(cell: Option<(u64, i64)>, ts: i64, window: u64) -> (u64, i64) {
    match cell {
        Some(c) => if in_window(ts, c.1, window) {
            (sat_inc(c.0), ts)
        } else {
            (1u64, ts)
        },
        None => (1u64, ts),
    }
}

/// A sequence with the option's content, if any.
pub open spec fn opt_seq<T>(o: Option<T>) -> Seq<T> {
    match o {
        Some(v) => seq![v],
        None => Seq::empty(),
    }
}

/// The view of an optional alert core.
pub open spec fn opt_alert_view(o: Option<AlertCore>) -> Option<AlertV> {
    match o {
        Some(a) => Some(a@),
        None => None,
    }
}

/// Whether a record can drive the brute-force counters.
pub open spec fn bf_applies(e: LogEntryV) -> bool {
    &&& e.event_type == Some("login_failed"@)
    &&& e.ip_address is Some
    &&& e.user_id is Some
}

pub open spec fn bf_description(ip: Seq<char>, user: Seq<char>) -> Seq<char> {
    "Brute-force attempt detected from IP "@ + ip + " for user "@ + user
}

pub open spec fn hf_description(ip: Seq<char>) -> Seq<char> {
    "High-frequency requests detected from IP "@ + ip
}

pub open spec fn si_description(ip: Seq<char>) -> Seq<char> {
    "Suspicious IP behavior detected from IP "@ + ip + ": multiple event types"@
}

pub open spec fn custom_description(name: Seq<char>, description: Seq<char>) -> Seq<char> {
    "Rule '"@ + name + "' triggered: "@ + description
}

/// One brute-force rule applied to one record: step the counter for
/// `(ip, user)`, and on reaching the threshold evict the key and fire.
pub open spec fn step_bf(st: DetectorStateV, rule: RuleV, e: LogEntryV, now: i64) -> (
    DetectorStateV,
    Option<AlertV>,
) {
    if bf_applies(e) && rule.time_window_seconds is Some && rule.threshold is Some {
        let ip = e.ip_address->0;
        let user = e.user_id->0;
        let ts = ts_of(e, now);
        let inner = if st.bf.contains_key(ip) {
            st.bf[ip]
        } else {
            Map::empty()
        };
        let prev = if inner.contains_key(user) {
            Some(inner[user])
        } else {
            None
        };
        let cell = window_step(prev, ts, rule.time_window_seconds->0);
        if cell.0 >= rule.threshold->0 {
            (
                DetectorStateV { bf: st.bf.insert(ip, inner.remove(user)), ..st },
                Some(
                    AlertV {
                        timestamp: ts,
                        alert_type: AlertTypeV::BruteForce,
                        description: bf_description(ip, user),
                        log_entry_sample: Some(e),
                    },
                ),
            )
        } else {
            (DetectorStateV { bf: st.bf.insert(ip, inner.insert(user, cell)), ..st }, None)
        }
    } else {
        (st, None)
    }
}

/// One high-frequency rule applied to one record: step the counter for the
/// record's IP, and on reaching the threshold evict the key and fire.
pub open spec fn step_hf(st: DetectorStateV, rule: RuleV, e: LogEntryV, now: i64) -> (
    DetectorStateV,
    Option<AlertV>,
) {
    if e.ip_address is Some && rule.time_window_seconds is Some && rule.threshold is Some {
        let ip = e.ip_address->0;
        let ts = ts_of(e, now);
        let prev = if st.hf.contains_key(ip) {
            Some(st.hf[ip])
        } else {
            None
        };
        let cell = window_step(prev, ts, rule.time_window_seconds->0);
        if cell.0 >= rule.threshold->0 {
            (
                DetectorStateV { hf: st.hf.remove(ip), ..st },
                Some(
                    AlertV {
                        timestamp: ts,
                        alert_type: AlertTypeV::HighFrequencyRequest,
                        description: hf_description(ip),
                        log_entry_sample: Some(e),
                    },
                ),
            )
        } else {
            (DetectorStateV { hf: st.hf.insert(ip, cell), ..st }, None)
        }
    } else {
        (st, None)
    }
}

/// The per-event-type counts after one suspicious-IP step: inside the window
/// the record's event type is counted on top of the existing counts; outside
/// it the counts restart with the current event alone.
pub open spec fn si_counts_step(
    counts: Map<Seq<char>, u64>,
    last: i64,
    ts: i64,
    window: u64,
    event_type: Option<Seq<char>>,
) -> Map<Seq<char>, u64> {
    if in_window(ts, last, window) {
        match event_type {
            Some(t) => counts.insert(
                t,
                if counts.contains_key(t) {
                    sat_inc(counts[t])
                } else {
                    1u64
                },
            ),
            None => counts,
        }
    } else {
        match event_type {
            Some(t) => Map::empty().insert(t, 1u64),
            None => Map::empty(),
        }
    }
}

/// One suspicious-IP rule applied to one record: count the record's event
/// type for its IP, and when the number of distinct event types reaches the
/// threshold evict the key and fire.
pub open spec fn step_si(st: DetectorStateV, rule: RuleV, e: LogEntryV, now: i64) -> (
    DetectorStateV,
    Option<AlertV>,
) {
    if e.ip_address is Some && rule.time_window_seconds is Some && rule.threshold is Some {
        let ip = e.ip_address->0;
        let ts = ts_of(e, now);
        let cell = if st.si.contains_key(ip) {
            st.si[ip]
        } else {
            (Map::<Seq<char>, u64>::empty(), ts)
        };
        let counts = si_counts_step(cell.0, cell.1, ts, rule.time_window_seconds->0, e.event_type);
        if counts.dom().len() >= rule.threshold->0 {
            (
                DetectorStateV { si: st.si.remove(ip), ..st },
                Some(
                    AlertV {
                        timestamp: ts,
                        alert_type: AlertTypeV::SuspiciousIp,
                        description: si_description(ip),
                        log_entry_sample: Some(e),
                    },
                ),
            )
        } else {
            (DetectorStateV { si: st.si.insert(ip, (counts, ts)), ..st }, None)
        }
    } else {
        (st, None)
    }
}

/// One custom rule applied to one record: stateless; fires exactly when the
/// rule's pattern is a valid regex that matches the raw line, carrying the
/// rule's alert kind and the record as sample.
pub open spec fn step_custom(rule: RuleV, e: LogEntryV, now: i64) -> Option<AlertV> {
    if regex_match_of(rule.pattern, e.raw_log) == Some(true) {
        Some(
            AlertV {
                timestamp: ts_of(e, now),
                alert_type: rule.alert_type,
                description: custom_description(rule.name, rule.description),
                log_entry_sample: Some(e),
            },
        )
    } else {
        None
    }
}

/// One rule applied to one record. Disabled rules are never evaluated.
pub open spec fn step_rule(st: DetectorStateV, rule: RuleV, e: LogEntryV, now: i64) -> (
    DetectorStateV,
    Option<AlertV>,
) {
    if !rule.enabled {
        (st, None)
    } else {
        match rule.rule_type {
            RuleTypeV::BruteForce => step_bf(st, rule, e, now),
            RuleTypeV::HighFrequencyRequest => step_hf(st, rule, e, now),
            RuleTypeV::SuspiciousIp => step_si(st, rule, e, now),
            RuleTypeV::Custom(label) => (st, step_custom(rule, e, now)),
        }
    }
}

/// All rules applied to one record, in declared order; counters are stepped
/// even by rules that do not fire, and every fired alert is collected.
pub open spec fn eval_rules(rules: Seq<RuleV>, st: DetectorStateV, e: LogEntryV, now: i64) -> (
    DetectorStateV,
    Seq<AlertV>,
) decreases rules.len() {
    if rules.len() == 0 {
        (st, Seq::empty())
    } else {
        let first = step_rule(st, rules[0], e, now);
        let rest = eval_rules(rules.drop_first(), first.0, e, now);
        (rest.0, opt_seq(first.1) + rest.1)
    }
}

/// A record sequence fed through the detector, threading the state; for each
/// record only the first fired alert is kept, per the baseline contract.
pub open spec fn run_records(
    rules: Seq<RuleV>,
    st: DetectorStateV,
    entries: Seq<LogEntryV>,
    now: i64,
) -> (DetectorStateV, Seq<AlertV>)
    decreases entries.len(),
{
    if entries.len() == 0 {
        (st, Seq::empty())
    } else {
        let first = eval_rules(rules, st, entries[0], now);
        let kept = if first.1.len() > 0 {
            seq![first.1[0]]
        } else {
            Seq::<AlertV>::empty()
        };
        let rest = run_records(rules, first.0, entries.drop_first(), now);
        (rest.0, kept + rest.1)
    }
}

/// The alerts a fresh detector raises over `entries`.
pub open spec fn chunk_alerts(rules: Seq<RuleV>, entries: Seq<LogEntryV>, now: i64) -> Seq<
    AlertV,
> {
    run_records(rules, empty_state(), entries, now).1
}

/// Evaluating a concatenation of rule lists composes the two evaluations.
pub proof fn lemma_eval_rules_concat(
    r1: Seq<RuleV>,
    r2: Seq<RuleV>,
    st: DetectorStateV,
    e: LogEntryV,
    now: i64,
)
    ensures
        ({
            let a = eval_rules(r1, st, e, now);
            let b = eval_rules(r2, a.0, e, now);
            eval_rules(r1 + r2, st, e, now) == (b.0, a.1 + b.1)
        }),
    decreases r1.len(),
{
    let a = eval_rules(r1, st, e, now);
    let b = eval_rules(r2, a.0, e, now);
    if r1.len() == 0 {
        assert(r1 + r2 =~= r2);
        assert(a.1 + b.1 =~= b.1);
    } else {
        assert((r1 + r2)[0] == r1[0]);
        assert((r1 + r2).drop_first() =~= r1.drop_first() + r2);
        let first = step_rule(st, r1[0], e, now);
        lemma_eval_rules_concat(r1.drop_first(), r2, first.0, e, now);
        let a2 = eval_rules(r1.drop_first(), first.0, e, now);
        assert(opt_seq(first.1) + (a2.1 + b.1) =~= (opt_seq(first.1) + a2.1) + b.1);
    }
}

/// Evaluating one more rule appends that rule's step to the evaluation so
/// far.
pub proof fn lemma_eval_rules_take_snoc(
    rules: Seq<RuleV>,
    st: DetectorStateV,
    e: LogEntryV,
    now: i64,
    i: int,
)
    requires
        0 <= i < rules.len(),
    ensures
        ({
            let m = eval_rules(rules.take(i), st, e, now);
            let s = step_rule(m.0, rules[i], e, now);
            eval_rules(rules.take(i + 1), st, e, now) == (s.0, m.1 + opt_seq(s.1))
        }),
{
    let single = seq![rules[i]];
    assert(rules.take(i + 1) =~= rules.take(i) + single);
    lemma_eval_rules_concat(rules.take(i), single, st, e, now);
    let m = eval_rules(rules.take(i), st, e, now);
    let s = step_rule(m.0, rules[i], e, now);
    assert(single.drop_first() =~= Seq::<RuleV>::empty());
    assert(single[0] == rules[i]);
    assert(eval_rules(single.drop_first(), s.0, e, now) == (s.0, Seq::<AlertV>::empty()));
    assert(eval_rules(single, m.0, e, now) == (s.0, opt_seq(s.1) + Seq::<AlertV>::empty()));
    assert(opt_seq(s.1) + Seq::<AlertV>::empty() =~= opt_seq(s.1));
}

/// Running a concatenation of record sequences composes the two runs.
pub proof fn lemma_run_records_concat(
    rules: Seq<RuleV>,
    e1: Seq<LogEntryV>,
    e2: Seq<LogEntryV>,
    st: DetectorStateV,
    now: i64,
)
    ensures
        ({
            let a = run_records(rules, st, e1, now);
            let b = run_records(rules, a.0, e2, now);
            run_records(rules, st, e1 + e2, now) == (b.0, a.1 + b.1)
        }),
    decreases e1.len(),
{
    let a = run_records(rules, st, e1, now);
    let b = run_records(rules, a.0, e2, now);
    if e1.len() == 0 {
        assert(e1 + e2 =~= e2);
        assert(a.1 + b.1 =~= b.1);
    } else {
        assert((e1 + e2)[0] == e1[0]);
        assert((e1 + e2).drop_first() =~= e1.drop_first() + e2);
        let first = eval_rules(rules, st, e1[0], now);
        let kept = if first.1.len() > 0 {
            seq![first.1[0]]
        } else {
            Seq::<AlertV>::empty()
        };
        lemma_run_records_concat(rules, e1.drop_first(), e2, first.0, now);
        let a2 = run_records(rules, first.0, e1.drop_first(), now);
        assert(kept + (a2.1 + b.1) =~= (kept + a2.1) + b.1);
    }
}

/// Running one more record appends that record's outcome to the run so far.
pub proof fn lemma_run_records_take_snoc(
    rules: Seq<RuleV>,
    st: DetectorStateV,
    entries: Seq<LogEntryV>,
    now: i64,
    i: int,
)
    requires
        0 <= i < entries.len(),
    ensures
        ({
            let m = run_records(rules, st, entries.take(i), now);
            let s = eval_rules(rules, m.0, entries[i], now);
            let kept = if s.1.len() > 0 {
                seq![s.1[0]]
            } else {
                Seq::<AlertV>::empty()
            };
            run_records(rules, st, entries.take(i + 1), now) == (s.0, m.1 + kept)
        }),
{
    let single = seq![entries[i]];
    assert(entries.take(i + 1) =~= entries.take(i) + single);
    lemma_run_records_concat(rules, entries.take(i), single, st, now);
    let m = run_records(rules, st, entries.take(i), now);
    let s = eval_rules(rules, m.0, entries[i], now);
    let kept = if s.1.len() > 0 {
        seq![s.1[0]]
    } else {
        Seq::<AlertV>::empty()
    };
    assert(single.drop_first() =~= Seq::<LogEntryV>::empty());
    assert(single[0] == entries[i]);
    assert(run_records(rules, s.0, single.drop_first(), now) == (s.0, Seq::<AlertV>::empty()));
    assert(run_records(rules, m.0, single, now) == (s.0, kept + Seq::<AlertV>::empty()));
    assert(kept + Seq::<AlertV>::empty() =~= kept);
}

/// Whether two detector states hold the same cells for the key `ip`, in all
/// three state families.
pub open spec fn agree_at_ip(x: DetectorStateV, y: DetectorStateV, ip: Seq<char>) -> bool {
    &&& x.bf.contains_key(ip) == y.bf.contains_key(ip)
    &&& (x.bf.contains_key(ip) ==> x.bf[ip] == y.bf[ip])
    &&& x.hf.contains_key(ip) == y.hf.contains_key(ip)
    &&& (x.hf.contains_key(ip) ==> x.hf[ip] == y.hf[ip])
    &&& x.si.contains_key(ip) == y.si.contains_key(ip)
    &&& (x.si.contains_key(ip) ==> x.si[ip] == y.si[ip])
}

/// Whether two detector states agree on everything the record `e` can read
/// or write: the cells of its IP. A record without an IP touches no state.
pub open spec fn agree_on_entry(x: DetectorStateV, y: DetectorStateV, e: LogEntryV) -> bool {
    match e.ip_address {
        Some(ip) => agree_at_ip(x, y, ip),
        None => true,
    }
}

/// One rule step reads and writes only the cells of the record's IP: started
/// from states that agree there, both runs emit the same alert and still
/// agree there, and neither touches any other IP.
pub proof fn lemma_step_agree(
    rule: RuleV,
    x: DetectorStateV,
    y: DetectorStateV,
    e: LogEntryV,
    now: i64,
)
    requires
        agree_on_entry(x, y, e),
    ensures
        ({
            let sx = step_rule(x, rule, e, now);
            let sy = step_rule(y, rule, e, now);
            &&& sx.1 == sy.1
            &&& agree_on_entry(sx.0, sy.0, e)
            &&& forall|ip: Seq<char>|
                e.ip_address != Some(ip) ==> #[trigger] agree_at_ip(sx.0, x, ip) && agree_at_ip(
                    sy.0,
                    y,
                    ip,
                )
        }),
{
    let sx = step_rule(x, rule, e, now);
    let sy = step_rule(y, rule, e, now);
    if e.ip_address is None {
        assert(sx.0 == x && sy.0 == y);
    }
}

/// Whether no record in `entries` carries the IP `ip`.
pub open spec fn entries_avoid_ip(entries: Seq<LogEntryV>, ip: Seq<char>) -> bool {
    forall|k: int| 0 <= k < entries.len() ==> (#[trigger] entries[k]).ip_address != Some(ip)
}

/// A run over `entries` reads and writes only the cells of the records'
/// IPs: two runs from states that agree on every record's IP emit the same
/// alerts, and neither run touches an IP no record carries.
pub proof fn lemma_run_agree(
    rules: Seq<RuleV>,
    x: DetectorStateV,
    y: DetectorStateV,
    entries: Seq<LogEntryV>,
    now: i64,
)
    requires
        forall|k: int| 0 <= k < entries.len() ==> agree_on_entry(x, y, #[trigger] entries[k]),
    ensures
        ({
            let ax = run_records(rules, x, entries, now);
            let ay = run_records(rules, y, entries, now);
            &&& ax.1 == ay.1
            &&& forall|ip: Seq<char>|
                entries_avoid_ip(entries, ip) ==> #[trigger] agree_at_ip(ax.0, x, ip)
                    && agree_at_ip(ay.0, y, ip)
        }),
    decreases entries.len(),
{
    let ax = run_records(rules, x, entries, now);
    let ay = run_records(rules, y, entries, now);
    if entries.len() == 0 {
    } else {
        let e0 = entries[0];
        lemma_eval_agree(rules, x, y, e0, now);
        let x1 = eval_rules(rules, x, e0, now).0;
        let y1 = eval_rules(rules, y, e0, now).0;
        assert forall|k: int|
            0 <= k < entries.drop_first().len() implies agree_on_entry(
            x1,
            y1,
            #[trigger] entries.drop_first()[k],
        ) by {
            let e = entries.drop_first()[k];
            assert(e == entries[k + 1]);
            match e.ip_address {
                Some(ip) => {
                    if e0.ip_address == Some(ip) {
                        assert(agree_on_entry(x1, y1, e0));
                    } else {
                        assert(agree_at_ip(x1, x, ip));
                        assert(agree_at_ip(y1, y, ip));
                        assert(agree_on_entry(x, y, e));
                    }
                },
                None => {},
            }
        }
        lemma_run_agree(rules, x1, y1, entries.drop_first(), now);
        assert(ax.1 == ay.1);
        let ax2 = run_records(rules, x1, entries.drop_first(), now);
        let ay2 = run_records(rules, y1, entries.drop_first(), now);
        assert(ax.0 == ax2.0 && ay.0 == ay2.0);
        assert forall|ip: Seq<char>|
            entries_avoid_ip(entries, ip) implies #[trigger] agree_at_ip(ax.0, x, ip)
            && agree_at_ip(ay.0, y, ip) by {
            assert(entries[0].ip_address != Some(ip));
            assert(entries_avoid_ip(entries.drop_first(), ip)) by {
                assert forall|k: int|
                    0 <= k < entries.drop_first().len() implies (#[trigger] entries.drop_first()[k]).ip_address
                    != Some(ip) by {
                    assert(entries.drop_first()[k] == entries[k + 1]);
                }
            }
            assert(agree_at_ip(x1, x, ip));
            assert(agree_at_ip(y1, y, ip));
            assert(agree_at_ip(ax2.0, x1, ip));
            assert(agree_at_ip(ay2.0, y1, ip));
        }
    }
}

/// Evaluating one record reads and writes only the cells of its IP: from
/// states that agree there, both evaluations emit the same alerts and still
/// agree there, and neither touches any other IP.
pub proof fn lemma_eval_agree(
    rules: Seq<RuleV>,
    x: DetectorStateV,
    y: DetectorStateV,
    e: LogEntryV,
    now: i64,
)
    requires
        agree_on_entry(x, y, e),
    ensures
        ({
            let mx = eval_rules(rules, x, e, now);
            let my = eval_rules(rules, y, e, now);
            &&& mx.1 == my.1
            &&& agree_on_entry(mx.0, my.0, e)
            &&& forall|ip: Seq<char>|
                e.ip_address != Some(ip) ==> #[trigger] agree_at_ip(mx.0, x, ip) && agree_at_ip(
                    my.0,
                    y,
                    ip,
                )
        }),
    decreases rules.len(),
{
    let mx = eval_rules(rules, x, e, now);
    let my = eval_rules(rules, y, e, now);
    if rules.len() == 0 {
    } else {
        lemma_step_agree(rules[0], x, y, e, now);
        let x1 = step_rule(x, rules[0], e, now).0;
        let y1 = step_rule(y, rules[0], e, now).0;
        lemma_eval_agree(rules.drop_first(), x1, y1, e, now);
        let mx2 = eval_rules(rules.drop_first(), x1, e, now);
        let my2 = eval_rules(rules.drop_first(), y1, e, now);
        assert(mx.0 == mx2.0 && my.0 == my2.0);
        assert(mx.1 == my.1);
        assert forall|ip: Seq<char>|
            e.ip_address != Some(ip) implies #[trigger] agree_at_ip(mx.0, x, ip) && agree_at_ip(
            my.0,
            y,
            ip,
        ) by {
            assert(agree_at_ip(x1, x, ip));
            assert(agree_at_ip(y1, y, ip));
            assert(agree_at_ip(mx2.0, x1, ip));
            assert(agree_at_ip(my2.0, y1, ip));
        }
    }
}


/// The brute-force cell for `(ip, user)`, if any.
pub open spec fn bf_cell(st: DetectorStateV, ip: Seq<char>, user: Seq<char>) -> Option<(u64, i64)> {
    if st.bf.contains_key(ip) && st.bf[ip].contains_key(user) {
        Some(st.bf[ip][user])
    } else {
        None
    }
}

/// The high-frequency cell for `ip`, if any.
pub open spec fn hf_cell(st: DetectorStateV, ip: Seq<char>) -> Option<(u64, i64)> {
    if st.hf.contains_key(ip) {
        Some(st.hf[ip])
    } else {
        None
    }
}

/// Eviction on fire: when a state-based rule fires on a record, the cell for
/// the record's key is evicted from that rule's state family, so the next
/// triggering event for the key restarts the count at one — `threshold`
/// fresh events inside the window are then needed before the key can fire
/// again.
pub proof fn lemma_eviction_on_fire(st: DetectorStateV, rule: RuleV, e: LogEntryV, now: i64)
    requires
        step_rule(st, rule, e, now).1 is Some,
        !(rule.rule_type is Custom),
    ensures
        e.ip_address is Some,
        ({
            let post = step_rule(st, rule, e, now).0;
            let ip = e.ip_address->0;
            match rule.rule_type {
                RuleTypeV::BruteForce => {
                    &&& bf_cell(post, ip, e.user_id->0) is None
                    &&& forall|ts: i64, w: u64|
                        #[trigger] window_step(bf_cell(post, ip, e.user_id->0), ts, w) == (
                            1u64,
                            ts,
                        )
                },
                RuleTypeV::HighFrequencyRequest => {
                    &&& hf_cell(post, ip) is None
                    &&& forall|ts: i64, w: u64|
                        #[trigger] window_step(hf_cell(post, ip), ts, w) == (1u64, ts)
                },
                RuleTypeV::SuspiciousIp => !post.si.contains_key(ip),
                RuleTypeV::Custom(label) => true,
            }
        }),
{
}

/// A counter cell evolved from nothing through a list of event instants.
pub open spec fn counter_after(ts_list: Seq<i64>, window: u64) -> Option<(u64, i64)>
    decreases ts_list.len(),
{
    if ts_list.len() == 0 {
        None
    } else {
        Some(window_step(counter_after(ts_list.drop_last(), window), ts_list.last(), window))
    }
}

/// In a consecutive-increasing list every instant is at least the first.
proof fn lemma_increasing_from_start(ts_list: Seq<i64>, i: int)
    requires
        forall|j: int| 0 <= j < ts_list.len() - 1 ==> #[trigger] ts_list[j] < ts_list[j + 1],
        0 <= i < ts_list.len(),
    ensures
        ts_list[0] <= ts_list[i],
    decreases i,
{
    if i > 0 {
        lemma_increasing_from_start(ts_list, i - 1);
        assert(ts_list[i - 1] < ts_list[i]);
    }
}

/// Window monotonicity, first half: when events for one key arrive at
/// strictly increasing instants and the whole span lies inside the window,
/// the counter equals the number of events, and the cell remembers the last
/// instant.
pub proof fn lemma_window_monotonicity(ts_list: Seq<i64>, window: u64)
    requires
        1 <= ts_list.len() <= u64::MAX,
        forall|j: int| 0 <= j < ts_list.len() - 1 ==> #[trigger] ts_list[j] < ts_list[j + 1],
        ts_list.last() - ts_list[0] < window,
    ensures
        counter_after(ts_list, window) == Some((ts_list.len() as u64, ts_list.last())),
    decreases ts_list.len(),
{
    let n = ts_list.len() as int;
    if n == 1 {
        assert(ts_list.drop_last().len() == 0);
        assert(counter_after(ts_list, window) == Some(window_step(None, ts_list.last(), window)));
    } else {
        let prefix = ts_list.drop_last();
        assert forall|j: int| 0 <= j < prefix.len() - 1 implies #[trigger] prefix[j] < prefix[j
            + 1] by {
            assert(ts_list[j] < ts_list[j + 1]);
        }
        lemma_increasing_from_start(ts_list, n - 2);
        assert(ts_list[n - 2] < ts_list[n - 1]);
        assert(prefix.last() == ts_list[n - 2]);
        assert(prefix.last() - prefix[0] < window);
        lemma_window_monotonicity(prefix, window);
        assert(in_window(ts_list.last(), ts_list[n - 2], window));
        assert(sat_inc((prefix.len() as u64)) == ts_list.len() as u64);
    }
}

/// Window monotonicity, second half: at the first instant whose gap from the
/// one before it reaches the window, the counter restarts at one.
pub proof fn lemma_window_reset(ts_list: Seq<i64>, window: u64, i: int)
    requires
        1 <= i < ts_list.len(),
        ts_list[i] - ts_list[i - 1] >= window,
    ensures
        counter_after(ts_list.take(i + 1), window) == Some((1u64, ts_list[i])),
{
    let upto = ts_list.take(i + 1);
    assert(upto.drop_last() =~= ts_list.take(i));
    assert(upto.last() == ts_list[i]);
    let prev = counter_after(ts_list.take(i), window);
    assert(ts_list.take(i).len() == i);
    assert(prev is Some) by {
        assert(ts_list.take(i).len() > 0);
    }
    assert(ts_list.take(i).last() == ts_list[i - 1]);
    assert((prev->0).1 == ts_list[i - 1]) by {
        assert(counter_after(ts_list.take(i), window) == Some(
            window_step(
                counter_after(ts_list.take(i).drop_last(), window),
                ts_list.take(i).last(),
                window,
            ),
        ));
    }
    assert(!in_window(ts_list[i], ts_list[i - 1], window));
}

fn resolve_ts(log_entry: &LogEntry, now: i64) -> (r: i64)
    ensures
        r == ts_of(log_entry@, now),
{
    match log_entry.timestamp {
        Some(t) => t,
        None => now,
    }
}

fn in_window_exec(ts: i64, last: i64, window: u64) -> (r: bool)
    ensures
        r == in_window(ts, last, window),
{
    (ts as i128) - (last as i128) < (window as i128)
}

fn sat_inc_exec(c: u64) -> (r: u64)
    ensures
        r == sat_inc(c),
{
    if c == u64::MAX {
        c
    } else {
        c + 1
    }
}

fn window_step_exec(prev: Option<(u64, i64)>, ts: i64, window: u64) -> (c: (u64, i64))
    ensures
        c == window_step(prev, ts, window),
{
    match prev {
        Some(p) => if in_window_exec(ts, p.1, window) {
            (sat_inc_exec(p.0), ts)
        } else {
            (1u64, ts)
        },
        None => (1u64, ts),
    }
}

fn build_bf_description(ip: &String, user: &String) -> (r: String)
    ensures
        r@ == bf_description(ip@, user@),
{
    let mut s = "Brute-force attempt detected from IP ".to_owned();
    s.append(ip.as_str());
    s.append(" for user ");
    s.append(user.as_str());
    s
}

fn build_hf_description(ip: &String) -> (r: String)
    ensures
        r@ == hf_description(ip@),
{
    let mut s = "High-frequency requests detected from IP ".to_owned();
    s.append(ip.as_str());
    s
}

fn build_si_description(ip: &String) -> (r: String)
    ensures
        r@ == si_description(ip@),
{
    let mut s = "Suspicious IP behavior detected from IP ".to_owned();
    s.append(ip.as_str());
    s.append(": multiple event types");
    s
}

fn build_custom_description(name: &String, description: &String) -> (r: String)
    ensures
        r@ == custom_description(name@, description@),
{
    let mut s = "Rule '".to_owned();
    s.append(name.as_str());
    s.append("' triggered: ");
    s.append(description.as_str());
    s
}

/// Clones a rule list; the copy has the same view.
pub fn clone_rules(v: &Vec<Rule>) -> (r: Vec<Rule>)
    ensures
        r.deep_view() == v.deep_view(),
{
    let mut r: Vec<Rule> = Vec::new();
    let mut i: usize = 0;
    while i < v.len()
        invariant
            i <= v@.len(),
            r@.len() == i,
            forall|j: int| 0 <= j < i ==> (#[trigger] r@[j])@ == v@[j]@,
        decreases v@.len() - i,
    {
        r.push(v[i].clone());
        i = i + 1;
    }
    proof {
        assert(r.deep_view() =~= v.deep_view());
    }
    r
}

/// Whether evaluating `e` at instant `now` over `rules` turns state `st`
/// into `st2` with `r` as the (first-only) emitted alert.
pub open spec fn detect_matches(
    rules: Seq<RuleV>,
    st: DetectorStateV,
    e: LogEntryV,
    now: i64,
    st2: DetectorStateV,
    r: Option<Alert>,
) -> bool {
    let m = eval_rules(rules, st, e, now);
    &&& st2 == m.0
    &&& match r {
        Some(a) => m.1.len() > 0 && a.matches(m.1[0]),
        None => m.1.len() == 0,
    }
}

/// Evaluates one stateless custom rule: fires exactly when the rule's
/// pattern is a valid regex matching the record's raw line.
pub fn check_custom_rule(log_entry: &LogEntry, rule: &Rule, now: i64) -> (r: Option<AlertCore>)
    ensures
        opt_alert_view(r) == step_custom(rule@, log_entry@, now),
{
    let matched = regex_is_match(rule.pattern.as_str(), log_entry.raw_log.as_str());
    match matched {
        Some(true) => {
            let desc = build_custom_description(&rule.name, &rule.description);
            Some(
                AlertCore {
                    timestamp: resolve_ts(log_entry, now),
                    alert_type: rule.alert_type.clone(),
                    description: desc,
                    log_entry_sample: Some(log_entry.clone()),
                },
            )
        },
        _ => None,
    }
}

/// Custom-rule determinism: whether a custom rule fires, and the alert kind
/// it fires with, depend only on the record's raw line and the rule's
/// pattern and alert kind — not on any detector state, the instant, or the
/// rule's or record's other fields.
pub proof fn lemma_custom_rule_determinism(
    r1: RuleV,
    r2: RuleV,
    e1: LogEntryV,
    e2: LogEntryV,
    now1: i64,
    now2: i64,
)
    requires
        e1.raw_log == e2.raw_log,
        r1.pattern == r2.pattern,
        r1.alert_type == r2.alert_type,
    ensures
        (step_custom(r1, e1, now1) is Some) == (step_custom(r2, e2, now2) is Some),
        step_custom(r1, e1, now1) is Some ==> step_custom(r1, e1, now1)->0.alert_type
            == step_custom(r2, e2, now2)->0.alert_type,
{
}

/// The stateful detector: a rule catalogue and three keyed families of
/// sliding-window counters, each owned by exactly one instance.
pub struct ThreatDetector {
    rules: Vec<Rule>,
    brute_force_attempts: StrTable<StrTable<(u64, i64)>>,
    high_frequency_requests: StrTable<(u64, i64)>,
    suspicious_ip_behavior: StrTable<(StrTable<u64>, i64)>,
}

impl ThreatDetector {
    /// The views of the detector's rules, in declared order.
    pub closed spec fn rules_view(&self) -> Seq<RuleV> {
        self.rules.deep_view()
    }

    /// Each state table keeps its keys unique.
    pub closed spec fn wf(&self) -> bool {
        &&& self.brute_force_attempts.wf()
        &&& self.brute_force_attempts.all_values(|t: StrTable<(u64, i64)>| t.wf())
        &&& self.high_frequency_requests.wf()
        &&& self.suspicious_ip_behavior.wf()
        &&& self.suspicious_ip_behavior.all_values(|p: (StrTable<u64>, i64)| p.0.wf())
    }

    /// The model state the tables denote.
    pub closed spec fn state(&self) -> DetectorStateV {
        DetectorStateV {
            bf: Map::new(
                |k: Seq<char>| self.brute_force_attempts@.contains_key(k),
                |k: Seq<char>| self.brute_force_attempts@[k]@,
            ),
            hf: self.high_frequency_requests@,
            si: Map::new(
                |k: Seq<char>| self.suspicious_ip_behavior@.contains_key(k),
                |k: Seq<char>| (self.suspicious_ip_behavior@[k].0@, self.suspicious_ip_behavior@[k].1),
            ),
        }
    }

    /// A fresh detector over `rules`, with empty state.
    pub fn new(rules: Vec<Rule>) -> (r: Self)
        ensures
            r.wf(),
            r.rules_view() == rules.deep_view(),
            r.state() == empty_state(),
    {
        let r = ThreatDetector {
            rules,
            brute_force_attempts: StrTable::new(),
            high_frequency_requests: StrTable::new(),
            suspicious_ip_behavior: StrTable::new(),
        };
        proof {
            assert(r.state().bf =~= empty_state().bf);
            assert(r.state().si =~= empty_state().si);
            assert(r.state() =~= empty_state());
        }
        r
    }

    fn check_brute_force(&mut self, log_entry: &LogEntry, rule: &Rule, now: i64) -> (r: Option<
        AlertCore,
    >)
        requires
            old(self).wf(),
        ensures
            final(self).wf(),
            final(self).rules == old(self).rules,
            final(self).state() == step_bf(old(self).state(), rule@, log_entry@, now).0,
            opt_alert_view(r) == step_bf(old(self).state(), rule@, log_entry@, now).1,
    {
        let (window, threshold) = match (rule.time_window_seconds, rule.threshold) {
            (Some(w), Some(t)) => (w, t),
            _ => {
                return None;
            },
        };
        let et_ok = match &log_entry.event_type {
            Some(t) => crate::text::string_is(t, "login_failed"),
            None => false,
        };
        if !et_ok {
            return None;
        }
        let (ip, user) = match (&log_entry.ip_address, &log_entry.user_id) {
            (Some(i), Some(u)) => (i.clone(), u.clone()),
            _ => {
                return None;
            },
        };
        let ts = resolve_ts(log_entry, now);
        let ghost st0 = self.state();
        let ghost bft0 = self.brute_force_attempts@;
        let ghost ipv = ip@;
        let ghost userv = user@;
        let mut inner: StrTable<(u64, i64)> = match self.brute_force_attempts.take(ip.as_str()) {
            Some(t) => t,
            None => StrTable::new(),
        };
        proof {
            assert(inner.wf()) by {
                if bft0.contains_key(ipv) {
                    assert((|t: StrTable<(u64, i64)>| t.wf())(inner));
                }
            }
        }
        let ghost inner_model = if st0.bf.contains_key(ipv) {
            st0.bf[ipv]
        } else {
            Map::<Seq<char>, (u64, i64)>::empty()
        };
        proof {
            assert(inner@ == inner_model);
        }
        let prev = inner.take(user.as_str());
        let cell = window_step_exec(prev, ts, window);
        let ghost m = step_bf(st0, rule@, log_entry@, now);
        if cell.0 >= threshold {
            let desc = build_bf_description(&ip, &user);
            let core = AlertCore {
                timestamp: ts,
                alert_type: AlertType::BruteForce,
                description: desc,
                log_entry_sample: Some(log_entry.clone()),
            };
            let ghost innerv = inner@;
            self.brute_force_attempts.insert(ip, inner);
            proof {
                assert((|t: StrTable<(u64, i64)>| t.wf())(inner));
                assert(self.brute_force_attempts@ == bft0.remove(ipv).insert(ipv, inner));
                assert(innerv == inner_model.remove(userv));
                assert(m.0.bf == st0.bf.insert(ipv, inner_model.remove(userv)));
                assert forall|k: Seq<char>| #![all_triggers]
                    self.state().bf.contains_key(k) == m.0.bf.contains_key(k) && (
                self.state().bf.contains_key(k) ==> self.state().bf[k] == m.0.bf[k]) by {
                    if k != ipv {
                        assert(self.brute_force_attempts@.contains_key(k) == bft0.contains_key(k));
                        if bft0.contains_key(k) {
                            assert(self.brute_force_attempts@[k] == bft0[k]);
                        }
                    } else {
                        assert(self.brute_force_attempts@[k] == inner);
                    }
                }
                assert(self.state().bf =~= m.0.bf);
                assert(self.state() =~= m.0);
                assert(core@ == m.1->0);
            }
            Some(core)
        } else {
            inner.insert(user, cell);
            let ghost innerv = inner@;
            self.brute_force_attempts.insert(ip, inner);
            proof {
                assert((|t: StrTable<(u64, i64)>| t.wf())(inner));
                assert(self.brute_force_attempts@ == bft0.remove(ipv).insert(ipv, inner));
                assert(innerv == inner_model.remove(userv).insert(userv, cell));
                assert(innerv =~= inner_model.insert(userv, cell));
                assert(m.0.bf == st0.bf.insert(ipv, inner_model.insert(userv, cell)));
                assert forall|k: Seq<char>| #![all_triggers]
                    self.state().bf.contains_key(k) == m.0.bf.contains_key(k) && (
                self.state().bf.contains_key(k) ==> self.state().bf[k] == m.0.bf[k]) by {
                    if k != ipv {
                        assert(self.brute_force_attempts@.contains_key(k) == bft0.contains_key(k));
                        if bft0.contains_key(k) {
                            assert(self.brute_force_attempts@[k] == bft0[k]);
                        }
                    } else {
                        assert(self.brute_force_attempts@[k] == inner);
                    }
                }
                assert(self.state().bf =~= m.0.bf);
                assert(self.state() =~= m.0);
            }
            None
        }
    }

    fn check_high_frequency_request(&mut self, log_entry: &LogEntry, rule: &Rule, now: i64) -> (r:
        Option<AlertCore>)
        requires
            old(self).wf(),
        ensures
            final(self).wf(),
            final(self).rules == old(self).rules,
            final(self).state() == step_hf(old(self).state(), rule@, log_entry@, now).0,
            opt_alert_view(r) == step_hf(old(self).state(), rule@, log_entry@, now).1,
    {
        let (window, threshold) = match (rule.time_window_seconds, rule.threshold) {
            (Some(w), Some(t)) => (w, t),
            _ => {
                return None;
            },
        };
        let ip = match &log_entry.ip_address {
            Some(i) => i.clone(),
            None => {
                return None;
            },
        };
        let ts = resolve_ts(log_entry, now);
        let ghost st0 = self.state();
        let prev = match self.high_frequency_requests.get(ip.as_str()) {
            Some(c) => Some(*c),
            None => None,
        };
        let cell = window_step_exec(prev, ts, window);
        let ghost m = step_hf(st0, rule@, log_entry@, now);
        if cell.0 >= threshold {
            let desc = build_hf_description(&ip);
            let core = AlertCore {
                timestamp: ts,
                alert_type: AlertType::HighFrequencyRequest,
                description: desc,
                log_entry_sample: Some(log_entry.clone()),
            };
            self.high_frequency_requests.take(ip.as_str());
            proof {
                assert(self.state() =~= m.0);
                assert(core@ == m.1->0);
            }
            Some(core)
        } else {
            self.high_frequency_requests.insert(ip, cell);
            proof {
                assert(self.state() =~= m.0);
            }
            None
        }
    }

    fn check_suspicious_ip_behavior(&mut self, log_entry: &LogEntry, rule: &Rule, now: i64) -> (r:
        Option<AlertCore>)
        requires
            old(self).wf(),
        ensures
            final(self).wf(),
            final(self).rules == old(self).rules,
            final(self).state() == step_si(old(self).state(), rule@, log_entry@, now).0,
            opt_alert_view(r) == step_si(old(self).state(), rule@, log_entry@, now).1,
    {
        let (window, threshold) = match (rule.time_window_seconds, rule.threshold) {
            (Some(w), Some(t)) => (w, t),
            _ => {
                return None;
            },
        };
        let ip = match &log_entry.ip_address {
            Some(i) => i.clone(),
            None => {
                return None;
            },
        };
        let ts = resolve_ts(log_entry, now);
        let ghost st0 = self.state();
        let taken = self.suspicious_ip_behavior.take(ip.as_str());
        proof {
            if taken is Some {
                assert((|p: (StrTable<u64>, i64)| p.0.wf())(taken->0));
            }
        }
        let (mut counts, last) = match taken {
            Some(c) => c,
            None => (StrTable::new(), ts),
        };
        let ghost counts0 = counts@;
        if in_window_exec(ts, last, window) {
            if let Some(t) = &log_entry.event_type {
                let prev = counts.take(t.as_str());
                let c = match prev {
                    Some(c) => sat_inc_exec(c),
                    None => 1u64,
                };
                counts.insert(t.clone(), c);
            }
        } else {
            counts = StrTable::new();
            if let Some(t) = &log_entry.event_type {
                counts.insert(t.clone(), 1u64);
            }
        }
        let ghost m = step_si(st0, rule@, log_entry@, now);
        proof {
            assert(counts@ =~= si_counts_step(
                if st0.si.contains_key(ip@) {
                    st0.si[ip@].0
                } else {
                    Map::<Seq<char>, u64>::empty()
                },
                if st0.si.contains_key(ip@) {
                    st0.si[ip@].1
                } else {
                    ts
                },
                ts,
                window,
                log_entry@.event_type,
            ));
        }
        if counts.len() as u64 >= threshold {
            let desc = build_si_description(&ip);
            let core = AlertCore {
                timestamp: ts,
                alert_type: AlertType::SuspiciousIp,
                description: desc,
                log_entry_sample: Some(log_entry.clone()),
            };
            proof {
                assert(self.state().si =~= m.0.si);
                assert(self.state() =~= m.0);
                assert(core@ == m.1->0);
            }
            Some(core)
        } else {
            self.suspicious_ip_behavior.insert(ip, (counts, ts));
            proof {
                assert((|p: (StrTable<u64>, i64)| p.0.wf())((counts, ts)));
                assert(self.state().si =~= m.0.si);
                assert(self.state() =~= m.0);
            }
            None
        }
    }

    /// Evaluates every rule against one record at instant `now`, stepping
    /// the counters, and collects every fired alert in rule order.
    pub fn eval_entry(&mut self, log_entry: &LogEntry, now: i64) -> (r: Vec<AlertCore>)
        requires
            old(self).wf(),
        ensures
            final(self).wf(),
            final(self).rules_view() == old(self).rules_view(),
            final(self).state() == eval_rules(
                old(self).rules_view(),
                old(self).state(),
                log_entry@,
                now,
            ).0,
            r.deep_view() == eval_rules(
                old(self).rules_view(),
                old(self).state(),
                log_entry@,
                now,
            ).1,
    {
        let rules_c = clone_rules(&self.rules);
        let ghost rv = old(self).rules_view();
        let ghost st0 = old(self).state();
        let mut alerts: Vec<AlertCore> = Vec::new();
        let mut i: usize = 0;
        proof {
            assert(rv.take(0) =~= Seq::<RuleV>::empty());
        }
        while i < rules_c.len()
            invariant
                i <= rules_c@.len(),
                rules_c.deep_view() == rv,
                rules_c@.len() == rv.len(),
                self.wf(),
                self.rules == old(self).rules,
                ({
                    let m = eval_rules(rv.take(i as int), st0, log_entry@, now);
                    self.state() == m.0 && alerts.deep_view() == m.1
                }),
            decreases rules_c@.len() - i,
        {
            let ghost m = eval_rules(rv.take(i as int), st0, log_entry@, now);
            proof {
                lemma_eval_rules_take_snoc(rv, st0, log_entry@, now, i as int);
                assert(rules_c@[i as int]@ == rv[i as int]);
            }
            let rule = &rules_c[i];
            let res: Option<AlertCore> = if !rule.enabled {
                None
            } else {
                match &rule.rule_type {
                    RuleType::BruteForce => self.check_brute_force(log_entry, rule, now),
                    RuleType::HighFrequencyRequest => self.check_high_frequency_request(
                        log_entry,
                        rule,
                        now,
                    ),
                    RuleType::SuspiciousIp => self.check_suspicious_ip_behavior(
                        log_entry,
                        rule,
                        now,
                    ),
                    RuleType::Custom(_) => check_custom_rule(log_entry, rule, now),
                }
            };
            let ghost s = step_rule(m.0, rv[i as int], log_entry@, now);
            if let Some(a) = res {
                alerts.push(a);
            }
            proof {
                assert(alerts.deep_view() =~= m.1 + opt_seq(s.1));
            }
            i = i + 1;
        }
        proof {
            assert(rv.take(rv.len() as int) =~= rv);
        }
        alerts
    }

    /// Evaluates one record at instant `now` and emits the first fired
    /// alert, if any, under a fresh identifier.
    pub fn detect_threats_at(&mut self, log_entry: &LogEntry, now: i64) -> (r: Option<Alert>)
        requires
            old(self).wf(),
        ensures
            final(self).wf(),
            final(self).rules_view() == old(self).rules_view(),
            detect_matches(
                old(self).rules_view(),
                old(self).state(),
                log_entry@,
                now,
                final(self).state(),
                r,
            ),
    {
        let mut alerts = self.eval_entry(log_entry, now);
        if alerts.len() > 0 {
            let first = alerts.remove(0);
            Some(first.into_alert(new_uuid_string()))
        } else {
            None
        }
    }

    /// Evaluates one record, reading the wall clock for records without a
    /// timestamp, and emits the first fired alert, if any.
    pub fn detect_threats(&mut self, log_entry: &LogEntry) -> (r: Option<Alert>)
        requires
            old(self).wf(),
        ensures
            final(self).wf(),
            final(self).rules_view() == old(self).rules_view(),
            exists|now: i64|
                #[trigger] detect_matches(
                    old(self).rules_view(),
                    old(self).state(),
                    log_entry@,
                    now,
                    final(self).state(),
                    r,
                ),
    {
        let now = now_seconds();
        let r = self.detect_threats_at(log_entry, now);
        proof {
            assert(detect_matches(
                old(self).rules_view(),
                old(self).state(),
                log_entry@,
                now,
                final(self).state(),
                r,
            ));
        }
        r
    }

    /// Feeds a record sequence through this detector in order, keeping the
    /// first fired alert of each record.
    pub fn run_entries(&mut self, entries: &Vec<LogEntry>, now: i64) -> (r: Vec<AlertCore>)
        requires
            old(self).wf(),
        ensures
            final(self).wf(),
            final(self).rules_view() == old(self).rules_view(),
            ({
                let m = run_records(old(self).rules_view(), old(self).state(), entries.deep_view(), now);
                final(self).state() == m.0 && r.deep_view() == m.1
            }),
    {
        let ghost rv = old(self).rules_view();
        let ghost st0 = old(self).state();
        let ghost ev = entries.deep_view();
        let mut alerts: Vec<AlertCore> = Vec::new();
        let mut i: usize = 0;
        proof {
            assert(ev.take(0) =~= Seq::<LogEntryV>::empty());
        }
        while i < entries.len()
            invariant
                i <= entries@.len(),
                entries.deep_view() == ev,
                entries@.len() == ev.len(),
                self.wf(),
                self.rules_view() == rv,
                ({
                    let m = run_records(rv, st0, ev.take(i as int), now);
                    self.state() == m.0 && alerts.deep_view() == m.1
                }),
            decreases entries@.len() - i,
        {
            let ghost m = run_records(rv, st0, ev.take(i as int), now);
            proof {
                lemma_run_records_take_snoc(rv, st0, ev, now, i as int);
                assert(entries@[i as int]@ == ev[i as int]);
            }
            let mut cores = self.eval_entry(&entries[i], now);
            let ghost s = eval_rules(rv, m.0, ev[i as int], now);
            if cores.len() > 0 {
                let first = cores.remove(0);
                alerts.push(first);
                proof {
                    assert(first@ == s.1[0]);
                    assert(alerts.deep_view() =~= m.1 + seq![s.1[0]]);
                }
            } else {
                proof {
                    assert(alerts.deep_view() =~= m.1 + Seq::<AlertV>::empty());
                }
            }
            i = i + 1;
        }
        proof {
            assert(ev.take(ev.len() as int) =~= ev);
        }
        alerts
    }
}

/// What one partition's outcome holds: how many records it processed and the
/// alerts a fresh detector raises over it.
pub struct ChunkOutcome {
    pub processed: usize,
    pub alerts: Vec<AlertCore>,
}

/// Whether `o` is exactly the outcome of running a fresh detector over
/// `entries` at instant `now`.
pub open spec fn chunk_outcome_matches(
    o: ChunkOutcome,
    rules: Seq<RuleV>,
    entries: Seq<LogEntryV>,
    now: i64,
) -> bool {
    &&& o.processed == entries.len()
    &&& o.alerts.deep_view() == chunk_alerts(rules, entries, now)
}

/// Runs a fresh detector over one partition of records.
pub fn detect_chunk(rules: &Vec<Rule>, entries: Vec<LogEntry>, now: i64) -> (r: ChunkOutcome)
    ensures
        chunk_outcome_matches(r, rules.deep_view(), entries.deep_view(), now),
{
    let mut detector = ThreatDetector::new(clone_rules(rules));
    let alerts = detector.run_entries(&entries, now);
    ChunkOutcome { processed: entries.len(), alerts }
}

} // verus!

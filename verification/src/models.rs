//! Data model: parsed log entries, rules, alerts, metrics and the wire
//! protocol messages, together with their mathematical views.

use vstd::prelude::*;

verus! {

/// A parsed log entry. `raw_log` is always the full original line; fields
/// that were not captured stay `None` rather than becoming empty strings.
/// `timestamp`, when present, is a UTC instant in whole seconds since the
/// Unix epoch.
pub struct LogEntry {
    pub raw_log: String,
    pub timestamp: Option<i64>,
    pub ip_address: Option<String>,
    pub user_id: Option<String>,
    pub event_type: Option<String>,
    pub level: Option<String>,
    pub message: Option<String>,
    pub extra: Vec<(String, String)>,
}

/// The view of a log entry: every string replaced by its character sequence.
#[verifier::ext_equal]
pub struct LogEntryV {
    pub raw_log: Seq<char>,
    pub timestamp: Option<i64>,
    pub ip_address: Option<Seq<char>>,
    pub user_id: Option<Seq<char>>,
    pub event_type: Option<Seq<char>>,
    pub level: Option<Seq<char>>,
    pub message: Option<Seq<char>>,
    pub extra: Seq<(Seq<char>, Seq<char>)>,
}

pub open spec fn view_opt_string(s: Option<String>) -> Option<Seq<char>> {
    match s {
        Some(v) => Some(v@),
        None => None,
    }
}

pub open spec fn view_pairs(v: Seq<(String, String)>) -> Seq<(Seq<char>, Seq<char>)> {
    v.map_values(|p: (String, String)| (p.0@, p.1@))
}

impl View for LogEntry {
    type V = LogEntryV;

    open spec fn view(&self) -> LogEntryV {
        LogEntryV {
            raw_log: self.raw_log@,
            timestamp: self.timestamp,
            ip_address: view_opt_string(self.ip_address),
            user_id: view_opt_string(self.user_id),
            event_type: view_opt_string(self.event_type),
            level: view_opt_string(self.level),
            message: view_opt_string(self.message),
            extra: view_pairs(self.extra@),
        }
    }
}

impl DeepView for LogEntry {
    type V = LogEntryV;

    open spec fn deep_view(&self) -> LogEntryV {
        self.view()
    }
}

/// The kind of an alert.
pub enum AlertType {
    BruteForce,
    HighFrequencyRequest,
    SuspiciousIp,
    Custom(String),
}

/// The view of an alert kind.
pub enum AlertTypeV {
    BruteForce,
    HighFrequencyRequest,
    SuspiciousIp,
    Custom(Seq<char>),
}

impl View for AlertType {
    type V = AlertTypeV;

    open spec fn view(&self) -> AlertTypeV {
        match self {
            AlertType::BruteForce => AlertTypeV::BruteForce,
            AlertType::HighFrequencyRequest => AlertTypeV::HighFrequencyRequest,
            AlertType::SuspiciousIp => AlertTypeV::SuspiciousIp,
            AlertType::Custom(label) => AlertTypeV::Custom(label@),
        }
    }
}

impl DeepView for AlertType {
    type V = AlertTypeV;

    open spec fn deep_view(&self) -> AlertTypeV {
        self.view()
    }
}

impl Clone for AlertType {
    fn clone(&self) -> (res: Self)
        ensures
            res@ == self@,
    {
        match self {
            AlertType::BruteForce => AlertType::BruteForce,
            AlertType::HighFrequencyRequest => AlertType::HighFrequencyRequest,
            AlertType::SuspiciousIp => AlertType::SuspiciousIp,
            AlertType::Custom(label) => AlertType::Custom(label.clone()),
        }
    }
}

/// The kind of a detection rule.
pub enum RuleType {
    BruteForce,
    HighFrequencyRequest,
    SuspiciousIp,
    Custom(String),
}

/// The view of a rule kind.
pub enum RuleTypeV {
    BruteForce,
    HighFrequencyRequest,
    SuspiciousIp,
    Custom(Seq<char>),
}

impl View for RuleType {
    type V = RuleTypeV;

    open spec fn view(&self) -> RuleTypeV {
        match self {
            RuleType::BruteForce => RuleTypeV::BruteForce,
            RuleType::HighFrequencyRequest => RuleTypeV::HighFrequencyRequest,
            RuleType::SuspiciousIp => RuleTypeV::SuspiciousIp,
            RuleType::Custom(label) => RuleTypeV::Custom(label@),
        }
    }
}

impl DeepView for RuleType {
    type V = RuleTypeV;

    open spec fn deep_view(&self) -> RuleTypeV {
        self.view()
    }
}

impl Clone for RuleType {
    fn clone(&self) -> (res: Self)
        ensures
            res@ == self@,
    {
        match self {
            RuleType::BruteForce => RuleType::BruteForce,
            RuleType::HighFrequencyRequest => RuleType::HighFrequencyRequest,
            RuleType::SuspiciousIp => RuleType::SuspiciousIp,
            RuleType::Custom(label) => RuleType::Custom(label.clone()),
        }
    }
}

/// A detection rule. Kinds other than `Custom` ignore `pattern`; the three
/// stateful kinds require both `time_window_seconds` and `threshold`;
/// disabled rules are never evaluated.
pub struct Rule {
    pub id: String,
    pub name: String,
    pub pattern: String,
    pub description: String,
    pub alert_type: AlertType,
    pub enabled: bool,
    pub rule_type: RuleType,
    pub time_window_seconds: Option<u64>,
    pub threshold: Option<u64>,
}

/// The view of a detection rule.
#[verifier::ext_equal]
pub struct RuleV {
    pub id: Seq<char>,
    pub name: Seq<char>,
    pub pattern: Seq<char>,
    pub description: Seq<char>,
    pub alert_type: AlertTypeV,
    pub enabled: bool,
    pub rule_type: RuleTypeV,
    pub time_window_seconds: Option<u64>,
    pub threshold: Option<u64>,
}

impl View for Rule {
    type V = RuleV;

    open spec fn view(&self) -> RuleV {
        RuleV {
            id: self.id@,
            name: self.name@,
            pattern: self.pattern@,
            description: self.description@,
            alert_type: self.alert_type@,
            enabled: self.enabled,
            rule_type: self.rule_type@,
            time_window_seconds: self.time_window_seconds,
            threshold: self.threshold,
        }
    }
}

impl DeepView for Rule {
    type V = RuleV;

    open spec fn deep_view(&self) -> RuleV {
        self.view()
    }
}

impl Clone for Rule {
    fn clone(&self) -> (res: Self)
        ensures
            res@ == self@,
    {
        Rule {
            id: self.id.clone(),
            name: self.name.clone(),
            pattern: self.pattern.clone(),
            description: self.description.clone(),
            alert_type: self.alert_type.clone(),
            enabled: self.enabled,
            rule_type: self.rule_type.clone(),
            time_window_seconds: self.time_window_seconds,
            threshold: self.threshold,
        }
    }
}

/// A rule that drives the line parser: a named regex with a map from capture
/// group names to record field names. `default`-flagged rules are tried only
/// after every non-default rule has failed to match.
pub struct ParsingRule {
    pub name: String,
    pub pattern: String,
    pub field_map: Vec<(String, String)>,
    pub default: bool,
}

/// The view of a parsing rule.
#[verifier::ext_equal]
pub struct ParsingRuleV {
    pub name: Seq<char>,
    pub pattern: Seq<char>,
    pub field_map: Seq<(Seq<char>, Seq<char>)>,
    pub default: bool,
}

impl View for ParsingRule {
    type V = ParsingRuleV;

    open spec fn view(&self) -> ParsingRuleV {
        ParsingRuleV {
            name: self.name@,
            pattern: self.pattern@,
            field_map: view_pairs(self.field_map@),
            default: self.default,
        }
    }
}

impl DeepView for ParsingRule {
    type V = ParsingRuleV;

    open spec fn deep_view(&self) -> ParsingRuleV {
        self.view()
    }
}

/// An alert raised by a rule. Value-typed and append-only. The `id` is a
/// fresh UUID and is the one field whose value no contract pins down.
pub struct Alert {
    pub id: String,
    pub timestamp: i64,
    pub alert_type: AlertType,
    pub description: String,
    pub log_entry_sample: Option<LogEntry>,
}

/// The view of an alert without its `id`: everything the detection logic
/// determines about an alert.
#[verifier::ext_equal]
pub struct AlertV {
    pub timestamp: i64,
    pub alert_type: AlertTypeV,
    pub description: Seq<char>,
    pub log_entry_sample: Option<LogEntryV>,
}

impl Alert {
    /// Whether this alert carries exactly the content `v`, its `id` aside.
    pub open spec fn matches(&self, v: AlertV) -> bool {
        &&& self.timestamp == v.timestamp
        &&& self.alert_type@ == v.alert_type
        &&& self.description@ == v.description
        &&& match (&self.log_entry_sample, v.log_entry_sample) {
            (Some(s), Some(sv)) => s@ == sv,
            (None, None) => true,
            _ => false,
        }
    }
}

/// The deterministic content of an alert, before a fresh `id` is attached.
pub struct AlertCore {
    pub timestamp: i64,
    pub alert_type: AlertType,
    pub description: String,
    pub log_entry_sample: Option<LogEntry>,
}

impl View for AlertCore {
    type V = AlertV;

    open spec fn view(&self) -> AlertV {
        AlertV {
            timestamp: self.timestamp,
            alert_type: self.alert_type@,
            description: self.description@,
            log_entry_sample: match &self.log_entry_sample {
                Some(e) => Some(e@),
                None => None,
            },
        }
    }
}

impl DeepView for AlertCore {
    type V = AlertV;

    open spec fn deep_view(&self) -> AlertV {
        self.view()
    }
}

impl AlertCore {
    /// Attaches an identifier, yielding the finished alert.
    pub fn into_alert(self, id: String) -> (r: Alert)
        ensures
            r.matches(self@),
            r.id@ == id@,
    {
        Alert {
            id,
            timestamp: self.timestamp,
            alert_type: self.alert_type,
            description: self.description,
            log_entry_sample: self.log_entry_sample,
        }
    }
}

/// Whether `alerts` carries exactly the contents `vs`, in order, ids aside.
pub open spec fn alerts_match(alerts: Seq<Alert>, vs: Seq<AlertV>) -> bool {
    &&& alerts.len() == vs.len()
    &&& forall|i: int| 0 <= i < alerts.len() ==> #[trigger] alerts[i].matches(vs[i])
}

/// The result of one analysis run.
pub struct Metrics {
    pub total_logs_processed: usize,
    pub execution_time_ms: u64,
    pub logs_per_second: u64,
    pub alerts_generated: Vec<Alert>,
    pub mode: String,
}

/// A message from the master to a worker.
pub enum WorkerMessage {
    LogChunk(Vec<LogEntry>),
    Rules(Vec<Rule>),
    StartAnalysis,
    Shutdown,
}

/// A message from a worker back to the master.
pub enum MasterMessage {
    AnalysisResult(Metrics),
    Error(String),
    Ack,
}

/// Clones a list of string pairs; the copy has the same view.
pub fn clone_string_pairs(v: &Vec<(String, String)>) -> (r: Vec<(String, String)>)
    ensures
        view_pairs(r@) == view_pairs(v@),
        r@.len() == v@.len(),
{
    let mut r: Vec<(String, String)> = Vec::new();
    let mut i: usize = 0;
    while i < v.len()
        invariant
            i <= v@.len(),
            r@.len() == i,
            forall|j: int|
                0 <= j < i ==> #[trigger] r@[j].0@ == v@[j].0@ && r@[j].1@ == v@[j].1@,
        decreases v@.len() - i,
    {
        let p = &v[i];
        r.push((p.0.clone(), p.1.clone()));
        i = i + 1;
    }
    proof {
        assert(view_pairs(r@) =~= view_pairs(v@));
    }
    r
}

fn clone_opt_string(s: &Option<String>) -> (r: Option<String>)
    ensures
        view_opt_string(r) == view_opt_string(*s),
{
    match s {
        Some(v) => Some(v.clone()),
        None => None,
    }
}

impl Clone for LogEntry {
    fn clone(&self) -> (res: Self)
        ensures
            res@ == self@,
    {
        let res = LogEntry {
            raw_log: self.raw_log.clone(),
            timestamp: self.timestamp,
            ip_address: clone_opt_string(&self.ip_address),
            user_id: clone_opt_string(&self.user_id),
            event_type: clone_opt_string(&self.event_type),
            level: clone_opt_string(&self.level),
            message: clone_opt_string(&self.message),
            extra: clone_string_pairs(&self.extra),
        };
        res
    }
}

impl Clone for Alert {
    fn clone(&self) -> (res: Self)
        ensures
            res.id@ == self.id@,
            res.timestamp == self.timestamp,
            res.alert_type@ == self.alert_type@,
            res.description@ == self.description@,
            match (&res.log_entry_sample, &self.log_entry_sample) {
                (Some(a), Some(b)) => a@ == b@,
                (None, None) => true,
                _ => false,
            },
    {
        Alert {
            id: self.id.clone(),
            timestamp: self.timestamp,
            alert_type: self.alert_type.clone(),
            description: self.description.clone(),
            log_entry_sample: match &self.log_entry_sample {
                Some(e) => Some(e.clone()),
                None => None,
            },
        }
    }
}

} // verus!

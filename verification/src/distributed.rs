//! The distributed driver's verified core: the length-prefixed framing of
//! wire messages, the worker's per-message state machine, and the master's
//! aggregation of worker results. The sockets themselves live with the
//! caller, which performs each returned action and hands the next decoded
//! message back.

use vstd::prelude::*;
use vstd::bytes::{spec_u32_from_le_bytes, spec_u32_to_le_bytes, u32_from_le_bytes, u32_to_le_bytes};
use vstd::string::StringExecFns;
use crate::models::{Alert, MasterMessage, Metrics, WorkerMessage, alerts_match};
use crate::sequential_analysis::attach_ids;
use crate::threat_detection::{ThreatDetector, run_records};

verus! {

/// A framed wire message: the body's length as four little-endian bytes,
/// then the body.
pub open spec fn framed(body: Seq<u8>) -> Seq<u8> {
    spec_u32_to_le_bytes(body.len() as u32) + body
}

/// Prefixes a message body with its four-byte little-endian length.
pub fn encode_frame(body: Vec<u8>) -> (r: Vec<u8>)
    requires
        body@.len() <= u32::MAX,
    ensures
        r@ == framed(body@),
        r@.len() == body@.len() + 4,
{
    let len = body.len() as u32;
    let mut r = u32_to_le_bytes(len);
    let mut rest = body;
    r.append(&mut rest);
    r
}

/// Reads a frame's body length from its four header bytes.
pub fn decode_frame_len(header: &Vec<u8>) -> (r: u32)
    requires
        header@.len() == 4,
    ensures
        r == spec_u32_from_le_bytes(header@),
        forall|body: Seq<u8>|
            body.len() <= u32::MAX && header@ + body == #[trigger] framed(body) ==> r == body.len(),
{
    let r = u32_from_le_bytes(header.as_slice());
    proof {
        vstd::bytes::lemma_auto_spec_u32_to_from_le_bytes();
        assert forall|body: Seq<u8>|
            body.len() <= u32::MAX && header@ + body == #[trigger] framed(body) implies r
            == body.len() by {
            assert((header@ + body).subrange(0, 4) == spec_u32_to_le_bytes(body.len() as u32));
            assert((header@ + body).subrange(0, 4) =~= header@);
        }
    }
    r
}

/// A saturating usize sum.
pub open spec fn sat_add_usize(a: nat, b: nat) -> nat {
    if a + b > usize::MAX {
        usize::MAX as nat
    } else {
        a + b
    }
}

fn sat_add_exec(a: usize, b: usize) -> (r: usize)
    ensures
        r == sat_add_usize(a as nat, b as nat),
{
    if a > usize::MAX - b {
        usize::MAX
    } else {
        a + b
    }
}

/// A worker's state between messages on one connection: the detector built
/// from the rules it was sent, and what it has processed so far.
pub struct WorkerState {
    pub detector: Option<ThreatDetector>,
    pub processed: usize,
    pub alerts: Vec<Alert>,
}

impl WorkerState {
    /// The detector, when present, keeps its table invariants.
    pub open spec fn wf(&self) -> bool {
        match self.detector {
            Some(d) => d.wf(),
            None => true,
        }
    }

    /// The state a worker starts a connection with.
    pub fn new() -> (r: Self)
        ensures
            r.wf(),
            r.detector is None,
            r.processed == 0,
            r.alerts@.len() == 0,
    {
        WorkerState { detector: None, processed: 0, alerts: Vec::new() }
    }
}

/// One step of the worker's protocol: the state after the message, the reply
/// to send back, and whether the connection is done.
///
/// `Rules` installs a fresh detector and keeps the running totals;
/// `LogChunk` feeds the records to the detector (if one is installed),
/// keeping each record's first alert; `StartAnalysis` is reserved and only
/// acknowledged; `Shutdown` reports the totals and ends the connection.
pub fn worker_step(state: WorkerState, message: WorkerMessage, now: i64) -> (r: (
    WorkerState,
    MasterMessage,
    bool,
))
    requires
        state.wf(),
    ensures
        r.0.wf(),
        match message {
            WorkerMessage::Rules(rules) => {
                &&& r.1 is Ack
                &&& !r.2
                &&& r.0.detector is Some
                &&& r.0.detector->0.rules_view() == rules.deep_view()
                &&& r.0.detector->0.state() == crate::threat_detection::empty_state()
                &&& r.0.processed == state.processed
                &&& r.0.alerts == state.alerts
            },
            WorkerMessage::LogChunk(entries) => {
                &&& r.1 is Ack
                &&& !r.2
                &&& r.0.processed == sat_add_usize(
                    state.processed as nat,
                    entries@.len() as nat,
                )
                &&& match state.detector {
                    None => r.0.detector is None && r.0.alerts == state.alerts,
                    Some(d) => {
                        let m = run_records(d.rules_view(), d.state(), entries.deep_view(), now);
                        &&& r.0.detector is Some
                        &&& r.0.detector->0.rules_view() == d.rules_view()
                        &&& r.0.detector->0.state() == m.0
                        &&& r.0.alerts@.len() == state.alerts@.len() + m.1.len()
                        &&& r.0.alerts@.subrange(0, state.alerts@.len() as int)
                            == state.alerts@
                        &&& alerts_match(
                            r.0.alerts@.skip(state.alerts@.len() as int),
                            m.1,
                        )
                    },
                }
            },
            WorkerMessage::StartAnalysis => r.1 is Ack && !r.2 && r.0 == state,
            WorkerMessage::Shutdown => {
                &&& r.2
                &&& match r.1 {
                    MasterMessage::AnalysisResult(m) => {
                        &&& m.total_logs_processed == state.processed
                        &&& m.alerts_generated == state.alerts
                        &&& m.mode@ == "Distributed Worker"@
                        &&& m.execution_time_ms == 0
                        &&& m.logs_per_second == 0
                    },
                    _ => false,
                }
            },
        },
{
    match message {
        WorkerMessage::Rules(rules) => {
            let detector = ThreatDetector::new(rules);
            let next = WorkerState {
                detector: Some(detector),
                processed: state.processed,
                alerts: state.alerts,
            };
            (next, MasterMessage::Ack, false)
        },
        WorkerMessage::LogChunk(entries) => {
            let processed = sat_add_exec(state.processed, entries.len());
            match state.detector {
                Some(mut d) => {
                    let cores = d.run_entries(&entries, now);
                    let mut fresh = attach_ids(cores);
                    let mut alerts = state.alerts;
                    let ghost before = alerts@;
                    let ghost added = fresh@;
                    alerts.append(&mut fresh);
                    proof {
                        assert(alerts@.subrange(0, before.len() as int) =~= before);
                        assert(alerts@.skip(before.len() as int) =~= added);
                    }
                    let next = WorkerState { detector: Some(d), processed, alerts };
                    (next, MasterMessage::Ack, false)
                },
                None => {
                    let next = WorkerState { detector: None, processed, alerts: state.alerts };
                    (next, MasterMessage::Ack, false)
                },
            }
        },
        WorkerMessage::StartAnalysis => (state, MasterMessage::Ack, false),
        WorkerMessage::Shutdown => {
            let metrics = Metrics {
                total_logs_processed: state.processed,
                execution_time_ms: 0,
                logs_per_second: 0,
                alerts_generated: state.alerts,
                mode: "Distributed Worker".to_owned(),
            };
            let next = WorkerState { detector: state.detector, processed: 0, alerts: Vec::new() };
            (next, MasterMessage::AnalysisResult(metrics), true)
        },
    }
}

/// The sum of the workers' record totals, saturating.
pub open spec fn total_of(results: Seq<Metrics>) -> nat
    decreases results.len(),
{
    if results.len() == 0 {
        0
    } else {
        sat_add_usize(
            total_of(results.drop_last()),
            results.last().total_logs_processed as nat,
        )
    }
}

/// The workers' alerts, concatenated in result order.
pub open spec fn all_alerts_of(results: Seq<Metrics>) -> Seq<Alert>
    decreases results.len(),
{
    if results.len() == 0 {
        Seq::empty()
    } else {
        all_alerts_of(results.drop_last()) + results.last().alerts_generated@
    }
}

/// Aggregates the workers' final results: record totals are summed
/// (saturating) and alerts are concatenated in the order the results came
/// back, which is partition order.
pub fn aggregate_worker_results(results: Vec<Metrics>) -> (r: (usize, Vec<Alert>))
    ensures
        r.0 == total_of(results@),
        r.1@ == all_alerts_of(results@),
{
    let ghost rv = results@;
    let mut total: usize = 0;
    let mut alerts: Vec<Alert> = Vec::new();
    let mut rest = results;
    let ghost mut done: int = 0;
    proof {
        assert(rv.take(0) =~= Seq::<Metrics>::empty());
        assert(alerts@ =~= all_alerts_of(rv.take(0)));
        assert(rest@ =~= rv.skip(0));
    }
    while rest.len() > 0
        invariant
            0 <= done,
            done + rest@.len() == rv.len(),
            rest@ == rv.skip(done),
            total == total_of(rv.take(done)),
            alerts@ == all_alerts_of(rv.take(done)),
        decreases rest@.len(),
    {
        let ghost k = done;
        let mut m = rest.remove(0);
        proof {
            assert(m == rv[k]);
            assert(rest@ =~= rv.skip(k + 1));
            assert(rv.take(k + 1).drop_last() =~= rv.take(k));
            assert(rv.take(k + 1).last() == rv[k]);
        }
        total = sat_add_exec(total, m.total_logs_processed);
        let ghost before = alerts@;
        alerts.append(&mut m.alerts_generated);
        proof {
            done = done + 1;
            assert(alerts@ =~= all_alerts_of(rv.take(done)));
        }
    }
    proof {
        assert(rv.take(rv.len() as int) =~= rv);
    }
    (total, alerts)
}

} // verus!

//! The parallel driver: records are partitioned into consecutive chunks,
//! each chunk is evaluated by a private detector on the worker pool, and the
//! alerts are concatenated in partition order. Counters are not shared
//! across partitions; the equivalence law at the end of this module says
//! exactly when that makes no difference.

use vstd::prelude::*;
use rayon::iter::IntoParallelIterator;
use rayon::iter::ParallelIterator;
use crate::models::{AlertCore, AlertV, LogEntry, LogEntryV, Metrics, Rule, RuleV, alerts_match};
use crate::sequential_analysis::{attach_ids, compute_rate, rate_per_second};
use crate::threat_detection::{
    ChunkOutcome,
    DetectorStateV,
    agree_at_ip,
    agree_on_entry,
    chunk_alerts,
    chunk_outcome_matches,
    detect_chunk,
    empty_state,
    entries_avoid_ip,
    lemma_run_agree,
    lemma_run_records_concat,
    run_records,
};
use crate::timeutil::now_seconds;
use crate::utils::Timer;

verus! {

/// The chunk size the drivers use: records divided evenly over the workers,
/// rounded up.
pub open spec fn chunk_size_of(len: nat, workers: nat) -> nat {
    (((len + workers - 1) as int) / (workers as int)) as nat
}

/// Computes `chunk_size_of` exactly.
pub fn chunk_size_for(len: usize, workers: usize) -> (r: usize)
    requires
        workers >= 1,
    ensures
        r == chunk_size_of(len as nat, workers as nat),
        len >= 1 ==> r >= 1,
{
    let wide: u128 = ((len as u128) + (workers as u128) - 1) / (workers as u128);
    proof {
        assert(wide <= len as u128) by (nonlinear_arith)
            requires
                wide == ((len as u128) + (workers as u128) - 1) as int / (workers as u128) as int,
                workers >= 1,
        ;
        if len >= 1 {
            assert(wide >= 1) by (nonlinear_arith)
                requires
                    wide == ((len as u128) + (workers as u128) - 1) as int / (
                    workers as u128) as int,
                    workers >= 1,
                    len >= 1,
            ;
        }
    }
    wide as usize
}

/// Consecutive chunks of `size` records, in order; the last chunk may be
/// shorter.
pub open spec fn partition_spec(entries: Seq<LogEntryV>, size: nat) -> Seq<Seq<LogEntryV>>
    decreases entries.len(),
{
    if entries.len() == 0 {
        Seq::empty()
    } else if entries.len() <= size || size == 0 {
        seq![entries]
    } else {
        seq![entries.take(size as int)] + partition_spec(entries.skip(size as int), size)
    }
}

/// A partition flattens back to the records it was made from.
pub proof fn lemma_partition_flatten(entries: Seq<LogEntryV>, size: nat)
    requires
        size >= 1,
    ensures
        partition_spec(entries, size).flatten() == entries,
    decreases entries.len(),
{
    if entries.len() == 0 {
        assert(Seq::<Seq<LogEntryV>>::empty().flatten() == Seq::<LogEntryV>::empty());
        assert(partition_spec(entries, size).flatten() =~= entries);
    } else if entries.len() <= size {
        assert(partition_spec(entries, size) =~= seq![entries]);
        assert(seq![entries].drop_first() =~= Seq::<Seq<LogEntryV>>::empty());
        assert(Seq::<Seq<LogEntryV>>::empty().flatten() == Seq::<LogEntryV>::empty());
        assert(seq![entries].flatten() == entries + Seq::<Seq<LogEntryV>>::empty().flatten());
        assert(partition_spec(entries, size).flatten() =~= entries);
    } else {
        lemma_partition_flatten(entries.skip(size as int), size);
        let parts = partition_spec(entries, size);
        assert(parts[0] == entries.take(size as int));
        assert(parts.drop_first() =~= partition_spec(entries.skip(size as int), size));
        assert(parts.flatten() == parts[0] + parts.drop_first().flatten());
        assert(entries.take(size as int) + entries.skip(size as int) =~= entries);
    }
}

/// Splits the records into consecutive chunks of `size`.
pub fn partition_chunks(records: Vec<LogEntry>, size: usize) -> (r: Vec<Vec<LogEntry>>)
    requires
        size >= 1,
    ensures
        r.deep_view() == partition_spec(records.deep_view(), size as nat),
{
    let ghost ev = records.deep_view();
    let mut chunks: Vec<Vec<LogEntry>> = Vec::new();
    let mut remaining = records;
    while remaining.len() > 0
        invariant
            size >= 1,
            chunks.deep_view() + partition_spec(remaining.deep_view(), size as nat)
                =~= partition_spec(ev, size as nat),
        decreases remaining@.len(),
    {
        let ghost before = remaining.deep_view();
        let ghost chunks_before = chunks.deep_view();
        if remaining.len() <= size {
            chunks.push(remaining);
            remaining = Vec::new();
            proof {
                assert(partition_spec(before, size as nat) =~= seq![before]);
                assert(chunks.deep_view() =~= chunks_before + seq![before]);
                assert(remaining.deep_view() =~= Seq::<LogEntryV>::empty());
                assert(chunks.deep_view() + partition_spec(remaining.deep_view(), size as nat)
                    =~= partition_spec(ev, size as nat));
            }
        } else {
            let tail = remaining.split_off(size);
            proof {
                assert(remaining.deep_view() =~= before.take(size as int));
                assert(tail.deep_view() =~= before.skip(size as int));
            }
            chunks.push(remaining);
            remaining = tail;
            proof {
                assert(chunks.deep_view() =~= chunks_before + seq![before.take(size as int)]);
                assert(remaining.deep_view() =~= before.skip(size as int));
                assert(partition_spec(before, size as nat) =~= seq![before.take(size as int)]
                    + partition_spec(before.skip(size as int), size as nat));
                assert(chunks.deep_view() + partition_spec(remaining.deep_view(), size as nat)
                    =~= partition_spec(ev, size as nat));
            }
        }
    }
    proof {
        assert(partition_spec(remaining.deep_view(), size as nat) =~= Seq::<
            Seq<LogEntryV>,
        >::empty());
        assert(chunks.deep_view() =~= partition_spec(ev, size as nat));
    }
    chunks
}

/// The concatenation, in partition order, of the alerts each partition's
/// private detector raises from a fresh state.
pub open spec fn concat_chunk_alerts(
    rules: Seq<RuleV>,
    chunks: Seq<Seq<LogEntryV>>,
    now: i64,
) -> Seq<AlertV>
    decreases chunks.len(),
{
    if chunks.len() == 0 {
        Seq::empty()
    } else {
        chunk_alerts(rules, chunks[0], now) + concat_chunk_alerts(rules, chunks.drop_first(), now)
    }
}

/// One more chunk appends its alerts to the concatenation so far.
pub proof fn lemma_concat_chunk_alerts_take_snoc(
    rules: Seq<RuleV>,
    chunks: Seq<Seq<LogEntryV>>,
    now: i64,
    i: int,
)
    requires
        0 <= i < chunks.len(),
    ensures
        concat_chunk_alerts(rules, chunks.take(i + 1), now) == concat_chunk_alerts(
            rules,
            chunks.take(i),
            now,
        ) + chunk_alerts(rules, chunks[i], now),
    decreases i,
{
    if i == 0 {
        assert(chunks.take(1) =~= seq![chunks[0]]);
        assert(chunks.take(1).drop_first() =~= Seq::<Seq<LogEntryV>>::empty());
        assert(chunks.take(0) =~= Seq::<Seq<LogEntryV>>::empty());
        assert(concat_chunk_alerts(rules, Seq::<Seq<LogEntryV>>::empty(), now) == Seq::<
            AlertV,
        >::empty());
        assert(chunks.take(1)[0] == chunks[0]);
        assert(concat_chunk_alerts(rules, chunks.take(1), now) == chunk_alerts(
            rules,
            chunks[0],
            now,
        ) + Seq::<AlertV>::empty());
        assert(concat_chunk_alerts(rules, chunks.take(0), now) + chunk_alerts(rules, chunks[0], now)
            =~= chunk_alerts(rules, chunks[0], now) + Seq::<AlertV>::empty());
    } else {
        lemma_concat_chunk_alerts_take_snoc(rules, chunks.drop_first(), now, i - 1);
        assert(chunks.take(i + 1).drop_first() =~= chunks.drop_first().take(i));
        assert(chunks.take(i).drop_first() =~= chunks.drop_first().take(i - 1));
        assert(chunks.take(i + 1)[0] == chunks[0]);
        assert(chunks.take(i)[0] == chunks[0]);
        assert(chunks.drop_first()[i - 1] == chunks[i]);
        assert(chunk_alerts(rules, chunks[0], now) + (concat_chunk_alerts(
            rules,
            chunks.drop_first().take(i - 1),
            now,
        ) + chunk_alerts(rules, chunks[i], now)) =~= (chunk_alerts(rules, chunks[0], now)
            + concat_chunk_alerts(rules, chunks.drop_first().take(i - 1), now)) + chunk_alerts(
            rules,
            chunks[i],
            now,
        ));
    }
}

/// Relies on rayon's `IntoParallelIterator` for `Vec`, `map` and `collect`:
/// collecting an indexed parallel iterator into a `Vec` keeps the input
/// order, so the result holds, chunk by chunk, what `detect_chunk` (a
/// verified function of this library) returns for that chunk.
#[verifier::external_body]
fn par_detect_chunks(rules: &Vec<Rule>, chunks: Vec<Vec<LogEntry>>, now: i64) -> (r: Vec<
    ChunkOutcome,
>)
    ensures
        r@.len() == chunks.deep_view().len(),
        forall|i: int|
            0 <= i < r@.len() ==> chunk_outcome_matches(
                #[trigger] r@[i],
                rules.deep_view(),
                chunks.deep_view()[i],
                now,
            ),
{
    chunks.into_par_iter().map(|c| detect_chunk(rules, c, now)).collect()
}

/// Partitions the records over `num_workers` private detectors and
/// concatenates each partition's alerts in partition order.
pub fn run_parallel_analysis(parsed_logs: Vec<LogEntry>, rules: Vec<Rule>, num_workers: usize) -> (
    r: Metrics)
    requires
        num_workers >= 1,
    ensures
        r.total_logs_processed == parsed_logs@.len(),
        r.mode@ == "Parallel"@,
        r.logs_per_second == rate_per_second(
            parsed_logs@.len() as nat,
            r.execution_time_ms as nat,
        ),
        exists|now: i64|
            alerts_match(
                r.alerts_generated@,
                #[trigger] concat_chunk_alerts(
                    rules.deep_view(),
                    partition_spec(
                        parsed_logs.deep_view(),
                        chunk_size_of(parsed_logs@.len() as nat, num_workers as nat),
                    ),
                    now,
                ),
            ),
{
    let timer = Timer::new();
    let now = now_seconds();
    let total = parsed_logs.len();
    let ghost ev = parsed_logs.deep_view();
    let ghost size_spec = chunk_size_of(parsed_logs@.len() as nat, num_workers as nat);
    let cores: Vec<AlertCore> = if total == 0 {
        let empty_cores: Vec<AlertCore> = Vec::new();
        proof {
            assert(partition_spec(ev, size_spec) =~= Seq::<Seq<LogEntryV>>::empty());
            assert(concat_chunk_alerts(
                rules.deep_view(),
                partition_spec(ev, size_spec),
                now,
            ) == Seq::<AlertV>::empty());
            assert(empty_cores.deep_view() =~= Seq::<AlertV>::empty());
        }
        empty_cores
    } else {
        let size = chunk_size_for(total, num_workers);
        let chunks = partition_chunks(parsed_logs, size);
        let ghost chunks_dv = chunks.deep_view();
        let outcomes = par_detect_chunks(&rules, chunks, now);
        collect_chunk_alerts(outcomes, Ghost(rules.deep_view()), Ghost(chunks_dv), Ghost(now))
    };
    proof {
        assert(cores.deep_view() == concat_chunk_alerts(
            rules.deep_view(),
            partition_spec(ev, size_spec),
            now,
        ));
    }
    let alerts = attach_ids(cores);
    proof {
        assert(alerts_match(
            alerts@,
            concat_chunk_alerts(rules.deep_view(), partition_spec(ev, size_spec), now),
        ));
    }
    let ms = timer.elapsed_millis();
    Metrics {
        total_logs_processed: total,
        execution_time_ms: ms,
        logs_per_second: compute_rate(total, ms),
        alerts_generated: alerts,
        mode: "Parallel".to_owned(),
    }
}

/// Concatenates the per-partition alerts in partition order.
fn collect_chunk_alerts(
    outcomes: Vec<ChunkOutcome>,
    Ghost(rules): Ghost<Seq<RuleV>>,
    Ghost(chunks): Ghost<Seq<Seq<LogEntryV>>>,
    Ghost(now): Ghost<i64>,
) -> (r: Vec<AlertCore>)
    requires
        outcomes@.len() == chunks.len(),
        forall|i: int|
            0 <= i < outcomes@.len() ==> chunk_outcome_matches(
                #[trigger] outcomes@[i],
                rules,
                chunks[i],
                now,
            ),
    ensures
        r.deep_view() == concat_chunk_alerts(rules, chunks, now),
{
    let mut cores: Vec<AlertCore> = Vec::new();
    let mut rest = outcomes;
    let ghost mut done: int = 0;
    proof {
        assert(chunks.take(0) =~= Seq::<Seq<LogEntryV>>::empty());
        assert(concat_chunk_alerts(rules, Seq::<Seq<LogEntryV>>::empty(), now) == Seq::<
            AlertV,
        >::empty());
        assert(cores.deep_view() =~= Seq::<AlertV>::empty());
        assert(rest@ =~= outcomes@.skip(0));
    }
    while rest.len() > 0
        invariant
            0 <= done,
            done + rest@.len() == chunks.len(),
            rest@ == outcomes@.skip(done as int),
            cores.deep_view() == concat_chunk_alerts(rules, chunks.take(done), now),
            outcomes@.len() == chunks.len(),
            forall|i: int|
                0 <= i < outcomes@.len() ==> chunk_outcome_matches(
                    #[trigger] outcomes@[i],
                    rules,
                    chunks[i],
                    now,
                ),
        decreases rest@.len(),
    {
        let ghost k = done;
        let mut o = rest.remove(0);
        proof {
            assert(o == outcomes@[k]);
            assert(rest@ =~= outcomes@.skip(k + 1));
            lemma_concat_chunk_alerts_take_snoc(rules, chunks, now, k);
        }
        let ghost cores_before = cores.deep_view();
        let ghost added = o.alerts.deep_view();
        cores.append(&mut o.alerts);
        proof {
            done = done + 1;
            assert(cores.deep_view() =~= cores_before + added);
        }
    }
    proof {
        assert(chunks.take(chunks.len() as int) =~= chunks);
    }
    cores
}

/// Whether no IP address occurs in records of two different partitions: the
/// precondition under which per-partition counters see everything the shared
/// counters would.
pub open spec fn chunks_ip_disjoint(chunks: Seq<Seq<LogEntryV>>) -> bool {
    forall|i: int, j: int, a: int, b: int|
        #![trigger chunks[i][a], chunks[j][b]]
        0 <= i < chunks.len() && 0 <= j < chunks.len() && i != j && 0 <= a < chunks[i].len() && 0
            <= b < chunks[j].len() && chunks[i][a].ip_address is Some
            ==> chunks[i][a].ip_address != chunks[j][b].ip_address
}

proof fn lemma_run_chunks_from(
    rules: Seq<RuleV>,
    st: DetectorStateV,
    chunks: Seq<Seq<LogEntryV>>,
    now: i64,
)
    requires
        chunks_ip_disjoint(chunks),
        forall|j: int, k: int|
            0 <= j < chunks.len() && 0 <= k < chunks[j].len() ==> agree_on_entry(
                st,
                empty_state(),
                #[trigger] chunks[j][k],
            ),
    ensures
        run_records(rules, st, chunks.flatten(), now).1 == concat_chunk_alerts(rules, chunks, now),
    decreases chunks.len(),
{
    if chunks.len() == 0 {
        assert(chunks.flatten() == Seq::<LogEntryV>::empty());
    } else {
        let c0 = chunks[0];
        let rest = chunks.drop_first();
        assert(chunks.first() == c0);
        assert(chunks.flatten() == c0 + rest.flatten());
        lemma_run_records_concat(rules, c0, rest.flatten(), st, now);
        let a = run_records(rules, st, c0, now);
        assert forall|k: int| 0 <= k < c0.len() implies agree_on_entry(
            st,
            empty_state(),
            #[trigger] c0[k],
        ) by {
            assert(agree_on_entry(st, empty_state(), chunks[0][k]));
        }
        lemma_run_agree(rules, st, empty_state(), c0, now);
        let ae = run_records(rules, empty_state(), c0, now);
        assert(a.1 == ae.1);
        assert(chunks_ip_disjoint(rest)) by {
            assert forall|i: int, j: int, x: int, y: int|
                #![trigger rest[i][x], rest[j][y]]
                0 <= i < rest.len() && 0 <= j < rest.len() && i != j && 0 <= x < rest[i].len() && 0
                    <= y < rest[j].len() && rest[i][x].ip_address is Some implies rest[i][x].ip_address
                != rest[j][y].ip_address by {
                assert(rest[i][x] == chunks[i + 1][x]);
                assert(rest[j][y] == chunks[j + 1][y]);
            }
        }
        assert forall|j: int, k: int|
            0 <= j < rest.len() && 0 <= k < rest[j].len() implies agree_on_entry(
            a.0,
            empty_state(),
            #[trigger] rest[j][k],
        ) by {
            let e = rest[j][k];
            assert(e == chunks[j + 1][k]);
            assert(agree_on_entry(st, empty_state(), chunks[j + 1][k]));
            match e.ip_address {
                Some(ip) => {
                    assert(entries_avoid_ip(c0, ip)) by {
                        assert forall|x: int| 0 <= x < c0.len() implies (
                        #[trigger] c0[x]).ip_address != Some(ip) by {
                            assert(chunks[j + 1][k].ip_address != chunks[0][x].ip_address);
                        }
                    }
                    assert(agree_at_ip(a.0, st, ip));
                },
                None => {},
            }
        }
        lemma_run_chunks_from(rules, a.0, rest, now);
    }
}

/// Sequential / parallel equivalence modulo state scope. When no IP address
/// occurs in two different partitions, the concatenation of the alerts that
/// the partitions' private detectors raise is exactly the sequence — and so
/// also the multiset — of alerts one detector raises over the concatenated
/// records.
pub proof fn lemma_sequential_parallel_equivalence(
    rules: Seq<RuleV>,
    chunks: Seq<Seq<LogEntryV>>,
    now: i64,
)
    requires
        chunks_ip_disjoint(chunks),
    ensures
        concat_chunk_alerts(rules, chunks, now) == chunk_alerts(rules, chunks.flatten(), now),
        concat_chunk_alerts(rules, chunks, now).to_multiset() == chunk_alerts(
            rules,
            chunks.flatten(),
            now,
        ).to_multiset(),
{
    lemma_run_chunks_from(rules, empty_state(), chunks, now);
}

} // verus!

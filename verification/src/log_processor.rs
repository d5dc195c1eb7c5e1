//! The line parser: raw log content is split into lines, each line is
//! matched against the parsing rules in declared order (default-flagged
//! rules last), and the named captures of the first matching rule populate a
//! record. Also the record-stream drivers built on the stateless rule
//! catalogue.

use vstd::prelude::*;
use vstd::string::StrSliceExecFns;
use crate::models::{
    Alert,
    LogEntry,
    LogEntryV,
    Metrics,
    ParsingRule,
    ParsingRuleV,
    alerts_match,
    view_pairs,
};
use crate::patterns::{regex_captures_of, regex_named_captures};
use crate::models::AlertCore;
use crate::models::AlertV;
use crate::models::RuleV;
use crate::rules_engine::{RulesEngine, engine_alerts};
use crate::sequential_analysis::{attach_ids, compute_rate, rate_per_second};
use crate::timeutil::now_seconds;
use crate::text::{char_at_from, find_char_from, lemma_char_at_from_charac, string_is};
use crate::timeutil::{normalize_timestamp, normalized_timestamp_of};
use crate::utils::Timer;
use rayon::iter::IntoParallelRefIterator;
use rayon::iter::ParallelIterator;

verus! {

/// A record holding nothing but the raw line.
pub open spec fn empty_record(line: Seq<char>) -> LogEntryV {
    LogEntryV {
        raw_log: line,
        timestamp: None,
        ip_address: None,
        user_id: None,
        event_type: None,
        level: None,
        message: None,
        extra: Seq::empty(),
    }
}

/// The field a capture group is mapped to: the first pair of the field map
/// at or after `i` whose capture-group name is `gname`.
pub open spec fn lookup_field(
    field_map: Seq<(Seq<char>, Seq<char>)>,
    gname: Seq<char>,
    i: int,
) -> Option<Seq<char>>
    decreases field_map.len() + 1 - i,
{
    if i < 0 || i >= field_map.len() {
        None
    } else if field_map[i].0 == gname {
        Some(field_map[i].1)
    } else {
        lookup_field(field_map, gname, i + 1)
    }
}

/// The first position at or after `i` in `extra` holding the key `k`.
pub open spec fn extra_key_idx(
    extra: Seq<(Seq<char>, Seq<char>)>,
    k: Seq<char>,
    i: int,
) -> Option<int>
    decreases extra.len() + 1 - i,
{
    if i < 0 || i >= extra.len() {
        None
    } else if extra[i].0 == k {
        Some(i)
    } else {
        extra_key_idx(extra, k, i + 1)
    }
}

/// `extra` with `k` bound to `v`: the first pair holding `k` is replaced, or
/// a new pair is appended.
pub open spec fn upsert_extra(
    extra: Seq<(Seq<char>, Seq<char>)>,
    k: Seq<char>,
    v: Seq<char>,
) -> Seq<(Seq<char>, Seq<char>)> {
    match extra_key_idx(extra, k, 0) {
        Some(i) => extra.update(i, (k, v)),
        None => extra.push((k, v)),
    }
}

/// One capture assigned to a record: the six recognised field names populate
/// their typed slots — a timestamp only when it parses under a supported
/// format — and any other name lands in `extra`.
pub open spec fn assign_field(r: LogEntryV, field: Seq<char>, value: Seq<char>) -> LogEntryV {
    if field == "timestamp"@ {
        match normalized_timestamp_of(value) {
            Some(t) => LogEntryV { timestamp: Some(t), ..r },
            None => r,
        }
    } else if field == "ip_address"@ {
        LogEntryV { ip_address: Some(value), ..r }
    } else if field == "user_id"@ {
        LogEntryV { user_id: Some(value), ..r }
    } else if field == "event_type"@ {
        LogEntryV { event_type: Some(value), ..r }
    } else if field == "level"@ {
        LogEntryV { level: Some(value), ..r }
    } else if field == "message"@ {
        LogEntryV { message: Some(value), ..r }
    } else {
        LogEntryV { extra: upsert_extra(r.extra, field, value), ..r }
    }
}

/// Every named capture applied to the record in capture order; a capture
/// whose group name the field map does not mention is dropped.
pub open spec fn apply_captures(
    r: LogEntryV,
    field_map: Seq<(Seq<char>, Seq<char>)>,
    caps: Seq<(Seq<char>, Seq<char>)>,
) -> LogEntryV
    decreases caps.len(),
{
    if caps.len() == 0 {
        r
    } else {
        let r1 = match lookup_field(field_map, caps[0].0, 0) {
            Some(f) => assign_field(r, f, caps[0].1),
            None => r,
        };
        apply_captures(r1, field_map, caps.drop_first())
    }
}

/// Applying a concatenation of capture lists composes the two applications.
pub proof fn lemma_apply_captures_concat(
    r: LogEntryV,
    field_map: Seq<(Seq<char>, Seq<char>)>,
    c1: Seq<(Seq<char>, Seq<char>)>,
    c2: Seq<(Seq<char>, Seq<char>)>,
)
    ensures
        apply_captures(r, field_map, c1 + c2) == apply_captures(
            apply_captures(r, field_map, c1),
            field_map,
            c2,
        ),
    decreases c1.len(),
{
    if c1.len() == 0 {
        assert(c1 + c2 =~= c2);
    } else {
        assert((c1 + c2)[0] == c1[0]);
        assert((c1 + c2).drop_first() =~= c1.drop_first() + c2);
        let r1 = match lookup_field(field_map, c1[0].0, 0) {
            Some(f) => assign_field(r, f, c1[0].1),
            None => r,
        };
        lemma_apply_captures_concat(r1, field_map, c1.drop_first(), c2);
    }
}

/// Applying one more capture steps the application so far.
pub proof fn lemma_apply_captures_take_snoc(
    r: LogEntryV,
    field_map: Seq<(Seq<char>, Seq<char>)>,
    caps: Seq<(Seq<char>, Seq<char>)>,
    i: int,
)
    requires
        0 <= i < caps.len(),
    ensures
        apply_captures(r, field_map, caps.take(i + 1)) == ({
            let prev = apply_captures(r, field_map, caps.take(i));
            match lookup_field(field_map, caps[i].0, 0) {
                Some(f) => assign_field(prev, f, caps[i].1),
                None => prev,
            }
        }),
{
    let single = seq![caps[i]];
    assert(caps.take(i + 1) =~= caps.take(i) + single);
    lemma_apply_captures_concat(r, field_map, caps.take(i), single);
    let prev = apply_captures(r, field_map, caps.take(i));
    let stepped = match lookup_field(field_map, caps[i].0, 0) {
        Some(f) => assign_field(prev, f, caps[i].1),
        None => prev,
    };
    assert(single[0] == caps[i]);
    assert(single.drop_first() =~= Seq::<(Seq<char>, Seq<char>)>::empty());
    assert(apply_captures(stepped, field_map, single.drop_first()) == stepped);
}

/// The first rule at or after `i` with the wanted `default` flag whose
/// pattern is a valid regex matching `line`.
pub open spec fn first_match_from(
    rules: Seq<ParsingRuleV>,
    line: Seq<char>,
    want_default: bool,
    i: int,
) -> Option<int>
    decreases rules.len() + 1 - i,
{
    if i < 0 || i >= rules.len() {
        None
    } else if rules[i].default == want_default && regex_captures_of(rules[i].pattern, line)
        is Some {
        Some(i)
    } else {
        first_match_from(rules, line, want_default, i + 1)
    }
}

/// The rule the parser applies to a line: the first matching non-default
/// rule, and only when none matches, the first matching default rule.
pub open spec fn parse_choice(rules: Seq<ParsingRuleV>, line: Seq<char>) -> Option<int> {
    match first_match_from(rules, line, false, 0) {
        Some(i) => Some(i),
        None => first_match_from(rules, line, true, 0),
    }
}

/// The record a line parses to: the first matching rule's named captures
/// applied to an otherwise empty record, or the empty record alone.
pub open spec fn parse_line_spec(rules: Seq<ParsingRuleV>, line: Seq<char>) -> LogEntryV {
    match parse_choice(rules, line) {
        Some(i) => apply_captures(
            empty_record(line),
            rules[i].field_map,
            regex_captures_of(rules[i].pattern, line)->0,
        ),
        None => empty_record(line),
    }
}

/// Whatever `first_match_from` finds is the first match at or after `from`.
pub proof fn lemma_first_match_charac(
    rules: Seq<ParsingRuleV>,
    line: Seq<char>,
    want_default: bool,
    from: int,
)
    requires
        0 <= from,
    ensures
        match first_match_from(rules, line, want_default, from) {
            Some(i) => from <= i < rules.len() && rules[i].default == want_default
                && regex_captures_of(rules[i].pattern, line) is Some && forall|k: int|
                from <= k < i && (#[trigger] rules[k]).default == want_default
                    ==> regex_captures_of(rules[k].pattern, line) is None,
            None => forall|k: int|
                from <= k < rules.len() && (#[trigger] rules[k]).default == want_default
                    ==> regex_captures_of(rules[k].pattern, line) is None,
        },
    decreases rules.len() + 1 - from,
{
    if from < rules.len() && !(rules[from].default == want_default && regex_captures_of(
        rules[from].pattern,
        line,
    ) is Some) {
        lemma_first_match_charac(rules, line, want_default, from + 1);
    }
}

/// Parser first-match: when at least one non-default rule matches a line,
/// the record is populated exclusively from the first matching non-default
/// rule in declared order — every earlier non-default rule fails to match,
/// and no default rule contributes.
pub proof fn lemma_parser_first_match(rules: Seq<ParsingRuleV>, line: Seq<char>, i: int)
    requires
        0 <= i < rules.len(),
        !rules[i].default,
        regex_captures_of(rules[i].pattern, line) is Some,
    ensures
        ({
            let choice = parse_choice(rules, line);
            &&& choice is Some
            &&& 0 <= choice->0 <= i
            &&& !rules[choice->0].default
            &&& regex_captures_of(rules[choice->0].pattern, line) is Some
            &&& forall|k: int|
                0 <= k < choice->0 && !(#[trigger] rules[k]).default ==> regex_captures_of(
                    rules[k].pattern,
                    line,
                ) is None
            &&& parse_line_spec(rules, line) == apply_captures(
                empty_record(line),
                rules[choice->0].field_map,
                regex_captures_of(rules[choice->0].pattern, line)->0,
            )
        }),
{
    lemma_first_match_charac(rules, line, false, 0);
}

fn assign_field_exec(r: &mut LogEntry, field: &String, value: String)
    ensures
        final(r)@ == assign_field(old(r)@, field@, value@),
{
    if string_is(field, "timestamp") {
        if let Some(t) = normalize_timestamp(value.as_str()) {
            r.timestamp = Some(t);
        }
    } else if string_is(field, "ip_address") {
        r.ip_address = Some(value);
    } else if string_is(field, "user_id") {
        r.user_id = Some(value);
    } else if string_is(field, "event_type") {
        r.event_type = Some(value);
    } else if string_is(field, "level") {
        r.level = Some(value);
    } else if string_is(field, "message") {
        r.message = Some(value);
    } else {
        let ghost extra0 = view_pairs(r.extra@);
        let idx = find_extra_idx(&r.extra, field);
        match idx {
            Some(i) => {
                r.extra[i] = (field.clone(), value);
                proof {
                    assert(view_pairs(r.extra@) =~= extra0.update(i as int, (field@, value@)));
                }
            },
            None => {
                r.extra.push((field.clone(), value));
                proof {
                    assert(view_pairs(r.extra@) =~= extra0.push((field@, value@)));
                }
            },
        }
    }
}

fn find_extra_idx(extra: &Vec<(String, String)>, field: &String) -> (r: Option<usize>)
    ensures
        match r {
            Some(i) => i < extra@.len() && extra_key_idx(view_pairs(extra@), field@, 0) == Some(
                i as int,
            ),
            None => extra_key_idx(view_pairs(extra@), field@, 0) is None,
        },
{
    let ghost ev = view_pairs(extra@);
    let mut j: usize = 0;
    while j < extra.len()
        invariant
            j <= extra@.len(),
            ev == view_pairs(extra@),
            extra_key_idx(ev, field@, 0) == extra_key_idx(ev, field@, j as int),
        decreases extra@.len() - j,
    {
        if string_is(&extra[j].0, field.as_str()) {
            return Some(j);
        }
        j = j + 1;
    }
    None
}

fn lookup_field_exec<'a>(field_map: &'a Vec<(String, String)>, gname: &String) -> (r: Option<
    &'a String,
>)
    ensures
        match r {
            Some(f) => lookup_field(view_pairs(field_map@), gname@, 0) == Some(f@),
            None => lookup_field(view_pairs(field_map@), gname@, 0) is None,
        },
{
    let ghost fm = view_pairs(field_map@);
    let mut i: usize = 0;
    while i < field_map.len()
        invariant
            i <= field_map@.len(),
            fm == view_pairs(field_map@),
            lookup_field(fm, gname@, 0) == lookup_field(fm, gname@, i as int),
        decreases field_map@.len() - i,
    {
        if string_is(&field_map[i].0, gname.as_str()) {
            return Some(&field_map[i].1);
        }
        i = i + 1;
    }
    None
}

fn find_matching_rule(parsing_rules: &Vec<ParsingRule>, line: &str, want_default: bool) -> (r:
    Option<(usize, Vec<(String, String)>)>)
    ensures
        match r {
            Some(p) => p.0 < parsing_rules@.len() && first_match_from(
                parsing_rules.deep_view(),
                line@,
                want_default,
                0,
            ) == Some(p.0 as int) && regex_captures_of(
                parsing_rules.deep_view()[p.0 as int].pattern,
                line@,
            ) == Some(view_pairs(p.1@)),
            None => first_match_from(parsing_rules.deep_view(), line@, want_default, 0) is None,
        },
{
    let ghost rv = parsing_rules.deep_view();
    let mut i: usize = 0;
    while i < parsing_rules.len()
        invariant
            i <= parsing_rules@.len(),
            rv == parsing_rules.deep_view(),
            rv.len() == parsing_rules@.len(),
            first_match_from(rv, line@, want_default, 0) == first_match_from(
                rv,
                line@,
                want_default,
                i as int,
            ),
        decreases parsing_rules@.len() - i,
    {
        let rule = &parsing_rules[i];
        proof {
            assert(parsing_rules@[i as int]@ == rv[i as int]);
        }
        if rule.default == want_default {
            if let Some(caps) = regex_named_captures(rule.pattern.as_str(), line) {
                return Some((i, caps));
            }
        }
        i = i + 1;
    }
    None
}

/// Parses one line: the named captures of the first matching rule populate
/// the record, non-default rules being tried before default ones.
pub fn parse_line(parsing_rules: &Vec<ParsingRule>, line: &str) -> (r: LogEntry)
    ensures
        r@ == parse_line_spec(parsing_rules.deep_view(), line@),
{
    let ghost rv = parsing_rules.deep_view();
    let mut record = LogEntry {
        raw_log: line.to_owned(),
        timestamp: None,
        ip_address: None,
        user_id: None,
        event_type: None,
        level: None,
        message: None,
        extra: Vec::new(),
    };
    proof {
        assert(record@ =~= empty_record(line@));
    }
    let found = match find_matching_rule(parsing_rules, line, false) {
        Some(c) => Some(c),
        None => find_matching_rule(parsing_rules, line, true),
    };
    match found {
        Some((idx, captures)) => {
            proof {
                assert(parse_choice(rv, line@) == Some(idx as int));
            }
            let ghost cv = regex_captures_of(rv[idx as int].pattern, line@)->0;
            let rule = &parsing_rules[idx];
            proof {
                assert(view_pairs(rule.field_map@) == rv[idx as int].field_map);
                assert(cv.take(0) =~= Seq::<(Seq<char>, Seq<char>)>::empty());
                assert(cv.skip(0) =~= cv);
            }
            let ghost mut k: int = 0;
            let mut rest = captures;
            while rest.len() > 0
                invariant
                    0 <= k,
                    k + rest@.len() == cv.len(),
                    view_pairs(rest@) == cv.skip(k),
                    rv == parsing_rules.deep_view(),
                    0 <= (idx as int) < rv.len(),
                    parsing_rules@.len() == rv.len(),
                    cv == regex_captures_of(rv[idx as int].pattern, line@)->0,
                    record@ == apply_captures(empty_record(line@), rv[idx as int].field_map, cv.take(k)),
                decreases rest@.len(),
            {
                let ghost rest0 = view_pairs(rest@);
                let ghost rest_vec0 = rest@;
                let (gname, value) = rest.remove(0);
                proof {
                    assert(rest0[0] == cv[k]);
                    assert((gname@, value@) == cv[k]);
                    assert forall|i2: int| 0 <= i2 < view_pairs(rest@).len() implies view_pairs(
                        rest@,
                    )[i2] == cv.skip(k + 1)[i2] by {
                        assert(rest@[i2] == rest_vec0[i2 + 1]);
                        assert(view_pairs(rest@)[i2] == rest0[i2 + 1]);
                        assert(rest0[i2 + 1] == cv.skip(k)[i2 + 1]);
                    }
                    assert(view_pairs(rest@) =~= cv.skip(k + 1));
                    lemma_apply_captures_take_snoc(
                        empty_record(line@),
                        rv[idx as int].field_map,
                        cv,
                        k,
                    );
                }
                let rule = &parsing_rules[idx];
                proof {
                    assert(view_pairs(rule.field_map@) == rv[idx as int].field_map);
                }
                if let Some(field) = lookup_field_exec(&rule.field_map, &gname) {
                    let field_name = field.clone();
                    assign_field_exec(&mut record, &field_name, value);
                }
                proof {
                    k = k + 1;
                }
            }
            proof {
                assert(cv.take(cv.len() as int) =~= cv);
            }
            record
        },
        None => {
            proof {
                assert(parse_choice(rv, line@) is None);
            }
            record
        },
    }
}

/// `s` with one trailing carriage return removed.
pub open spec fn strip_cr(s: Seq<char>) -> Seq<char> {
    if s.len() > 0 && s.last() == '\r' {
        s.drop_last()
    } else {
        s
    }
}

/// The records the lines of `content` from position `pos` parse to: lines
/// are terminated by a newline (a preceding carriage return is dropped), and
/// a final unterminated line counts.
pub open spec fn parse_lines_from(
    rules: Seq<ParsingRuleV>,
    content: Seq<char>,
    pos: int,
) -> Seq<LogEntryV>
    decreases content.len() + 1 - pos,
{
    if pos < 0 || pos >= content.len() {
        Seq::empty()
    } else {
        match char_at_from(content, '\n', pos) {
            Some(j) => if pos <= j < content.len() {
                seq![parse_line_spec(rules, strip_cr(content.subrange(pos, j)))]
                    + parse_lines_from(rules, content, j + 1)
            } else {
                Seq::empty()
            },
            None => seq![
                parse_line_spec(rules, strip_cr(content.subrange(pos, content.len() as int))),
            ],
        }
    }
}

/// One record per line of `content`, in order, each parsed by the first
/// matching rule; a line matching no rule keeps only its raw text.
pub open spec fn parse_content_spec(rules: Seq<ParsingRuleV>, content: Seq<char>) -> Seq<
    LogEntryV,
> {
    parse_lines_from(rules, content, 0)
}

/// Splits `content` into lines and parses each one.
pub fn parse_log_content(content: &str, parsing_rules: &Vec<ParsingRule>) -> (r: Vec<LogEntry>)
    ensures
        r.deep_view() == parse_content_spec(parsing_rules.deep_view(), content@),
{
    let ghost rv = parsing_rules.deep_view();
    let ghost cv = content@;
    let n = content.unicode_len();
    let mut entries: Vec<LogEntry> = Vec::new();
    let mut pos: usize = 0;
    proof {
        assert(entries.deep_view() =~= Seq::<LogEntryV>::empty());
    }
    while pos < n
        invariant
            pos <= n,
            n == cv.len(),
            cv == content@,
            rv == parsing_rules.deep_view(),
            entries.deep_view() + parse_lines_from(rv, cv, pos as int) =~= parse_content_spec(
                rv,
                cv,
            ),
        decreases n - pos,
    {
        let ghost entries0 = entries.deep_view();
        let line_end = find_char_from(content, '\n', pos);
        proof {
            lemma_char_at_from_charac(cv, '\n', pos as int);
        }
        let (line_to, next_pos) = match line_end {
            Some(j) => (j, j + 1),
            None => (n, n),
        };
        let line_to = if line_to > pos && content.get_char(line_to - 1) == '\r' {
            line_to - 1
        } else {
            line_to
        };
        let line = content.substring_char(pos, line_to);
        proof {
            match line_end {
                Some(j) => {
                    assert(line@ =~= strip_cr(cv.subrange(pos as int, j as int)));
                },
                None => {
                    assert(line@ =~= strip_cr(cv.subrange(pos as int, cv.len() as int)));
                },
            }
        }
        let entry = parse_line(parsing_rules, line);
        entries.push(entry);
        proof {
            assert(entries.deep_view() =~= entries0.push(parse_line_spec(rv, line@)));
            match line_end {
                Some(j) => {
                    assert(parse_lines_from(rv, cv, pos as int) == seq![
                        parse_line_spec(rv, strip_cr(cv.subrange(pos as int, j as int))),
                    ] + parse_lines_from(rv, cv, j + 1));
                    assert(entries.deep_view() + parse_lines_from(rv, cv, j + 1)
                        =~= parse_content_spec(rv, cv));
                },
                None => {
                    assert(parse_lines_from(rv, cv, pos as int) == seq![
                        parse_line_spec(rv, strip_cr(cv.subrange(pos as int, cv.len() as int))),
                    ]);
                    assert(parse_lines_from(rv, cv, n as int) =~= Seq::<LogEntryV>::empty());
                    assert(entries.deep_view() + parse_lines_from(rv, cv, n as int)
                        =~= parse_content_spec(rv, cv));
                },
            }
        }
        pos = next_pos;
    }
    proof {
        assert(parse_lines_from(rv, cv, pos as int) =~= Seq::<LogEntryV>::empty());
        assert(entries.deep_view() =~= parse_content_spec(rv, cv));
    }
    entries
}

/// The alerts the stateless evaluator raises over a record stream: every
/// record's alerts, concatenated in arrival order.
pub open spec fn engine_run_alerts(rules: Seq<RuleV>, entries: Seq<LogEntryV>, now: i64) -> Seq<
    AlertV,
>
    decreases entries.len(),
{
    if entries.len() == 0 {
        Seq::empty()
    } else {
        engine_alerts(rules, entries[0], now) + engine_run_alerts(
            rules,
            entries.drop_first(),
            now,
        )
    }
}

/// One more record appends its alerts to the run so far.
pub proof fn lemma_engine_run_take_snoc(
    rules: Seq<RuleV>,
    entries: Seq<LogEntryV>,
    now: i64,
    i: int,
)
    requires
        0 <= i < entries.len(),
    ensures
        engine_run_alerts(rules, entries.take(i + 1), now) == engine_run_alerts(
            rules,
            entries.take(i),
            now,
        ) + engine_alerts(rules, entries[i], now),
    decreases i,
{
    if i == 0 {
        assert(entries.take(1) =~= seq![entries[0]]);
        assert(entries.take(1).drop_first() =~= Seq::<LogEntryV>::empty());
        assert(entries.take(0) =~= Seq::<LogEntryV>::empty());
        assert(engine_run_alerts(rules, Seq::<LogEntryV>::empty(), now) == Seq::<AlertV>::empty());
        assert(entries.take(1)[0] == entries[0]);
        assert(engine_run_alerts(rules, entries.take(1), now) == engine_alerts(
            rules,
            entries[0],
            now,
        ) + Seq::<AlertV>::empty());
        assert(engine_run_alerts(rules, entries.take(0), now) + engine_alerts(
            rules,
            entries[0],
            now,
        ) =~= engine_alerts(rules, entries[0], now) + Seq::<AlertV>::empty());
    } else {
        lemma_engine_run_take_snoc(rules, entries.drop_first(), now, i - 1);
        assert(entries.take(i + 1).drop_first() =~= entries.drop_first().take(i));
        assert(entries.take(i).drop_first() =~= entries.drop_first().take(i - 1));
        assert(entries.take(i + 1)[0] == entries[0]);
        assert(entries.take(i)[0] == entries[0]);
        assert(entries.drop_first()[i - 1] == entries[i]);
        let first = engine_alerts(rules, entries[0], now);
        let mid = engine_run_alerts(rules, entries.drop_first().take(i - 1), now);
        let here = engine_alerts(rules, entries[i], now);
        assert(first + (mid + here) =~= (first + mid) + here);
    }
}

/// Evaluates the whole record stream against the catalogue at instant `now`,
/// concatenating each record's alerts in arrival order.
pub fn evaluate_entries_at(
    rules_engine: &RulesEngine,
    log_entries: &Vec<LogEntry>,
    now: i64,
) -> (r: Vec<Alert>)
    ensures
        alerts_match(r@, engine_run_alerts(rules_engine.rules.deep_view(), log_entries.deep_view(), now)),
{
    let ghost rv = rules_engine.rules.deep_view();
    let ghost ev = log_entries.deep_view();
    let mut cores: Vec<AlertCore> = Vec::new();
    let mut i: usize = 0;
    proof {
        assert(ev.take(0) =~= Seq::<LogEntryV>::empty());
        assert(cores.deep_view() =~= Seq::<AlertV>::empty());
    }
    while i < log_entries.len()
        invariant
            i <= log_entries@.len(),
            rv == rules_engine.rules.deep_view(),
            ev == log_entries.deep_view(),
            ev.len() == log_entries@.len(),
            cores.deep_view() == engine_run_alerts(rv, ev.take(i as int), now),
        decreases log_entries@.len() - i,
    {
        let ghost sofar = cores.deep_view();
        proof {
            lemma_engine_run_take_snoc(rv, ev, now, i as int);
            assert(log_entries@[i as int]@ == ev[i as int]);
        }
        let mut batch = rules_engine.evaluate_cores(&log_entries[i], now);
        let ghost added = batch.deep_view();
        cores.append(&mut batch);
        proof {
            assert(cores.deep_view() =~= sofar + added);
        }
        i = i + 1;
    }
    proof {
        assert(ev.take(ev.len() as int) =~= ev);
    }
    attach_ids(cores)
}

/// Feeds the records through the catalogue one by one on the calling thread.
pub fn process_sequential(log_entries: Vec<LogEntry>, rules_engine: &RulesEngine) -> (r: Metrics)
    ensures
        r.total_logs_processed == log_entries@.len(),
        r.mode@ == "Sequential"@,
        r.logs_per_second == rate_per_second(log_entries@.len() as nat, r.execution_time_ms as nat),
        exists|now: i64|
            alerts_match(
                r.alerts_generated@,
                #[trigger] engine_run_alerts(
                    rules_engine.rules.deep_view(),
                    log_entries.deep_view(),
                    now,
                ),
            ),
{
    let timer = Timer::new();
    let now = now_seconds();
    let alerts = evaluate_entries_at(rules_engine, &log_entries, now);
    let ms = timer.elapsed_millis();
    let total = log_entries.len();
    proof {
        assert(alerts_match(
            alerts@,
            engine_run_alerts(rules_engine.rules.deep_view(), log_entries.deep_view(), now),
        ));
    }
    Metrics {
        total_logs_processed: total,
        execution_time_ms: ms,
        logs_per_second: compute_rate(total, ms),
        alerts_generated: alerts,
        mode: "Sequential".to_owned(),
    }
}

/// Relies on rayon's `par_iter`, `map` and `collect` for `Vec`: collecting
/// an indexed parallel iterator into a `Vec` keeps the input order, so the
/// result holds, record by record, what `RulesEngine::evaluate_cores` (a
/// verified function of this library) returns for that record.
#[verifier::external_body]
fn par_eval_entries(rules_engine: &RulesEngine, log_entries: &Vec<LogEntry>, now: i64) -> (r: Vec<
    Vec<AlertCore>,
>)
    ensures
        r@.len() == log_entries@.len(),
        forall|i: int|
            0 <= i < r@.len() ==> (#[trigger] r@[i]).deep_view() == engine_alerts(
                rules_engine.rules.deep_view(),
                log_entries.deep_view()[i],
                now,
            ),
{
    log_entries.par_iter().map(|e| rules_engine.evaluate_cores(e, now)).collect()
}

/// Evaluates the records against the catalogue on the worker pool; the
/// catalogue is stateless, so the alerts are those of the sequential pass,
/// concatenated in arrival order.
pub fn process_parallel(log_entries: Vec<LogEntry>, rules_engine: &RulesEngine) -> (r: Metrics)
    ensures
        r.total_logs_processed == log_entries@.len(),
        r.mode@ == "Parallel"@,
        r.logs_per_second == rate_per_second(log_entries@.len() as nat, r.execution_time_ms as nat),
        exists|now: i64|
            alerts_match(
                r.alerts_generated@,
                #[trigger] engine_run_alerts(
                    rules_engine.rules.deep_view(),
                    log_entries.deep_view(),
                    now,
                ),
            ),
{
    let timer = Timer::new();
    let now = now_seconds();
    let ghost rv = rules_engine.rules.deep_view();
    let ghost ev = log_entries.deep_view();
    let batches = par_eval_entries(rules_engine, &log_entries, now);
    let mut cores: Vec<AlertCore> = Vec::new();
    let mut rest = batches;
    let ghost mut done: int = 0;
    proof {
        assert(ev.take(0) =~= Seq::<LogEntryV>::empty());
        assert(engine_run_alerts(rv, Seq::<LogEntryV>::empty(), now) == Seq::<AlertV>::empty());
        assert(cores.deep_view() =~= Seq::<AlertV>::empty());
        assert(rest@ =~= batches@.skip(0));
    }
    while rest.len() > 0
        invariant
            0 <= done,
            done + rest@.len() == ev.len(),
            rest@ == batches@.skip(done),
            batches@.len() == ev.len(),
            cores.deep_view() == engine_run_alerts(rv, ev.take(done), now),
            forall|i: int|
                0 <= i < batches@.len() ==> (#[trigger] batches@[i]).deep_view() == engine_alerts(
                    rv,
                    ev[i],
                    now,
                ),
        decreases rest@.len(),
    {
        let ghost k = done;
        let mut batch = rest.remove(0);
        proof {
            assert(batch == batches@[k]);
            assert(rest@ =~= batches@.skip(k + 1));
            lemma_engine_run_take_snoc(rv, ev, now, k);
        }
        let ghost sofar = cores.deep_view();
        let ghost added = batch.deep_view();
        cores.append(&mut batch);
        proof {
            done = done + 1;
            assert(cores.deep_view() =~= sofar + added);
        }
    }
    proof {
        assert(ev.take(ev.len() as int) =~= ev);
    }
    let alerts = attach_ids(cores);
    let ms = timer.elapsed_millis();
    let total = log_entries.len();
    proof {
        assert(alerts_match(alerts@, engine_run_alerts(rv, ev, now)));
    }
    Metrics {
        total_logs_processed: total,
        execution_time_ms: ms,
        logs_per_second: compute_rate(total, ms),
        alerts_generated: alerts,
        mode: "Parallel".to_owned(),
    }
}

/// The distributed driver of this record-stream surface has no remote
/// workers to ship to; it falls back to the sequential pass.
pub fn process_distributed(log_entries: Vec<LogEntry>, rules_engine: &RulesEngine) -> (r: Metrics)
    ensures
        r.total_logs_processed == log_entries@.len(),
        r.mode@ == "Sequential"@,
        exists|now: i64|
            alerts_match(
                r.alerts_generated@,
                #[trigger] engine_run_alerts(
                    rules_engine.rules.deep_view(),
                    log_entries.deep_view(),
                    now,
                ),
            ),
{
    process_sequential(log_entries, rules_engine)
}

} // verus!

//! A parser for one fixed bracketed log shape:
//! `[<rfc3339 timestamp>] <level> <ip> key=value ...`. The line is split at
//! the first two `"] "` separators, the leading `[` is dropped from the
//! timestamp, and the remainder is read as white-space-separated tokens: the
//! first is the IP address, and `user_id=`, `event=` and `details=` tokens
//! fill their fields.

use vstd::prelude::*;
use vstd::string::StrSliceExecFns;
use crate::models::{LogEntry, LogEntryV};
use crate::text::{
    find_from,
    find_space_from,
    first_occurrence_from,
    has_prefix,
    is_unicode_space,
    lemma_space_at_from_charac,
    space_at_from,
    starts_with_sub,
    strip_prefix_rep,
    strip_prefix_rep_exec,
    char_is_space,
};
use crate::timeutil::{parse_rfc3339, rfc3339_parse_of};

verus! {

/// The white-space-separated tokens of `s` at or after position `i`.
pub open spec fn space_split_from(s: Seq<char>, i: int) -> Seq<Seq<char>>
    decreases s.len() + 1 - i,
{
    if i < 0 || i >= s.len() {
        Seq::empty()
    } else if is_unicode_space(s[i]) {
        space_split_from(s, i + 1)
    } else {
        match space_at_from(s, i) {
            Some(j) => if i < j <= s.len() {
                seq![s.subrange(i, j)] + space_split_from(s, j)
            } else {
                Seq::empty()
            },
            None => seq![s.subrange(i, s.len() as int)],
        }
    }
}

/// The white-space-separated tokens of `s`, in order.
pub open spec fn space_split(s: Seq<char>) -> Seq<Seq<char>> {
    space_split_from(s, 0)
}

/// Splits `s` on white space, dropping empty tokens.
pub fn split_spaces(s: &str) -> (r: Vec<String>)
    ensures
        r.deep_view() == space_split(s@),
{
    let n = s.unicode_len();
    let mut toks: Vec<String> = Vec::new();
    let mut i: usize = 0;
    proof {
        assert(toks.deep_view() =~= Seq::<Seq<char>>::empty());
    }
    while i < n
        invariant
            n == s@.len(),
            i <= n,
            toks.deep_view() + space_split_from(s@, i as int) =~= space_split(s@),
        decreases n - i,
    {
        let ghost toks0 = toks.deep_view();
        if char_is_space(s.get_char(i)) {
            i = i + 1;
        } else {
            proof {
                lemma_space_at_from_charac(s@, i as int);
            }
            let j = match find_space_from(s, i) {
                Some(j) => j,
                None => n,
            };
            let tok = s.substring_char(i, j).to_owned();
            toks.push(tok);
            proof {
                match space_at_from(s@, i as int) {
                    Some(sj) => {
                        assert(space_split_from(s@, i as int) == seq![
                            s@.subrange(i as int, sj),
                        ] + space_split_from(s@, sj));
                    },
                    None => {
                        assert(space_split_from(s@, i as int) == seq![
                            s@.subrange(i as int, s@.len() as int),
                        ]);
                        assert(space_split_from(s@, n as int) =~= Seq::<Seq<char>>::empty());
                    },
                }
                assert(toks.deep_view() =~= toks0.push(s@.subrange(i as int, j as int)));
                assert(toks.deep_view() + space_split_from(s@, j as int) =~= space_split(s@));
            }
            i = j;
        }
    }
    proof {
        assert(space_split_from(s@, i as int) =~= Seq::<Seq<char>>::empty());
        assert(toks.deep_view() =~= space_split(s@));
    }
    toks
}

/// One token folded into the `(user_id, event_type, details)` accumulator:
/// a `user_id=`, `event=` or `details=` prefix assigns the rest of the token
/// (leading repetitions of the prefix all removed) to its field.
pub open spec fn assign_token(
    acc: (Option<Seq<char>>, Option<Seq<char>>, Option<Seq<char>>),
    t: Seq<char>,
) -> (Option<Seq<char>>, Option<Seq<char>>, Option<Seq<char>>) {
    if has_prefix(t, "user_id="@) {
        (Some(strip_prefix_rep(t, "user_id="@)), acc.1, acc.2)
    } else if has_prefix(t, "event="@) {
        (acc.0, Some(strip_prefix_rep(t, "event="@)), acc.2)
    } else if has_prefix(t, "details="@) {
        (acc.0, acc.1, Some(strip_prefix_rep(t, "details="@)))
    } else {
        acc
    }
}

/// The accumulator after folding the tokens at or after index `i`.
pub open spec fn token_fields_from(
    tokens: Seq<Seq<char>>,
    i: int,
    acc: (Option<Seq<char>>, Option<Seq<char>>, Option<Seq<char>>),
) -> (Option<Seq<char>>, Option<Seq<char>>, Option<Seq<char>>)
    decreases tokens.len() + 1 - i,
{
    if i < 0 || i >= tokens.len() {
        acc
    } else {
        token_fields_from(tokens, i + 1, assign_token(acc, tokens[i]))
    }
}

/// The record a bracketed log line parses to, or `None` when the line lacks
/// the two `"] "` separators, the bracketed timestamp is not RFC 3339, or no
/// token follows the second separator.
pub open spec fn parse_log_entry_spec(line: Seq<char>) -> Option<LogEntryV> {
    match first_occurrence_from(line, "] "@, 0) {
        None => None,
        Some(p1) => match first_occurrence_from(line, "] "@, p1 + 2) {
            None => None,
            Some(p2) => {
                let head = line.subrange(0, p1);
                if head.len() < 1 {
                    None
                } else {
                    match rfc3339_parse_of(head.subrange(1, head.len() as int)) {
                        None => None,
                        Some(ts) => {
                            let tokens = space_split(line.subrange(p2 + 2, line.len() as int));
                            if tokens.len() == 0 {
                                None
                            } else {
                                let fields = token_fields_from(
                                    tokens,
                                    1,
                                    (None, None, None),
                                );
                                Some(
                                    LogEntryV {
                                        raw_log: line,
                                        timestamp: Some(ts),
                                        ip_address: Some(tokens[0]),
                                        user_id: fields.0,
                                        event_type: fields.1,
                                        level: None,
                                        message: fields.2,
                                        extra: Seq::empty(),
                                    },
                                )
                            }
                        },
                    }
                }
            },
        },
    }
}

/// Parses one bracketed log line into a record.
pub fn parse_log_entry(line: &str) -> (r: Option<LogEntry>)
    ensures
        match r {
            Some(e) => parse_log_entry_spec(line@) == Some(e@),
            None => parse_log_entry_spec(line@) is None,
        },
{
    let n = line.unicode_len();
    let p1 = match find_from(line, "] ", 0) {
        Some(p) => p,
        None => {
            return None;
        },
    };
    proof {
        crate::text::lemma_first_occurrence_charac(line@, "] "@, 0);
        reveal_strlit("] ");
    }
    let p2 = match find_from(line, "] ", p1 + 2) {
        Some(p) => p,
        None => {
            return None;
        },
    };
    proof {
        crate::text::lemma_first_occurrence_charac(line@, "] "@, p1 + 2 as int);
    }
    if p1 < 1 {
        return None;
    }
    let timestamp_str = line.substring_char(1, p1);
    proof {
        assert(timestamp_str@ =~= line@.subrange(0, p1 as int).subrange(
            1,
            line@.subrange(0, p1 as int).len() as int,
        ));
    }
    let ts = match parse_rfc3339(timestamp_str) {
        Some(t) => t,
        None => {
            return None;
        },
    };
    let tail = line.substring_char(p2 + 2, n);
    let ghost tailv = line@.subrange(p2 + 2 as int, line@.len() as int);
    proof {
        assert(tail@ =~= tailv);
    }
    let tokens = split_spaces(tail);
    if tokens.len() == 0 {
        return None;
    }
    let ghost tv = space_split(tailv);
    let ip_address = tokens[0].clone();
    let mut user_id: Option<String> = None;
    let mut event_type: Option<String> = None;
    let mut details_str: Option<String> = None;
    let mut k: usize = 1;
    while k < tokens.len()
        invariant
            1 <= k <= tokens@.len(),
            tokens.deep_view() == tv,
            tokens@.len() == tv.len(),
            token_fields_from(tv, 1, (None, None, None)) == token_fields_from(
                tv,
                k as int,
                (
                    crate::models::view_opt_string(user_id),
                    crate::models::view_opt_string(event_type),
                    crate::models::view_opt_string(details_str),
                ),
            ),
        decreases tokens@.len() - k,
    {
        let tok = &tokens[k];
        proof {
            assert(tokens@[k as int]@ == tv[k as int]);
        }
        if starts_with_sub(tok.as_str(), "user_id=") {
            user_id = Some(strip_prefix_rep_exec(tok.as_str(), "user_id="));
        } else if starts_with_sub(tok.as_str(), "event=") {
            event_type = Some(strip_prefix_rep_exec(tok.as_str(), "event="));
        } else if starts_with_sub(tok.as_str(), "details=") {
            details_str = Some(strip_prefix_rep_exec(tok.as_str(), "details="));
        }
        proof {
            reveal_strlit("user_id=");
            reveal_strlit("event=");
            reveal_strlit("details=");
        }
        k = k + 1;
    }
    let entry = LogEntry {
        raw_log: line.to_owned(),
        timestamp: Some(ts),
        ip_address: Some(ip_address),
        user_id,
        event_type,
        level: None,
        message: details_str,
        extra: Vec::new(),
    };
    proof {
        assert(entry@.extra =~= Seq::<(Seq<char>, Seq<char>)>::empty());
        assert(entry@.ip_address == Some(tv[0]));
    }
    Some(entry)
}

} // verus!

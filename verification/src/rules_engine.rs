//! The rule catalogue: an ordered list of rules, appended to one at a time,
//! and a stateless evaluator that matches every enabled rule's pattern
//! against a record's raw line.

use vstd::prelude::*;
use vstd::string::StringExecFns;
use crate::models::{Alert, AlertCore, AlertV, LogEntry, LogEntryV, Rule, RuleV, alerts_match};
use crate::sequential_analysis::attach_ids;
use crate::text::{append_padded3, padded3};
use crate::threat_detection::{check_custom_rule, opt_seq, step_custom};
use crate::timeutil::now_seconds;

verus! {

/// The identifier given to a rule appended at 1-based position `n`.
pub open spec fn rule_id_text(n: nat) -> Seq<char> {
    "rule_"@ + padded3(n)
}

/// The alerts the stateless evaluator raises for one record: one per enabled
/// rule whose pattern matches the record's raw line, in declared order.
pub open spec fn engine_alerts(rules: Seq<RuleV>, e: LogEntryV, now: i64) -> Seq<AlertV>
    decreases rules.len(),
{
    if rules.len() == 0 {
        Seq::empty()
    } else {
        let first = if rules[0].enabled {
            opt_seq(step_custom(rules[0], e, now))
        } else {
            Seq::<AlertV>::empty()
        };
        first + engine_alerts(rules.drop_first(), e, now)
    }
}

/// Evaluating one more rule appends that rule's outcome.
pub proof fn lemma_engine_alerts_take_snoc(rules: Seq<RuleV>, e: LogEntryV, now: i64, i: int)
    requires
        0 <= i < rules.len(),
    ensures
        engine_alerts(rules.take(i + 1), e, now) == engine_alerts(rules.take(i), e, now) + (
        if rules[i].enabled {
            opt_seq(step_custom(rules[i], e, now))
        } else {
            Seq::<AlertV>::empty()
        }),
    decreases i,
{
    let here = if rules[i].enabled {
        opt_seq(step_custom(rules[i], e, now))
    } else {
        Seq::<AlertV>::empty()
    };
    if i == 0 {
        assert(rules.take(1) =~= seq![rules[0]]);
        assert(rules.take(1).drop_first() =~= Seq::<RuleV>::empty());
        assert(rules.take(0) =~= Seq::<RuleV>::empty());
        assert(engine_alerts(Seq::<RuleV>::empty(), e, now) == Seq::<AlertV>::empty());
        assert(rules.take(1)[0] == rules[0]);
        assert(engine_alerts(rules.take(1), e, now) == here + Seq::<AlertV>::empty());
        assert(engine_alerts(rules.take(0), e, now) + here =~= here + Seq::<AlertV>::empty());
    } else {
        lemma_engine_alerts_take_snoc(rules.drop_first(), e, now, i - 1);
        assert(rules.take(i + 1).drop_first() =~= rules.drop_first().take(i));
        assert(rules.take(i).drop_first() =~= rules.drop_first().take(i - 1));
        assert(rules.take(i + 1)[0] == rules[0]);
        assert(rules.take(i)[0] == rules[0]);
        assert(rules.drop_first()[i - 1] == rules[i]);
        let first = if rules[0].enabled {
            opt_seq(step_custom(rules[0], e, now))
        } else {
            Seq::<AlertV>::empty()
        };
        assert(first + (engine_alerts(rules.drop_first().take(i - 1), e, now) + here) =~= (first
            + engine_alerts(rules.drop_first().take(i - 1), e, now)) + here);
    }
}

/// The rule catalogue, in declared order.
pub struct RulesEngine {
    pub rules: Vec<Rule>,
}

impl RulesEngine {
    /// An empty catalogue.
    pub fn new() -> (r: Self)
        ensures
            r.rules@.len() == 0,
    {
        RulesEngine { rules: Vec::new() }
    }

    /// Replaces the whole catalogue, preserving the declared order of the
    /// rules handed in.
    pub fn set_rules(&mut self, rules: Vec<Rule>)
        ensures
            final(self).rules == rules,
    {
        self.rules = rules;
    }

    /// Appends a rule; its identifier is re-assigned from its 1-based
    /// position in the catalogue.
    pub fn add_rule(&mut self, rule: Rule)
        requires
            old(self).rules@.len() < usize::MAX,
        ensures
            final(self).rules@.len() == old(self).rules@.len() + 1,
            final(self).rules.deep_view() == old(self).rules.deep_view().push(
                RuleV { id: rule_id_text((old(self).rules@.len() + 1) as nat), ..rule@ },
            ),
    {
        let n = self.rules.len() + 1;
        let mut id = "rule_".to_owned();
        append_padded3(&mut id, n as u64);
        let mut appended = rule;
        appended.id = id;
        self.rules.push(appended);
        proof {
            assert(final(self).rules.deep_view() =~= old(self).rules.deep_view().push(
                RuleV { id: rule_id_text((old(self).rules@.len() + 1) as nat), ..rule@ },
            ));
        }
    }

    /// Matches every enabled rule's pattern against the record's raw line at
    /// instant `now`; one alert content per match, in declared order.
    pub fn evaluate_cores(&self, log_entry: &LogEntry, now: i64) -> (r: Vec<AlertCore>)
        ensures
            r.deep_view() == engine_alerts(self.rules.deep_view(), log_entry@, now),
    {
        let ghost rv = self.rules.deep_view();
        let mut cores: Vec<AlertCore> = Vec::new();
        let mut i: usize = 0;
        proof {
            assert(rv.take(0) =~= Seq::<RuleV>::empty());
        }
        while i < self.rules.len()
            invariant
                i <= self.rules@.len(),
                rv == self.rules.deep_view(),
                rv.len() == self.rules@.len(),
                cores.deep_view() == engine_alerts(rv.take(i as int), log_entry@, now),
            decreases self.rules@.len() - i,
        {
            proof {
                lemma_engine_alerts_take_snoc(rv, log_entry@, now, i as int);
                assert(self.rules@[i as int]@ == rv[i as int]);
            }
            let ghost m = engine_alerts(rv.take(i as int), log_entry@, now);
            let rule = &self.rules[i];
            if rule.enabled {
                let res = check_custom_rule(log_entry, rule, now);
                if let Some(core) = res {
                    cores.push(core);
                    proof {
                        assert(cores.deep_view() =~= m + opt_seq(
                            step_custom(rv[i as int], log_entry@, now),
                        ));
                    }
                } else {
                    proof {
                        assert(cores.deep_view() =~= m + Seq::<AlertV>::empty());
                    }
                }
            } else {
                proof {
                    assert(cores.deep_view() =~= m + Seq::<AlertV>::empty());
                }
            }
            i = i + 1;
        }
        proof {
            assert(rv.take(rv.len() as int) =~= rv);
        }
        cores
    }

    /// Matches every enabled rule's pattern against the record's raw line at
    /// instant `now` and raises one alert per match, in declared order.
    pub fn evaluate_log_entry_at(&self, log_entry: &LogEntry, now: i64) -> (r: Vec<Alert>)
        ensures
            alerts_match(r@, engine_alerts(self.rules.deep_view(), log_entry@, now)),
    {
        attach_ids(self.evaluate_cores(log_entry, now))
    }

    /// Matches every enabled rule against the record, reading the wall clock
    /// for the alerts' timestamps.
    pub fn evaluate_log_entry(&self, log_entry: &LogEntry) -> (r: Vec<Alert>)
        ensures
            exists|now: i64|
                alerts_match(
                    r@,
                    #[trigger] engine_alerts(self.rules.deep_view(), log_entry@, now),
                ),
    {
        let now = now_seconds();
        let r = self.evaluate_log_entry_at(log_entry, now);
        proof {
            assert(alerts_match(r@, engine_alerts(self.rules.deep_view(), log_entry@, now)));
        }
        r
    }
}

} // verus!

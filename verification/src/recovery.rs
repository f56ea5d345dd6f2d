//! Recovery from errors: what to do about which error, and how well it went.

use crate::eviction::Ratio;
use crate::text::{contains_text, lowercase, same_text, str_has};
use vstd::prelude::*;
use vstd::string::*;

verus! {

/// What to do about an error.
#[derive(Debug, Clone)]
pub enum RecoveryAction {
    Retry,
    RetryWithModification(String),
    Rollback,
    SkipAndContinue,
    Escalate,
}

/// What to do about errors that hold a text.
#[derive(Debug, Clone)]
pub struct RecoveryStrategy {
    pub name: String,
    pub error_pattern: String,
    pub action: RecoveryAction,
    pub max_attempts: u32,
}

/// How a try went.
#[derive(Debug, Clone)]
pub struct RecoveryAttempt {
    pub strategy: String,
    pub success: bool,
    pub attempt_number: u32,
}

/// How a try went.
pub struct AttemptModel {
    pub strategy: Seq<char>,
    pub success: bool,
    pub attempt_number: u32,
}

impl View for RecoveryAttempt {
    type V = AttemptModel;

    open spec fn view(&self) -> AttemptModel {
        AttemptModel {
            strategy: self.strategy@,
            success: self.success,
            attempt_number: self.attempt_number,
        }
    }
}

/// The tries.
pub open spec fn attempt_models(v: Seq<RecoveryAttempt>) -> Seq<AttemptModel> {
    v.map_values(|a: RecoveryAttempt| a@)
}

/// The first strategy for an error in lower case, or their number if there is
/// none.
pub open spec fn strategy_place(v: Seq<RecoveryStrategy>, error: Seq<char>) -> int
    decreases v.len(),
{
    if v.len() == 0 {
        0
    } else if contains_text(error, lowercase(v[0].error_pattern@)) {
        0
    } else {
        1 + strategy_place(v.skip(1), error)
    }
}

/// How often a strategy was tried.
pub open spec fn tries(v: Seq<AttemptModel>, strategy: Seq<char>) -> nat
    decreases v.len(),
{
    if v.len() == 0 {
        0
    } else {
        tries(v.drop_last(), strategy) + (if v.last().strategy == strategy {
            1nat
        } else {
            0nat
        })
    }
}

/// How often a strategy was tried with such an outcome.
pub open spec fn outcomes(v: Seq<AttemptModel>, strategy: Seq<char>, success: bool) -> nat
    decreases v.len(),
{
    if v.len() == 0 {
        0
    } else {
        outcomes(v.drop_last(), strategy, success) + (if v.last().strategy == strategy
            && v.last().success == success {
            1nat
        } else {
            0nat
        })
    }
}

/// Every try went one way or the other.
pub proof fn law_outcomes_add_up(v: Seq<AttemptModel>, strategy: Seq<char>)
    ensures
        outcomes(v, strategy, true) + outcomes(v, strategy, false) == tries(v, strategy),
        tries(v, strategy) <= v.len(),
    decreases v.len(),
{
    if v.len() > 0 {
        law_outcomes_add_up(v.drop_last(), strategy);
    }
}

/// How often a strategy may fail: as the first one of its name says, or three
/// times.
pub open spec fn limit_of(v: Seq<RecoveryStrategy>, name: Seq<char>) -> u32
    decreases v.len(),
{
    if v.len() == 0 {
        3
    } else if v[0].name@ == name {
        v[0].max_attempts
    } else {
        limit_of(v.skip(1), name)
    }
}

/// What is known of errors, and what was tried.
pub struct RecoveryModel {
    pub strategies: Seq<RecoveryStrategy>,
    pub history: Seq<AttemptModel>,
}

/// What is known of errors, and what was tried.
#[derive(Debug)]
pub struct ErrorRecoveryEngine {
    strategies: Vec<RecoveryStrategy>,
    history: Vec<RecoveryAttempt>,
}

impl View for ErrorRecoveryEngine {
    type V = RecoveryModel;

    closed spec fn view(&self) -> RecoveryModel {
        RecoveryModel {
            strategies: self.strategies@,
            history: attempt_models(self.history@),
        }
    }
}

impl ErrorRecoveryEngine {
    /// Nothing is known, and nothing was tried.
    pub fn new() -> (r: ErrorRecoveryEngine)
        ensures
            r@.strategies.len() == 0,
            r@.history.len() == 0,
    {
        ErrorRecoveryEngine { strategies: Vec::new(), history: Vec::new() }
    }

    /// Adds a strategy.
    pub fn add_strategy(&mut self, strategy: RecoveryStrategy)
        ensures
            final(self)@ == (RecoveryModel {
                strategies: old(self)@.strategies.push(strategy),
                ..old(self)@
            }),
    {
        self.strategies.push(strategy);
    }

    /// What was tried.
    pub fn history(&self) -> (r: &[RecoveryAttempt])
        ensures
            attempt_models(r@) == self@.history,
    {
        self.history.as_slice()
    }

    /// The first strategy for an error, whatever its case.
    pub fn find_recovery(&self, error: &str) -> (r: Option<&RecoveryStrategy>)
        ensures
            ({
                let at = strategy_place(self@.strategies, lowercase(error@));
                match r {
                    Some(s) => at < self@.strategies.len() && *s == self@.strategies[at],
                    None => at == self@.strategies.len(),
                }
            }),
    {
        let lower = error.to_lowercase();
        let ghost all = self@.strategies;
        let mut i: usize = 0;
        assert(all.skip(0) =~= all);
        while i < self.strategies.len()
            invariant
                i <= self.strategies@.len(),
                all == self.strategies@,
                all == self@.strategies,
                lower@ == lowercase(error@),
                strategy_place(all, lower@) == i + strategy_place(all.skip(i as int), lower@),
            decreases self.strategies@.len() - i,
        {
            proof {
                assert(all.skip(i as int)[0] == all[i as int]);
                assert(all.skip(i as int).skip(1) =~= all.skip(i + 1));
            }
            let pattern = self.strategies[i].error_pattern.as_str().to_lowercase();
            if str_has(lower.as_str(), pattern.as_str()) {
                return Some(&self.strategies[i]);
            }
            i += 1;
        }
        None
    }

    fn count(&self, strategy: &str) -> (r: (usize, usize))
        ensures
            r.0 == tries(self@.history, strategy@),
            r.1 == outcomes(self@.history, strategy@, true),
            r.1 <= r.0,
    {
        let ghost all = self@.history;
        let mut n: usize = 0;
        let mut good: usize = 0;
        let mut i: usize = 0;
        assert(all.take(0) =~= Seq::empty());
        while i < self.history.len()
            invariant
                good <= n <= i <= self.history@.len(),
                all == attempt_models(self.history@),
                n == tries(all.take(i as int), strategy@),
                good == outcomes(all.take(i as int), strategy@, true),
            decreases self.history@.len() - i,
        {
            proof {
                assert(all.take(i + 1).drop_last() =~= all.take(i as int));
                assert(all.take(i + 1).last() == self.history@[i as int]@);
            }
            if same_text(self.history[i].strategy.as_str(), strategy) {
                n += 1;
                if self.history[i].success {
                    good += 1;
                }
            }
            i += 1;
        }
        assert(all.take(i as int) =~= all);
        (n, good)
    }

    /// Notes how a try went, with its number among those of its strategy.
    pub fn record_attempt(&mut self, strategy: &str, success: bool)
        requires
            tries(old(self)@.history, strategy@) < u32::MAX,
        ensures
            final(self)@ == (RecoveryModel {
                history: old(self)@.history.push(
                    AttemptModel {
                        strategy: strategy@,
                        success,
                        attempt_number: (tries(old(self)@.history, strategy@) + 1) as u32,
                    },
                ),
                ..old(self)@
            }),
    {
        let ghost before = self@.history;
        let (n, _) = self.count(strategy);
        let a = RecoveryAttempt {
            strategy: strategy.to_owned(),
            success,
            attempt_number: n as u32 + 1,
        };
        let ghost m = a@;
        self.history.push(a);
        assert(self@.history =~= before.push(m));
    }

    /// How many of the tries of a strategy went well; none of one if it was
    /// never tried.
    pub fn success_rate(&self, strategy: &str) -> (r: Ratio)
        ensures
            ({
                let n = tries(self@.history, strategy@);
                if n == 0 {
                    r.part == 0 && r.whole == 1
                } else {
                    r.part == outcomes(self@.history, strategy@, true) && r.whole == n
                }
            }),
    {
        let (n, good) = self.count(strategy);
        if n == 0 {
            Ratio { part: 0, whole: 1 }
        } else {
            Ratio { part: good, whole: n }
        }
    }

    /// Whether a strategy failed as often as it may.
    pub fn should_escalate(&self, strategy: &str) -> (r: bool)
        ensures
            r == (outcomes(self@.history, strategy@, false) >= limit_of(
                self@.strategies,
                strategy@,
            )),
    {
        let ghost all = self@.strategies;
        let mut limit: u32 = 3;
        let mut i: usize = 0;
        let mut known = false;
        assert(all.skip(0) =~= all);
        while i < self.strategies.len() && !known
            invariant
                i <= self.strategies@.len(),
                all == self.strategies@,
                known ==> limit == limit_of(all, strategy@),
                !known ==> limit == 3 && limit_of(all, strategy@) == limit_of(
                    all.skip(i as int),
                    strategy@,
                ),
            decreases
                    self.strategies@.len() - i + (if known {
                        0int
                    } else {
                        1int
                    }),
        {
            proof {
                assert(all.skip(i as int)[0] == all[i as int]);
                assert(all.skip(i as int).skip(1) =~= all.skip(i + 1));
            }
            if same_text(self.strategies[i].name.as_str(), strategy) {
                limit = self.strategies[i].max_attempts;
                known = true;
            } else {
                i += 1;
            }
        }
        let (n, good) = self.count(strategy);
        proof {
            law_outcomes_add_up(self@.history, strategy@);
        }
        n - good >= limit as usize
    }
}

impl Default for ErrorRecoveryEngine {
    fn default() -> (r: ErrorRecoveryEngine)
        ensures
            r@.strategies.len() == 0,
            r@.history.len() == 0,
    {
        ErrorRecoveryEngine::new()
    }
}

// ── Laws ───────────────────────────────────────────────────────────────────
/// The strategy for an error is the first whose pattern occurs in it, in any case, and there
/// is none only if no pattern does.
pub proof fn law_the_first_fitting_strategy_is_taken(
    v: Seq<RecoveryStrategy>,
    error: Seq<char>,
)
    ensures
        ({
            let k = strategy_place(v, error);
            &&& 0 <= k <= v.len()
            &&& k < v.len() ==> contains_text(error, lowercase(v[k].error_pattern@))
            &&& forall|i: int|
                0 <= i < k ==> !contains_text(error, lowercase((#[trigger] v[i]).error_pattern@))
        }),
    decreases v.len(),
{
    if v.len() > 0 && !contains_text(error, lowercase(v[0].error_pattern@)) {
        let rest = v.skip(1);
        law_the_first_fitting_strategy_is_taken(rest, error);
        let k = strategy_place(v, error);
        assert forall|i: int| 0 <= i < k implies !contains_text(
            error,
            lowercase((#[trigger] v[i]).error_pattern@),
        ) by {
            if i > 0 {
                assert(rest[i - 1] == v[i]);
            }
        }
    }
}

/// The tries of a strategy are those under its name, and its successes and failures those of
/// them that went so.
pub proof fn law_tries_are_counted(v: Seq<AttemptModel>, strategy: Seq<char>, success: bool)
    ensures
        tries(v, strategy) == v.filter(|a: AttemptModel| a.strategy == strategy).len(),
        outcomes(v, strategy, success) == v.filter(
            |a: AttemptModel| a.strategy == strategy && a.success == success,
        ).len(),
    decreases v.len(),
{
    reveal(Seq::filter);
    if v.len() > 0 {
        law_tries_are_counted(v.drop_last(), strategy, success);
    }
}

/// A strategy may fail as often as the first one of its name says, or three times where none
/// has the name.
pub proof fn law_the_first_of_a_name_sets_the_limit(
    v: Seq<RecoveryStrategy>,
    name: Seq<char>,
    k: int,
)
    ensures
        0 <= k < v.len() && v[k].name@ == name && (forall|i: int|
            0 <= i < k ==> (#[trigger] v[i]).name@ != name) ==> limit_of(v, name)
            == v[k].max_attempts,
        (forall|i: int| 0 <= i < v.len() ==> (#[trigger] v[i]).name@ != name) ==> limit_of(v, name)
            == 3,
    decreases v.len(),
{
    if v.len() > 0 && v[0].name@ != name {
        let rest = v.skip(1);
        law_the_first_of_a_name_sets_the_limit(rest, name, k - 1);
        if forall|i: int| 0 <= i < v.len() ==> (#[trigger] v[i]).name@ != name {
            assert forall|i: int| 0 <= i < rest.len() implies (#[trigger] rest[i]).name@
                != name by {
                assert(rest[i] == v[i + 1]);
            }
        }
        if 0 <= k < v.len() && v[k].name@ == name && (forall|i: int|
            0 <= i < k ==> (#[trigger] v[i]).name@ != name) {
            assert(rest[k - 1] == v[k]);
            assert forall|i: int| 0 <= i < k - 1 implies (#[trigger] rest[i]).name@ != name by {
                assert(rest[i] == v[i + 1]);
            }
        }
    }
}

} // verus!

//! Which strategy does best: comparisons of how conversations were made smaller,
//! and a choice among strategies by their scores.

use crate::eviction::Ratio;
use crate::keyed::{key_place, lemma_key_place_is};
use crate::sorting::{in_text_order, sort_texts};
use crate::telemetry::CompactionEvent;
use crate::text::{holds_text, lemma_texts_push, same_text, texts};
use vstd::prelude::*;
use vstd::string::*;

verus! {

broadcast use lemma_texts_push;

/// `winner` did better than `loser` in a context of about the same size. The
/// weight says how much the comparison counts; less than one is a soft label.
#[derive(Debug, PartialEq, Eq)]
pub struct Pair {
    pub winner: String,
    pub loser: String,
    pub weight: Ratio,
}

/// The weight of a comparison that counts in full.
pub open spec fn full_weight() -> Ratio {
    Ratio { part: 1, whole: 1 }
}

/// The width of a class of context sizes.
pub const BUCKET_TOKENS: u32 = 4096;

/// The model of a [`Pair`].
pub struct PairModel {
    pub winner: Seq<char>,
    pub loser: Seq<char>,
    pub weight: Ratio,
}

impl View for Pair {
    type V = PairModel;

    open spec fn view(&self) -> PairModel {
        PairModel { winner: self.winner@, loser: self.loser@, weight: self.weight }
    }
}

/// The models of pairs.
pub open spec fn pair_models(v: Seq<Pair>) -> Seq<PairModel> {
    v.map_values(|p: Pair| p@)
}

/// What two events say: both are labelled, their contexts are of one class,
/// their strategies differ, and one went well and the other did not.
pub open spec fn comparison(a: CompactionEvent, b: CompactionEvent) -> Option<PairModel> {
    if a.downstream_re_ask is None || b.downstream_re_ask is None {
        None
    } else if a.tokens_before / BUCKET_TOKENS != b.tokens_before / BUCKET_TOKENS {
        None
    } else if a.strategy@ == b.strategy@ || a.downstream_re_ask == b.downstream_re_ask {
        None
    } else if a.downstream_re_ask == Some(false) {
        Some(PairModel { winner: a.strategy@, loser: b.strategy@, weight: full_weight() })
    } else {
        Some(PairModel { winner: b.strategy@, loser: a.strategy@, weight: full_weight() })
    }
}

/// What event `i` says compared with those after it, up to `n`.
pub open spec fn comparisons_of(events: Seq<CompactionEvent>, i: int, n: int) -> Seq<PairModel>
    decreases n - i,
{
    if n <= i + 1 {
        Seq::empty()
    } else {
        let rest = comparisons_of(events, i, n - 1);
        match comparison(events[i], events[n - 1]) {
            Some(p) => rest.push(p),
            None => rest,
        }
    }
}

/// What the first `n` events say compared with those after them.
pub open spec fn comparisons(events: Seq<CompactionEvent>, n: nat) -> Seq<PairModel>
    decreases n,
{
    if n == 0 {
        Seq::empty()
    } else {
        comparisons(events, (n - 1) as nat) + comparisons_of(events, n - 1, events.len() as int)
    }
}

fn compare_events(a: &CompactionEvent, b: &CompactionEvent) -> (r: Option<Pair>)
    ensures
        match r {
            Some(p) => comparison(*a, *b) == Some(p@),
            None => comparison(*a, *b) is None,
        },
{
    let weight = Ratio { part: 1, whole: 1 };
    match (a.downstream_re_ask, b.downstream_re_ask) {
        (Some(x), Some(y)) => {
            if a.tokens_before / BUCKET_TOKENS != b.tokens_before / BUCKET_TOKENS || x == y
                || same_text(a.strategy.as_str(), b.strategy.as_str()) {
                None
            } else if !x {
                Some(Pair { winner: a.strategy.clone(), loser: b.strategy.clone(), weight })
            } else {
                Some(Pair { winner: b.strategy.clone(), loser: a.strategy.clone(), weight })
            }
        },
        _ => None,
    }
}

/// The comparisons that the events allow, in the order of the events.
pub fn pairs_from_events(events: &[CompactionEvent]) -> (r: Vec<Pair>)
    ensures
        pair_models(r@) == comparisons(events@, events@.len()),
{
    let mut out: Vec<Pair> = Vec::new();
    let n: usize = events.len();
    let mut i: usize = 0;
    assert(pair_models(out@) =~= Seq::<PairModel>::empty());
    while i < n
        invariant
            n == events@.len(),
            i <= n,
            pair_models(out@) == comparisons(events@, i as nat),
        decreases n - i,
    {
        let ghost before = pair_models(out@);
        let mut j: usize = i + 1;
        assert(pair_models(out@) =~= before + comparisons_of(events@, i as int, j as int));
        while j < n
            invariant
                n == events@.len(),
                i < j <= n,
                pair_models(out@) == before + comparisons_of(events@, i as int, j as int),
            decreases n - j,
        {
            let ghost now = pair_models(out@);
            match compare_events(&events[i], &events[j]) {
                Some(p) => {
                    out.push(p);
                    assert(pair_models(out@) =~= now.push(p@));
                    assert(now.push(p@) =~= before + comparisons_of(events@, i as int, j as int).push(
                        p@,
                    ));
                },
                None => {},
            }
            j += 1;
        }
        i += 1;
    }
    out
}

/// The strategies that the first `n` pairs name, each once, in the order in which
/// they first occur.
pub open spec fn named_in(pairs: Seq<PairModel>, n: nat) -> Seq<Seq<char>>
    decreases n,
{
    if n == 0 {
        Seq::empty()
    } else {
        let before = named_in(pairs, (n - 1) as nat);
        with_name(with_name(before, pairs[n - 1].winner), pairs[n - 1].loser)
    }
}

/// Names with one more, unless it is there.
pub open spec fn with_name(names: Seq<Seq<char>>, name: Seq<char>) -> Seq<Seq<char>> {
    if names.contains(name) {
        names
    } else {
        names.push(name)
    }
}

fn add_name(names: &mut Vec<String>, name: &String)
    ensures
        texts(final(names)@) == with_name(texts(old(names)@), name@),
{
    if !holds_text(names.as_slice(), name.as_str()) {
        names.push(name.clone());
    }
}

/// The strategies that pairs compare, each once, in the order of their names.
pub fn contenders(pairs: &[Pair]) -> (r: Vec<String>)
    ensures
        texts(r@) == in_text_order(named_in(pair_models(pairs@), pairs@.len())),
{
    let ghost all = pair_models(pairs@);
    let mut names: Vec<String> = Vec::new();
    let mut i: usize = 0;
    assert(texts(names@) =~= named_in(all, 0));
    while i < pairs.len()
        invariant
            i <= pairs@.len(),
            all == pair_models(pairs@),
            texts(names@) == named_in(all, i as nat),
        decreases pairs@.len() - i,
    {
        assert(all[i as int] == pairs@[i as int]@);
        add_name(&mut names, &pairs[i].winner);
        add_name(&mut names, &pairs[i].loser);
        i += 1;
    }
    sort_texts(names.as_slice())
}

/// Each strategy of a pair is a contender, no other one is, and none is twice.
pub proof fn law_contenders_are_those_compared(pairs: Seq<PairModel>, n: nat)
    requires
        n <= pairs.len(),
    ensures
        named_in(pairs, n).no_duplicates(),
        forall|i: int|
            0 <= i < n ==> named_in(pairs, n).contains((#[trigger] pairs[i]).winner) && named_in(
                pairs,
                n,
            ).contains(pairs[i].loser),
        forall|t: Seq<char>| #[trigger]
            named_in(pairs, n).contains(t) ==> exists|i: int|
                0 <= i < n && ((#[trigger] pairs[i]).winner == t || pairs[i].loser == t),
    decreases n,
{
    if n > 0 {
        let m = (n - 1) as nat;
        law_contenders_are_those_compared(pairs, m);
        let before = named_in(pairs, m);
        let p = pairs[m as int];
        let mid = with_name(before, p.winner);
        let all = with_name(mid, p.loser);
        lemma_with_name(before, p.winner);
        lemma_with_name(mid, p.loser);
        assert forall|i: int| 0 <= i < n implies all.contains((#[trigger] pairs[i]).winner)
            && all.contains(pairs[i].loser) by {
            if i < m {
                assert(before.contains(pairs[i].winner));
                assert(before.contains(pairs[i].loser));
                assert(mid.contains(pairs[i].winner));
                assert(mid.contains(pairs[i].loser));
            } else {
                assert(mid.contains(p.winner));
            }
        }
        assert forall|t: Seq<char>| #[trigger] all.contains(t) implies exists|i: int|
            0 <= i < n && ((#[trigger] pairs[i]).winner == t || pairs[i].loser == t) by {
            if t == p.winner || t == p.loser {
                assert(pairs[m as int] == p);
            } else {
                assert(mid.contains(t));
                assert(before.contains(t));
                let i = choose|i: int|
                    0 <= i < m && ((#[trigger] pairs[i]).winner == t || pairs[i].loser == t);
                assert(pairs[i].winner == t || pairs[i].loser == t);
            }
        }
    }
}

proof fn lemma_with_name(names: Seq<Seq<char>>, name: Seq<char>)
    requires
        names.no_duplicates(),
    ensures
        with_name(names, name).no_duplicates(),
        with_name(names, name).contains(name),
        forall|t: Seq<char>| #[trigger]
            with_name(names, name).contains(t) <==> names.contains(t) || t == name,
{
    let all = with_name(names, name);
    if !names.contains(name) {
        assert(all.last() == name);
        assert forall|t: Seq<char>| #[trigger] all.contains(t) <==> names.contains(t) || t == name by {
            if names.contains(t) {
                let i = choose|i: int| 0 <= i < names.len() && names[i] == t;
                assert(all[i] == t);
            }
        }
    }
}

/// A strategy and its score. Scores are ordered as the keys are.
#[derive(Debug)]
pub struct StrategyScore {
    pub strategy: String,
    pub key: i64,
}

/// Strategies with their scores, and the score of a strategy that has none: the
/// mean of the others, so that it is not passed over.
#[derive(Debug)]
pub struct BradleyTerryModel {
    pub scores: Vec<StrategyScore>,
    pub fallback: i64,
}

/// The names that have a score.
pub open spec fn scored_names(v: Seq<StrategyScore>) -> Seq<Seq<char>> {
    v.map_values(|s: StrategyScore| s.strategy@)
}

impl BradleyTerryModel {
    /// The score of a strategy: the first that is given for it.
    pub open spec fn score_of(&self, name: Seq<char>) -> i64 {
        let k = key_place(scored_names(self.scores@), name);
        if k < self.scores@.len() {
            self.scores@[k].key
        } else {
            self.fallback
        }
    }

    /// The score of a strategy, or that of one without a score.
    pub fn score(&self, name: &str) -> (r: i64)
        ensures
            r == self.score_of(name@),
    {
        let ghost names = scored_names(self.scores@);
        let n: usize = self.scores.len();
        let mut i: usize = 0;
        while i < n
            invariant
                n == self.scores@.len(),
                names == scored_names(self.scores@),
                i <= n,
                forall|k: int| 0 <= k < i ==> #[trigger] names[k] != name@,
            decreases n - i,
        {
            assert(names[i as int] == self.scores@[i as int].strategy@);
            if same_text(self.scores[i].strategy.as_str(), name) {
                proof {
                    lemma_key_place_is(names, name@, i as int);
                }
                return self.scores[i].key;
            }
            i += 1;
        }
        proof {
            lemma_key_place_is(names, name@, n as int);
        }
        self.fallback
    }

    /// The first of the candidates with the highest score; none if there is no
    /// candidate.
    pub fn pick<'a>(&self, candidates: &[&'a str]) -> (r: Option<&'a str>)
        ensures
            match r {
                Some(c) => exists|k: int| #[trigger]
                    self.is_best(candidates@, k) && c@ == candidates@[k]@,
                None => candidates@.len() == 0,
            },
    {
        let n: usize = candidates.len();
        if n == 0 {
            return None;
        }
        let mut best: usize = 0;
        let mut best_score: i64 = self.score(candidates[0]);
        let mut i: usize = 1;
        while i < n
            invariant
                n == candidates@.len(),
                best < i <= n,
                best_score == self.score_of(candidates@[best as int]@),
                forall|j: int|
                    0 <= j < i ==> self.score_of((#[trigger] candidates@[j])@) <= best_score,
                forall|j: int|
                    0 <= j < best ==> self.score_of((#[trigger] candidates@[j])@) < best_score,
            decreases n - i,
        {
            let s = self.score(candidates[i]);
            if s > best_score {
                best = i;
                best_score = s;
            }
            i += 1;
        }
        assert(self.is_best(candidates@, best as int));
        Some(candidates[best])
    }

    /// Candidate `k` has the highest score, and no earlier one has it.
    pub open spec fn is_best(&self, candidates: Seq<&str>, k: int) -> bool {
        &&& 0 <= k < candidates.len()
        &&& forall|i: int|
            0 <= i < candidates.len() ==> self.score_of((#[trigger] candidates[i])@)
                <= self.score_of(candidates[k]@)
        &&& forall|i: int|
            0 <= i < k ==> self.score_of((#[trigger] candidates[i])@) < self.score_of(
                candidates[k]@,
            )
    }
}

/// Of two strategies the one wins after which nobody had to ask again; it is the same
/// whichever of the two is named first. There is a winner exactly where both outcomes are
/// known and differ, in contexts of one size, with different strategies.
pub proof fn law_the_better_outcome_wins(a: CompactionEvent, b: CompactionEvent)
    ensures
        comparison(a, b) == comparison(b, a),
        comparison(a, b) is Some <==> {
            &&& a.downstream_re_ask is Some
            &&& b.downstream_re_ask is Some
            &&& a.downstream_re_ask != b.downstream_re_ask
            &&& a.strategy@ != b.strategy@
            &&& a.tokens_before / BUCKET_TOKENS == b.tokens_before / BUCKET_TOKENS
        },
        comparison(a, b) is Some && a.downstream_re_ask == Some(false) ==> comparison(
            a,
            b,
        )->0.winner == a.strategy@ && comparison(a, b)->0.loser == b.strategy@,
        comparison(a, b) is Some && a.downstream_re_ask == Some(true) ==> comparison(
            a,
            b,
        )->0.winner == b.strategy@ && comparison(a, b)->0.loser == a.strategy@,
{
    if comparison(a, b) is Some {
        let x = a.downstream_re_ask->0;
        let y = b.downstream_re_ask->0;
        assert(a.downstream_re_ask == Some(x) && b.downstream_re_ask == Some(y));
        assert(x != y);
        assert(comparison(b, a) == comparison(a, b));
    }
}

/// Every two events are compared, once.
pub proof fn law_every_two_events_are_compared(
    events: Seq<CompactionEvent>,
    n: nat,
    i: int,
    j: int,
)
    requires
        n <= events.len(),
        0 <= i < n,
        i < j < events.len(),
        comparison(events[i], events[j]) is Some,
    ensures
        comparisons(events, n).contains(comparison(events[i], events[j])->0),
    decreases n,
{
    let p = comparison(events[i], events[j])->0;
    let before = comparisons(events, (n - 1) as nat);
    let more = comparisons_of(events, n - 1, events.len() as int);
    let all = before + more;
    if i < n - 1 {
        law_every_two_events_are_compared(events, (n - 1) as nat, i, j);
        let k = choose|k: int| 0 <= k < before.len() && before[k] == p;
        assert(all[k] == p);
    } else {
        lemma_compared(events, i, events.len() as int, j);
        let k = choose|k: int| 0 <= k < more.len() && more[k] == p;
        assert(all[before.len() + k] == p);
    }
}

proof fn lemma_compared(events: Seq<CompactionEvent>, i: int, n: int, j: int)
    requires
        0 <= i < j < n <= events.len(),
        comparison(events[i], events[j]) is Some,
    ensures
        comparisons_of(events, i, n).contains(comparison(events[i], events[j])->0),
    decreases n,
{
    let p = comparison(events[i], events[j])->0;
    let rest = comparisons_of(events, i, n - 1);
    let all = comparisons_of(events, i, n);
    if j < n - 1 {
        lemma_compared(events, i, n - 1, j);
        let k = choose|k: int| 0 <= k < rest.len() && rest[k] == p;
        assert(all[k] == p);
    } else {
        assert(all[rest.len() as int] == p);
    }
}

} // verus!

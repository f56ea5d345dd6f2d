//! A record of how conversations were made smaller and how that went, from
//! which strategies can be compared.

use crate::emitter::ring_push;
use crate::json::{json_quoted, quote_json};
use crate::numeral::{decimal, decimal_text};
use crate::split::{join, join_texts};
use crate::text::{holds_text, lemma_texts_push, same_text, texts};
use vstd::prelude::*;
use vstd::string::*;

verus! {

broadcast use lemma_texts_push;

/// One time that a conversation was made smaller.
#[derive(Debug, PartialEq, Eq)]
pub struct CompactionEvent {
    pub strategy: String,
    pub tokens_before: u32,
    pub tokens_after: u32,
    pub messages_before: u32,
    pub messages_after: u32,
    pub turn_index: u32,
    pub at_secs: u64,
    /// Whether the user asked again for what had been dropped, once known.
    pub downstream_re_ask: Option<bool>,
}

impl Clone for CompactionEvent {
    fn clone(&self) -> (r: CompactionEvent)
        ensures
            r == *self,
    {
        CompactionEvent {
            strategy: self.strategy.clone(),
            tokens_before: self.tokens_before,
            tokens_after: self.tokens_after,
            messages_before: self.messages_before,
            messages_after: self.messages_after,
            turn_index: self.turn_index,
            at_secs: self.at_secs,
            downstream_re_ask: self.downstream_re_ask,
        }
    }
}

/// The tokens that were dropped.
pub open spec fn dropped_tokens(e: CompactionEvent) -> nat {
    if e.tokens_before >= e.tokens_after {
        (e.tokens_before - e.tokens_after) as nat
    } else {
        0
    }
}

impl CompactionEvent {
    /// The tokens that were dropped.
    pub fn tokens_dropped(&self) -> (r: u32)
        ensures
            r == dropped_tokens(*self),
    {
        self.tokens_before.saturating_sub(self.tokens_after)
    }

    /// The messages that were dropped.
    pub fn messages_dropped(&self) -> (r: u32)
        ensures
            r == (if self.messages_before >= self.messages_after {
                self.messages_before - self.messages_after
            } else {
                0
            }),
    {
        self.messages_before.saturating_sub(self.messages_after)
    }
}

/// The event of a truncation that left `after` of `before` messages. The
/// tokens left are estimated by the share of the messages.
pub fn truncation_event(
    tokens_before: u32,
    before: u32,
    after: u32,
    turn_index: u32,
    at_secs: u64,
) -> (r: CompactionEvent)
    requires
        after <= before,
    ensures
        r.strategy@ == "truncate-oldest"@,
        r.tokens_before == tokens_before,
        r.tokens_after == (if before > 0 {
            (tokens_before * after) / (before as int)
        } else {
            tokens_before as int
        }),
        r.messages_before == before,
        r.messages_after == after,
        r.turn_index == turn_index,
        r.at_secs == at_secs,
        r.downstream_re_ask is None,
{
    let tokens_after: u32 = if before > 0 {
        proof {
            assert(0 <= tokens_before * after <= tokens_before * before) by (nonlinear_arith)
                requires
                    after <= before,
            ;
            assert(tokens_before * before <= 0xffff_ffff * 0xffff_ffff) by (nonlinear_arith)
                requires
                    tokens_before <= 0xffff_ffff,
                    before <= 0xffff_ffff,
            ;
            assert((tokens_before * after) / (before as int) <= tokens_before) by (nonlinear_arith)
                requires
                    0 < before,
                    0 <= tokens_before * after <= tokens_before * before,
            ;
        }
        ((tokens_before as u64 * after as u64) / before as u64) as u32
    } else {
        tokens_before
    };
    CompactionEvent {
        strategy: "truncate-oldest".to_owned(),
        tokens_before,
        tokens_after,
        messages_before: before,
        messages_after: after,
        turn_index,
        at_secs,
        downstream_re_ask: None,
    }
}

/// The recorded events, oldest first.
pub struct TelemetryModel {
    pub events: Seq<CompactionEvent>,
    pub cap: nat,
}

/// At most `cap` events: the oldest goes when there are too many.
#[derive(Debug)]
pub struct CompactionTelemetry {
    events: Vec<CompactionEvent>,
    cap: usize,
}

impl View for CompactionTelemetry {
    type V = TelemetryModel;

    closed spec fn view(&self) -> TelemetryModel {
        TelemetryModel { events: self.events@, cap: self.cap as nat }
    }
}

impl TelemetryModel {
    /// No more events than there may be.
    pub open spec fn wf(self) -> bool {
        1 <= self.cap && self.events.len() <= self.cap
    }
}

/// The place of the last event of a turn, or -1.
pub open spec fn last_of_turn(events: Seq<CompactionEvent>, turn: u32) -> int
    decreases events.len(),
{
    if events.len() == 0 {
        -1
    } else if events.last().turn_index == turn {
        events.len() - 1
    } else {
        last_of_turn(events.drop_last(), turn)
    }
}

/// `last_of_turn` finds the last one and misses none.
pub proof fn lemma_last_of_turn(events: Seq<CompactionEvent>, turn: u32)
    ensures
        -1 <= last_of_turn(events, turn) < events.len(),
        last_of_turn(events, turn) >= 0 ==> events[last_of_turn(events, turn)].turn_index == turn,
        forall|i: int|
            last_of_turn(events, turn) < i < events.len() ==> (#[trigger] events[i]).turn_index
                != turn,
    decreases events.len(),
{
    if events.len() > 0 && events.last().turn_index != turn {
        lemma_last_of_turn(events.drop_last(), turn);
        assert forall|i: int| last_of_turn(events, turn) < i < events.len() implies (
        #[trigger] events[i]).turn_index != turn by {
            if i < events.len() - 1 {
                assert(events[i] == events.drop_last()[i]);
            }
        }
    }
}

/// What an optional truth value is called in JSON.
pub open spec fn json_flag(b: Option<bool>) -> Seq<char> {
    match b {
        None => "null"@,
        Some(true) => "true"@,
        Some(false) => "false"@,
    }
}

/// An event as a line of JSON.
pub open spec fn event_line(e: CompactionEvent) -> Seq<char> {
    "{\"strategy\":"@ + json_quoted(e.strategy@) + ",\"tokens_before\":"@ + decimal(
        e.tokens_before as nat,
    ) + ",\"tokens_after\":"@ + decimal(e.tokens_after as nat) + ",\"messages_before\":"@ + decimal(
        e.messages_before as nat,
    ) + ",\"messages_after\":"@ + decimal(e.messages_after as nat) + ",\"turn_index\":"@ + decimal(
        e.turn_index as nat,
    ) + ",\"at_secs\":"@ + decimal(e.at_secs as nat) + ",\"downstream_re_ask\":"@ + json_flag(
        e.downstream_re_ask,
    ) + "}"@
}

fn append_number(out: &mut String, key: &str, n: u64)
    ensures
        final(out)@ == old(out)@ + key@ + decimal(n as nat),
{
    out.append(key);
    let s = decimal_text(n);
    out.append(s.as_str());
}

fn line_of(e: &CompactionEvent) -> (r: String)
    ensures
        r@ == event_line(*e),
{
    let mut out = "{\"strategy\":".to_owned();
    let s = quote_json(e.strategy.as_str());
    out.append(s.as_str());
    append_number(&mut out, ",\"tokens_before\":", e.tokens_before as u64);
    append_number(&mut out, ",\"tokens_after\":", e.tokens_after as u64);
    append_number(&mut out, ",\"messages_before\":", e.messages_before as u64);
    append_number(&mut out, ",\"messages_after\":", e.messages_after as u64);
    append_number(&mut out, ",\"turn_index\":", e.turn_index as u64);
    append_number(&mut out, ",\"at_secs\":", e.at_secs);
    out.append(",\"downstream_re_ask\":");
    match e.downstream_re_ask {
        None => out.append("null"),
        Some(true) => out.append("true"),
        Some(false) => out.append("false"),
    }
    out.append("}");
    out
}

/// The events as lines of JSON.
pub open spec fn jsonl(events: Seq<CompactionEvent>) -> Seq<char> {
    join(events.map_values(|e: CompactionEvent| event_line(e)), "\n"@)
}

// ── Statistics ─────────────────────────────────────────────────────────────
/// How a strategy did.
#[derive(Debug)]
pub struct StrategyStats {
    pub strategy: String,
    /// How often it was used.
    pub count: u64,
    /// How many tokens it dropped in all.
    pub tokens_dropped: u128,
    /// How often it is known how it went, and how often it went badly.
    pub labelled: u64,
    pub re_asked: u64,
}

/// The model of [`StrategyStats`].
pub struct StatsModel {
    pub strategy: Seq<char>,
    pub count: nat,
    pub tokens_dropped: nat,
    pub labelled: nat,
    pub re_asked: nat,
}

impl View for StrategyStats {
    type V = StatsModel;

    open spec fn view(&self) -> StatsModel {
        StatsModel {
            strategy: self.strategy@,
            count: self.count as nat,
            tokens_dropped: self.tokens_dropped as nat,
            labelled: self.labelled as nat,
            re_asked: self.re_asked as nat,
        }
    }
}

/// The statistics of a strategy over events.
pub open spec fn stats_for(events: Seq<CompactionEvent>, strategy: Seq<char>) -> StatsModel
    decreases events.len(),
{
    if events.len() == 0 {
        StatsModel { strategy, count: 0, tokens_dropped: 0, labelled: 0, re_asked: 0 }
    } else {
        let rest = stats_for(events.drop_last(), strategy);
        let e = events.last();
        if e.strategy@ != strategy {
            rest
        } else {
            StatsModel {
                strategy,
                count: rest.count + 1,
                tokens_dropped: rest.tokens_dropped + dropped_tokens(e),
                labelled: rest.labelled + (if e.downstream_re_ask is Some {
                    1nat
                } else {
                    0nat
                }),
                re_asked: rest.re_asked + (if e.downstream_re_ask == Some(true) {
                    1nat
                } else {
                    0nat
                }),
            }
        }
    }
}

/// The strategies of the events, in the order in which they first occur.
pub open spec fn strategies_of(events: Seq<CompactionEvent>) -> Seq<Seq<char>>
    decreases events.len(),
{
    if events.len() == 0 {
        Seq::empty()
    } else {
        let rest = strategies_of(events.drop_last());
        if rest.contains(events.last().strategy@) {
            rest
        } else {
            rest.push(events.last().strategy@)
        }
    }
}

/// Where statistics are put among others in the order of their counts, the
/// largest first and of equals the earlier first.
pub open spec fn rank(sorted: Seq<StatsModel>, count: nat) -> int
    decreases sorted.len(),
{
    if sorted.len() == 0 || sorted[0].count < count {
        0
    } else {
        1 + rank(sorted.subrange(1, sorted.len() as int), count)
    }
}

/// The statistics of the first `n` strategies in the order of their counts.
pub open spec fn ranked_stats(
    events: Seq<CompactionEvent>,
    names: Seq<Seq<char>>,
    n: nat,
) -> Seq<StatsModel>
    decreases n,
{
    if n == 0 {
        Seq::empty()
    } else {
        let rest = ranked_stats(events, names, (n - 1) as nat);
        let s = stats_for(events, names[n - 1]);
        rest.insert(rank(rest, s.count), s)
    }
}

/// The models of statistics.
pub open spec fn stats_models(v: Seq<StrategyStats>) -> Seq<StatsModel> {
    v.map_values(|s: StrategyStats| s@)
}

/// The counts do not grow along the sequence.
pub open spec fn by_count(s: Seq<StatsModel>) -> bool {
    forall|i: int, j: int| 0 <= i < j < s.len() ==> (#[trigger] s[i]).count >= (#[trigger] s[j]).count
}

proof fn lemma_rank(sorted: Seq<StatsModel>, count: nat)
    requires
        by_count(sorted),
    ensures
        0 <= rank(sorted, count) <= sorted.len(),
        forall|i: int| 0 <= i < rank(sorted, count) ==> (#[trigger] sorted[i]).count >= count,
        forall|i: int|
            rank(sorted, count) <= i < sorted.len() ==> (#[trigger] sorted[i]).count < count,
    decreases sorted.len(),
{
    if sorted.len() > 0 && sorted[0].count >= count {
        let rest = sorted.subrange(1, sorted.len() as int);
        assert(by_count(rest));
        lemma_rank(rest, count);
        assert forall|i: int| 0 <= i < rank(sorted, count) implies (
        #[trigger] sorted[i]).count >= count by {
            if i > 0 {
                assert(sorted[i] == rest[i - 1]);
            }
        }
        assert forall|i: int| rank(sorted, count) <= i < sorted.len() implies (
        #[trigger] sorted[i]).count < count by {
            assert(sorted[i] == rest[i - 1]);
        }
    }
}

/// Statistics come with the most used strategy first.
pub proof fn law_stats_are_ranked(events: Seq<CompactionEvent>, names: Seq<Seq<char>>, n: nat)
    ensures
        by_count(ranked_stats(events, names, n)),
        ranked_stats(events, names, n).len() == n,
    decreases n,
{
    if n > 0 {
        law_stats_are_ranked(events, names, (n - 1) as nat);
        let rest = ranked_stats(events, names, (n - 1) as nat);
        let s = stats_for(events, names[n - 1]);
        lemma_rank(rest, s.count);
        let at = rank(rest, s.count);
        let all = rest.insert(at, s);
        assert forall|i: int, j: int| 0 <= i < j < all.len() implies (#[trigger] all[i]).count >= (
        #[trigger] all[j]).count by {
            let a = if i < at { all[i] == rest[i] } else if i == at { all[i] == s } else {
                all[i] == rest[i - 1]
            };
            let b = if j < at { all[j] == rest[j] } else if j == at { all[j] == s } else {
                all[j] == rest[j - 1]
            };
            assert(a && b);
        }
    }
}

impl CompactionTelemetry {
    /// Room for `cap` events, and at least for one.
    pub fn with_capacity(cap: usize) -> (r: CompactionTelemetry)
        ensures
            r@.events == Seq::<CompactionEvent>::empty(),
            r@.cap == (if cap == 0 {
                1
            } else {
                cap as nat
            }),
            r@.wf(),
    {
        CompactionTelemetry {
            events: Vec::new(),
            cap: if cap == 0 {
                1
            } else {
                cap
            },
        }
    }

    /// How many events there may be.
    pub fn capacity(&self) -> (r: usize)
        ensures
            r == self@.cap,
    {
        self.cap
    }

    /// The recorded events, oldest first.
    pub fn events(&self) -> (r: &[CompactionEvent])
        ensures
            r@ == self@.events,
    {
        self.events.as_slice()
    }

    /// How many events there are.
    pub fn len(&self) -> (r: usize)
        ensures
            r == self@.events.len(),
    {
        self.events.len()
    }

    /// Whether there are no events.
    pub fn is_empty(&self) -> (r: bool)
        ensures
            r == (self@.events.len() == 0),
    {
        self.events.is_empty()
    }

    /// Adds an event.
    pub fn record(&mut self, ev: CompactionEvent)
        requires
            old(self)@.wf(),
        ensures
            final(self)@.events == ring_push(old(self)@.events, old(self)@.cap, ev),
            final(self)@.cap == old(self)@.cap,
            final(self)@.wf(),
    {
        if self.events.len() >= self.cap {
            let _oldest = self.events.remove(0);
            assert(self.events@ =~= old(self)@.events.subrange(
                1,
                old(self)@.events.len() as int,
            ));
        }
        self.events.push(ev);
    }

    /// Notes how the last compaction of a turn went. Returns whether there was
    /// one.
    pub fn mark_re_ask(&mut self, turn_index: u32, re_asked: bool) -> (r: bool)
        ensures
            ({
                let at = last_of_turn(old(self)@.events, turn_index);
                &&& r == (at >= 0)
                &&& final(self)@.cap == old(self)@.cap
                &&& final(self)@.events == (if at >= 0 {
                    old(self)@.events.update(
                        at,
                        CompactionEvent {
                            downstream_re_ask: Some(re_asked),
                            ..old(self)@.events[at]
                        },
                    )
                } else {
                    old(self)@.events
                })
            }),
    {
        let ghost before = self.events@;
        let mut n: usize = self.events.len();
        assert(before.take(n as int) =~= before);
        while n > 0
            invariant
                self.events@ == before,
                before == old(self)@.events,
                self.cap == old(self).cap,
                n <= before.len(),
                last_of_turn(before, turn_index) == last_of_turn(before.take(n as int), turn_index),
            decreases n,
        {
            assert(before.take(n as int).last() == before[n - 1]);
            assert(before.take(n as int).drop_last() =~= before.take(n - 1));
            if self.events[n - 1].turn_index == turn_index {
                let e = &mut self.events[n - 1];
                e.downstream_re_ask = Some(re_asked);
                return true;
            }
            n -= 1;
        }
        false
    }

    /// The events as lines of JSON, oldest first.
    pub fn to_jsonl(&self) -> (r: String)
        ensures
            r@ == jsonl(self@.events),
    {
        let ghost all = self.events@.map_values(|e: CompactionEvent| event_line(e));
        let mut out: Vec<String> = Vec::new();
        let mut i: usize = 0;
        while i < self.events.len()
            invariant
                all == self.events@.map_values(|e: CompactionEvent| event_line(e)),
                i <= self.events@.len(),
                texts(out@) == all.take(i as int),
            decreases self.events@.len() - i,
        {
            out.push(line_of(&self.events[i]));
            assert(texts(out@) =~= all.take(i + 1));
            i += 1;
        }
        assert(texts(out@) =~= all);
        join_texts(out.as_slice(), "\n")
    }

    /// The events as lines of JSON, oldest first. None are left.
    pub fn drain_jsonl(&mut self) -> (r: String)
        ensures
            r@ == jsonl(old(self)@.events),
            final(self)@.events == Seq::<CompactionEvent>::empty(),
            final(self)@.cap == old(self)@.cap,
    {
        let s = self.to_jsonl();
        self.events.clear();
        s
    }

    /// The statistics of a strategy.
    fn stats(&self, strategy: &str) -> (r: StrategyStats)
        ensures
            r@ == stats_for(self@.events, strategy@),
    {
        let ghost all = self.events@;
        let mut count: u64 = 0;
        let mut tokens: u128 = 0;
        let mut labelled: u64 = 0;
        let mut bad: u64 = 0;
        let mut i: usize = 0;
        assert(all.take(0) =~= Seq::<CompactionEvent>::empty());
        while i < self.events.len()
            invariant
                all == self.events@,
                i <= all.len(),
                count <= i,
                labelled <= i,
                bad <= i,
                tokens <= i * 0xffff_ffff,
                stats_for(all.take(i as int), strategy@) == (StatsModel {
                    strategy: strategy@,
                    count: count as nat,
                    tokens_dropped: tokens as nat,
                    labelled: labelled as nat,
                    re_asked: bad as nat,
                }),
            decreases all.len() - i,
        {
            proof {
                assert(all.take(i + 1).drop_last() =~= all.take(i as int));
                assert(all.take(i + 1).last() == all[i as int]);
                assert(i * 0xffff_ffff + 0xffff_ffff == (i + 1) * 0xffff_ffff)
                    by (nonlinear_arith);
                assert((i + 1) * 0xffff_ffff <= 0x1_0000_0000_0000_0000 * 0xffff_ffff)
                    by (nonlinear_arith)
                    requires
                        i + 1 <= 0x1_0000_0000_0000_0000,
                ;
            }
            let e = &self.events[i];
            if same_text(e.strategy.as_str(), strategy) {
                count += 1;
                tokens += e.tokens_dropped() as u128;
                match e.downstream_re_ask {
                    Some(b) => {
                        labelled += 1;
                        if b {
                            bad += 1;
                        }
                    },
                    None => {},
                }
            }
            i += 1;
        }
        assert(all.take(i as int) =~= all);
        StrategyStats {
            strategy: strategy.to_owned(),
            count,
            tokens_dropped: tokens,
            labelled,
            re_asked: bad,
        }
    }

    /// The strategies that were used, in the order in which they first were.
    fn names(&self) -> (r: Vec<String>)
        ensures
            texts(r@) == strategies_of(self@.events),
    {
        let ghost all = self.events@;
        let mut out: Vec<String> = Vec::new();
        let mut i: usize = 0;
        assert(all.take(0) =~= Seq::<CompactionEvent>::empty());
        assert(texts(out@) =~= Seq::<Seq<char>>::empty());
        while i < self.events.len()
            invariant
                all == self.events@,
                i <= all.len(),
                texts(out@) == strategies_of(all.take(i as int)),
            decreases all.len() - i,
        {
            proof {
                assert(all.take(i + 1).drop_last() =~= all.take(i as int));
                assert(all.take(i + 1).last() == all[i as int]);
            }
            if !holds_text(out.as_slice(), self.events[i].strategy.as_str()) {
                out.push(self.events[i].strategy.clone());
            }
            i += 1;
        }
        assert(all.take(i as int) =~= all);
        out
    }

    /// How each strategy did, the most used first.
    pub fn per_strategy_stats(&self) -> (r: Vec<StrategyStats>)
        ensures
            stats_models(r@) == ranked_stats(
                self@.events,
                strategies_of(self@.events),
                strategies_of(self@.events).len(),
            ),
    {
        let names = self.names();
        let ghost all = strategies_of(self@.events);
        let mut out: Vec<StrategyStats> = Vec::new();
        let mut n: usize = 0;
        assert(stats_models(out@) =~= ranked_stats(self@.events, all, 0));
        while n < names.len()
            invariant
                texts(names@) == all,
                names@.len() == all.len(),
                n <= all.len(),
                out@.len() == n,
                stats_models(out@) == ranked_stats(self@.events, all, n as nat),
            decreases all.len() - n,
        {
            let ghost sorted = stats_models(out@);
            assert(all[n as int] == texts(names@)[n as int]);
            let s = self.stats(names[n].as_str());
            let mut at: usize = 0;
            assert(sorted.subrange(0, sorted.len() as int) =~= sorted);
            while at < out.len() && out[at].count >= s.count
                invariant
                    sorted == stats_models(out@),
                    at <= out@.len() == n,
                    rank(sorted, s@.count) == at + rank(
                        sorted.subrange(at as int, n as int),
                        s@.count,
                    ),
                decreases n - at,
            {
                proof {
                    let part = sorted.subrange(at as int, n as int);
                    assert(part[0] == out@[at as int]@);
                    assert(part.subrange(1, part.len() as int) =~= sorted.subrange(
                        at + 1,
                        n as int,
                    ));
                }
                at += 1;
            }
            proof {
                let part = sorted.subrange(at as int, n as int);
                if at < n {
                    assert(part[0] == out@[at as int]@);
                }
            }
            out.insert(at, s);
            assert(stats_models(out@) =~= sorted.insert(at as int, s@));
            n += 1;
        }
        out
    }
}

impl Default for CompactionTelemetry {
    fn default() -> (r: CompactionTelemetry)
        ensures
            r@.events == Seq::<CompactionEvent>::empty(),
            r@.cap == 1024,
            r@.wf(),
    {
        CompactionTelemetry::with_capacity(1024)
    }
}

/// The numbers of a strategy are those of its own events.
pub proof fn law_numbers_are_of_the_strategy(events: Seq<CompactionEvent>, strategy: Seq<char>)
    ensures
        ({
            let s = stats_for(events, strategy);
            &&& s.strategy == strategy
            &&& s.count == events.filter(|e: CompactionEvent| e.strategy@ == strategy).len()
            &&& s.labelled == events.filter(
                |e: CompactionEvent| e.strategy@ == strategy && e.downstream_re_ask is Some,
            ).len()
            &&& s.re_asked == events.filter(
                |e: CompactionEvent| e.strategy@ == strategy && e.downstream_re_ask == Some(true),
            ).len()
            &&& s.re_asked <= s.labelled <= s.count <= events.len()
        }),
    decreases events.len(),
{
    reveal(Seq::filter);
    if events.len() > 0 {
        law_numbers_are_of_the_strategy(events.drop_last(), strategy);
    }
}

/// The tokens that a strategy dropped are those of its events together, and an event that
/// kept all or more dropped none.
pub proof fn law_dropped_tokens_add_up(
    a: Seq<CompactionEvent>,
    b: Seq<CompactionEvent>,
    e: CompactionEvent,
    strategy: Seq<char>,
)
    ensures
        stats_for(a + b, strategy).tokens_dropped == stats_for(a, strategy).tokens_dropped
            + stats_for(b, strategy).tokens_dropped,
        stats_for(seq![e], strategy).tokens_dropped == (if e.strategy@ == strategy
            && e.tokens_after <= e.tokens_before {
            (e.tokens_before - e.tokens_after) as nat
        } else {
            0
        }),
    decreases b.len(),
{
    assert(seq![e].drop_last() =~= Seq::<CompactionEvent>::empty());
    assert(stats_for(Seq::<CompactionEvent>::empty(), strategy).tokens_dropped == 0);
    if b.len() == 0 {
        assert(a + b =~= a);
    } else {
        assert((a + b).drop_last() =~= a + b.drop_last());
        assert((a + b).last() == b.last());
        law_dropped_tokens_add_up(a, b.drop_last(), e, strategy);
    }
}

/// The strategies that are told of are those of the events, each once.
pub proof fn law_strategies_are_those_of_the_events(events: Seq<CompactionEvent>, s: Seq<char>)
    ensures
        strategies_of(events).no_duplicates(),
        strategies_of(events).contains(s) <==> exists|i: int|
            0 <= i < events.len() && (#[trigger] events[i]).strategy@ == s,
    decreases events.len(),
{
    if events.len() > 0 {
        let rest = events.drop_last();
        let names = strategies_of(rest);
        let all = strategies_of(events);
        let last = events.last().strategy@;
        law_strategies_are_those_of_the_events(rest, s);
        if !names.contains(last) {
            assert(all[names.len() as int] == last);
        }
        if names.contains(s) {
            let k = choose|k: int| 0 <= k < names.len() && names[k] == s;
            assert(all[k] == s);
            let i = choose|i: int| 0 <= i < rest.len() && (#[trigger] rest[i]).strategy@ == s;
            assert(events[i] == rest[i]);
        }
        if exists|i: int| 0 <= i < events.len() && (#[trigger] events[i]).strategy@ == s {
            let i = choose|i: int| 0 <= i < events.len() && (#[trigger] events[i]).strategy@ == s;
            if i < rest.len() {
                assert(rest[i] == events[i]);
            }
        }
        if all.contains(s) && !names.contains(s) {
            let k = choose|k: int| 0 <= k < all.len() && all[k] == s;
            if k < names.len() {
                assert(names[k] == s);
            }
            assert(events[events.len() - 1].strategy@ == s);
        }
    }
}

/// The event of a turn is the last one of it.
pub proof fn law_the_last_event_of_a_turn_is_found(events: Seq<CompactionEvent>, turn: u32)
    ensures
        ({
            let k = last_of_turn(events, turn);
            &&& -1 <= k < events.len()
            &&& k >= 0 ==> events[k].turn_index == turn
            &&& forall|i: int|
                k < i < events.len() ==> (#[trigger] events[i]).turn_index != turn
        }),
    decreases events.len(),
{
    if events.len() > 0 && events.last().turn_index != turn {
        let rest = events.drop_last();
        law_the_last_event_of_a_turn_is_found(rest, turn);
        let k = last_of_turn(events, turn);
        assert forall|i: int| k < i < events.len() implies (#[trigger] events[i]).turn_index
            != turn by {
            if i < rest.len() {
                assert(rest[i] == events[i]);
            }
        }
    }
}

} // verus!

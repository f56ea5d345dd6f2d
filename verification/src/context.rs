//! How full a model's context is, and what makes room in it.

use crate::split::{join, join_texts, words, words_of};
use crate::text::{lowercase, same_text, texts};
use crate::tokens::{estimate_for_text_u32, text_tokens_u32};
use vstd::prelude::*;
use vstd::string::*;

verus! {

// ── Zones ──────────────────────────────────────────────────────────────────
/// `part / whole` percent. The whole is not nothing.
#[derive(Debug, Clone, Copy, PartialEq, Eq, Structural)]
pub struct Percentage {
    pub part: u64,
    pub whole: u64,
}

/// How a model does, by how full its context is.
#[derive(Debug, Clone, Copy, PartialEq, Eq, Structural)]
pub enum ContextZone {
    /// Under 50%.
    Green,
    /// From 50% on.
    Yellow,
    /// From 70% on.
    Orange,
    /// From 85% on.
    Red,
    /// From 95% on.
    Critical,
}

/// The zone at `part / whole` percent.
pub open spec fn zone_at(part: int, whole: int) -> ContextZone {
    if part >= 95 * whole {
        ContextZone::Critical
    } else if part >= 85 * whole {
        ContextZone::Red
    } else if part >= 70 * whole {
        ContextZone::Orange
    } else if part >= 50 * whole {
        ContextZone::Yellow
    } else {
        ContextZone::Green
    }
}

impl ContextZone {
    /// The zone at a percentage.
    pub fn from_percentage(pct: Percentage) -> (r: ContextZone)
        requires
            pct.whole > 0,
        ensures
            r == zone_at(pct.part as int, pct.whole as int),
    {
        let part: u128 = pct.part as u128;
        let whole: u128 = pct.whole as u128;
        if part >= 95 * whole {
            ContextZone::Critical
        } else if part >= 85 * whole {
            ContextZone::Red
        } else if part >= 70 * whole {
            ContextZone::Orange
        } else if part >= 50 * whole {
            ContextZone::Yellow
        } else {
            ContextZone::Green
        }
    }

    /// The zone's name.
    pub open spec fn label_text(self) -> Seq<char> {
        match self {
            ContextZone::Green => "GREEN"@,
            ContextZone::Yellow => "YELLOW"@,
            ContextZone::Orange => "ORANGE"@,
            ContextZone::Red => "RED"@,
            ContextZone::Critical => "CRITICAL"@,
        }
    }

    /// The zone's name.
    pub fn label(&self) -> (r: &'static str)
        ensures
            r@ == self.label_text(),
    {
        match self {
            ContextZone::Green => "GREEN",
            ContextZone::Yellow => "YELLOW",
            ContextZone::Orange => "ORANGE",
            ContextZone::Red => "RED",
            ContextZone::Critical => "CRITICAL",
        }
    }

    /// What to do about it.
    pub open spec fn advice(self) -> Seq<char> {
        match self {
            ContextZone::Green => "Context usage is healthy."@,
            ContextZone::Yellow => "Context filling up. Consider compacting soon."@,
            ContextZone::Orange => "Noticeable context loss. Compact recommended."@,
            ContextZone::Red => "Critical — compact now to avoid degradation."@,
            ContextZone::Critical => "Auto-compact triggered. Context nearly full."@,
        }
    }

    /// What to do about it.
    pub fn recommendation(&self) -> (r: &'static str)
        ensures
            r@ == self.advice(),
    {
        match self {
            ContextZone::Green => "Context usage is healthy.",
            ContextZone::Yellow => "Context filling up. Consider compacting soon.",
            ContextZone::Orange => "Noticeable context loss. Compact recommended.",
            ContextZone::Red => "Critical — compact now to avoid degradation.",
            ContextZone::Critical => "Auto-compact triggered. Context nearly full.",
        }
    }

    /// The escape code of the zone's colour.
    pub open spec fn color(self) -> Seq<char> {
        match self {
            ContextZone::Green => "\x1b[32m"@,
            ContextZone::Yellow => "\x1b[33m"@,
            ContextZone::Orange => "\x1b[38;5;208m"@,
            ContextZone::Red => "\x1b[31m"@,
            ContextZone::Critical => "\x1b[31;1m"@,
        }
    }

    /// The escape code of the zone's colour.
    pub fn ansi_color(&self) -> (r: &'static str)
        ensures
            r@ == self.color(),
    {
        match self {
            ContextZone::Green => "\x1b[32m",
            ContextZone::Yellow => "\x1b[33m",
            ContextZone::Orange => "\x1b[38;5;208m",
            ContextZone::Red => "\x1b[31m",
            ContextZone::Critical => "\x1b[31;1m",
        }
    }
}

// ── Breakdown ──────────────────────────────────────────────────────────────
/// What takes how many tokens of a context.
#[derive(Debug, Clone, Copy, PartialEq, Eq, Structural)]
pub struct ContextBreakdown {
    pub system_prompt_tokens: u32,
    pub tool_schemas_tokens: u32,
    pub project_context_tokens: u32,
    pub conversation_tokens: u32,
    pub tool_results_tokens: u32,
    pub pinned_context_tokens: u32,
    pub total_tokens: u32,
    pub context_limit: u32,
    pub zone: ContextZone,
}

/// How full a context of `limit` tokens is, in percent. One that holds nothing
/// is never full.
pub open spec fn fill_of(total: u32, limit: u32) -> Percentage {
    if limit == 0 {
        Percentage { part: 0, whole: 1 }
    } else {
        Percentage { part: (100 * total) as u64, whole: limit as u64 }
    }
}

fn fill(total: u32, limit: u32) -> (r: Percentage)
    ensures
        r == fill_of(total, limit),
        r.whole > 0,
{
    if limit == 0 {
        Percentage { part: 0, whole: 1 }
    } else {
        Percentage { part: 100 * (total as u64), whole: limit as u64 }
    }
}

impl ContextBreakdown {
    /// How full the context is, in percent.
    pub fn fill_percentage(&self) -> (r: Percentage)
        ensures
            r == fill_of(self.total_tokens, self.context_limit),
            r.whole > 0,
    {
        fill(self.total_tokens, self.context_limit)
    }

    /// How many tokens are free.
    pub fn remaining_tokens(&self) -> (r: u32)
        ensures
            r == (if self.total_tokens <= self.context_limit {
                self.context_limit - self.total_tokens
            } else {
                0
            }),
    {
        self.context_limit.saturating_sub(self.total_tokens)
    }
}

// ── Compaction strategies ──────────────────────────────────────────────────
/// A way to make a conversation shorter.
#[derive(Debug, Clone, Copy, PartialEq, Eq, Structural)]
pub enum CompactionStrategy {
    /// Put a summary in place of all but the last messages.
    Summarize { preserve_last_n: usize },
    /// Drop all but the last messages.
    Truncate { keep_last_n: usize },
    /// Put a summary of the oldest messages in place of all but the last ones.
    Hybrid { summarize_before: usize, keep_verbatim: usize },
    /// Keep what fits a budget, the latest messages first.
    Smart { budget_tokens: u32 },
}

impl CompactionStrategy {
    /// The strategy's name.
    pub open spec fn name_text(self) -> Seq<char> {
        match self {
            CompactionStrategy::Summarize { .. } => "summarize"@,
            CompactionStrategy::Truncate { .. } => "truncate"@,
            CompactionStrategy::Hybrid { .. } => "hybrid"@,
            CompactionStrategy::Smart { .. } => "smart"@,
        }
    }

    /// The strategy's name.
    pub fn name(&self) -> (r: &'static str)
        ensures
            r@ == self.name_text(),
    {
        match self {
            CompactionStrategy::Summarize { .. } => "summarize",
            CompactionStrategy::Truncate { .. } => "truncate",
            CompactionStrategy::Hybrid { .. } => "hybrid",
            CompactionStrategy::Smart { .. } => "smart",
        }
    }

    /// The strategy of a name in lower case, with its usual numbers.
    pub open spec fn named(name: Seq<char>) -> Option<CompactionStrategy> {
        if name == "summarize"@ {
            Some(CompactionStrategy::Summarize { preserve_last_n: 5 })
        } else if name == "truncate"@ {
            Some(CompactionStrategy::Truncate { keep_last_n: 10 })
        } else if name == "hybrid"@ {
            Some(CompactionStrategy::Hybrid { summarize_before: 10, keep_verbatim: 5 })
        } else if name == "smart"@ {
            Some(CompactionStrategy::Smart { budget_tokens: 50_000 })
        } else {
            None
        }
    }

    /// The strategy of a name in any case, with its usual numbers.
    pub fn from_name(name: &str) -> (r: Option<CompactionStrategy>)
        ensures
            r == CompactionStrategy::named(lowercase(name@)),
    {
        let lower = name.to_lowercase();
        let s = lower.as_str();
        if same_text(s, "summarize") {
            Some(CompactionStrategy::Summarize { preserve_last_n: 5 })
        } else if same_text(s, "truncate") {
            Some(CompactionStrategy::Truncate { keep_last_n: 10 })
        } else if same_text(s, "hybrid") {
            Some(CompactionStrategy::Hybrid { summarize_before: 10, keep_verbatim: 5 })
        } else if same_text(s, "smart") {
            Some(CompactionStrategy::Smart { budget_tokens: 50_000 })
        } else {
            None
        }
    }
}

// ── Commands ───────────────────────────────────────────────────────────────
/// What is asked of the context.
#[derive(Debug, Clone, PartialEq, Eq)]
pub enum ContextCommand {
    Overview,
    Breakdown,
    Compact,
    CompactWithStrategy(String),
    Pin { label: String, content: String },
    Unpin { label: String },
    Pins,
    Zone,
    Clear,
}

/// What is asked of the context.
#[allow(inconsistent_fields)]
pub enum CommandModel {
    Overview,
    Breakdown,
    Compact,
    CompactWithStrategy(Seq<char>),
    Pin { label: Seq<char>, content: Seq<char> },
    Unpin { label: Seq<char> },
    Pins,
    Zone,
    Clear,
}

impl View for ContextCommand {
    type V = CommandModel;

    open spec fn view(&self) -> CommandModel {
        match *self {
            ContextCommand::Overview => CommandModel::Overview,
            ContextCommand::Breakdown => CommandModel::Breakdown,
            ContextCommand::Compact => CommandModel::Compact,
            ContextCommand::CompactWithStrategy(s) => CommandModel::CompactWithStrategy(s@),
            ContextCommand::Pin { label, content } => CommandModel::Pin {
                label: label@,
                content: content@,
            },
            ContextCommand::Unpin { label } => CommandModel::Unpin { label: label@ },
            ContextCommand::Pins => CommandModel::Pins,
            ContextCommand::Zone => CommandModel::Zone,
            ContextCommand::Clear => CommandModel::Clear,
        }
    }
}

/// What the words of a command line ask for. `verb` is the first word in lower
/// case. What cannot be understood asks for the overview.
pub open spec fn command_of(verb: Seq<char>, ws: Seq<Seq<char>>) -> CommandModel {
    if ws.len() == 0 {
        CommandModel::Overview
    } else if verb == "breakdown"@ {
        CommandModel::Breakdown
    } else if verb == "compact"@ {
        if ws.len() >= 3 && ws[1] == "--strategy"@ {
            CommandModel::CompactWithStrategy(ws[2])
        } else {
            CommandModel::Compact
        }
    } else if verb == "pin"@ {
        if ws.len() >= 3 {
            CommandModel::Pin { label: ws[1], content: join(ws.skip(2), " "@) }
        } else {
            CommandModel::Overview
        }
    } else if verb == "unpin"@ {
        if ws.len() >= 2 {
            CommandModel::Unpin { label: ws[1] }
        } else {
            CommandModel::Overview
        }
    } else if verb == "pins"@ {
        CommandModel::Pins
    } else if verb == "zone"@ {
        CommandModel::Zone
    } else if verb == "clear"@ {
        CommandModel::Clear
    } else {
        CommandModel::Overview
    }
}

impl ContextCommand {
    /// What the words of a command line ask for, given the first one in lower
    /// case.
    pub fn from_words(verb: &str, parts: &[String]) -> (r: ContextCommand)
        ensures
            r@ == command_of(verb@, texts(parts@)),
    {
        let n: usize = parts.len();
        let ghost ws = texts(parts@);
        if n == 0 {
            ContextCommand::Overview
        } else if same_text(verb, "breakdown") {
            ContextCommand::Breakdown
        } else if same_text(verb, "compact") {
            if n >= 3 && same_text(parts[1].as_str(), "--strategy") {
                assert(ws[2] == parts@[2]@);
                ContextCommand::CompactWithStrategy(parts[2].clone())
            } else {
                ContextCommand::Compact
            }
        } else if same_text(verb, "pin") {
            if n >= 3 {
                let rest = vstd::slice::slice_subrange(parts, 2, n);
                assert(texts(rest@) =~= ws.skip(2));
                assert(ws[1] == parts@[1]@);
                ContextCommand::Pin { label: parts[1].clone(), content: join_texts(rest, " ") }
            } else {
                ContextCommand::Overview
            }
        } else if same_text(verb, "unpin") {
            if n >= 2 {
                assert(ws[1] == parts@[1]@);
                ContextCommand::Unpin { label: parts[1].clone() }
            } else {
                ContextCommand::Overview
            }
        } else if same_text(verb, "pins") {
            ContextCommand::Pins
        } else if same_text(verb, "zone") {
            ContextCommand::Zone
        } else if same_text(verb, "clear") {
            ContextCommand::Clear
        } else {
            ContextCommand::Overview
        }
    }

    /// What a command line asks for.
    pub fn parse(args: &str) -> (r: ContextCommand)
        ensures
            r@ == command_of(
                if words(args@).len() == 0 {
                    Seq::empty()
                } else {
                    lowercase(words(args@)[0])
                },
                words(args@),
            ),
    {
        let parts = words_of(args);
        let verb = if parts.len() == 0 {
            String::new()
        } else {
            assert(words(args@)[0] == parts@[0]@);
            parts[0].as_str().to_lowercase()
        };
        ContextCommand::from_words(verb.as_str(), parts.as_slice())
    }
}

/// The estimate for a text, no more than a `u32` can hold.
pub fn estimate_tokens(text: &str) -> (r: u32)
    ensures
        r == text_tokens_u32(text@),
{
    estimate_for_text_u32(text)
}

// ── Retrieval ──────────────────────────────────────────────────────────────
/// A piece of code that was found, with what it costs.
#[derive(Debug, Clone)]
pub struct RetrievedChunk<S> {
    pub file_path: String,
    pub symbol_name: String,
    pub content: String,
    pub score: S,
    pub tokens: u32,
}

/// A piece of code that was found: where, what and how well it fits.
pub struct FoundModel<S> {
    pub file_path: Seq<char>,
    pub symbol_name: Seq<char>,
    pub content: Seq<char>,
    pub score: S,
}

/// What was found.
pub open spec fn found_models<S>(v: Seq<(String, String, String, S)>) -> Seq<FoundModel<S>> {
    v.map_values(
        |f: (String, String, String, S)|
            FoundModel { file_path: f.0@, symbol_name: f.1@, content: f.2@, score: f.3 },
    )
}

/// What was taken.
pub open spec fn chunk_models<S>(v: Seq<RetrievedChunk<S>>) -> Seq<FoundModel<S>> {
    v.map_values(
        |c: RetrievedChunk<S>|
            FoundModel {
                file_path: c.file_path@,
                symbol_name: c.symbol_name@,
                content: c.content@,
                score: c.score,
            },
    )
}

/// What fits a budget, taken in order until the budget is used up; what does
/// not fit is passed over.
pub open spec fn taken<S>(found: Seq<FoundModel<S>>, budget: nat) -> Seq<FoundModel<S>>
    decreases found.len(),
{
    if found.len() == 0 {
        Seq::empty()
    } else {
        let cost = text_tokens_u32(found[0].content);
        let fits = cost <= budget;
        let left = if fits {
            (budget - cost) as nat
        } else {
            budget
        };
        let first = if fits {
            seq![found[0]]
        } else {
            Seq::empty()
        };
        if left == 0 {
            first
        } else {
            first + taken(found.skip(1), left)
        }
    }
}

/// What some pieces cost together.
pub open spec fn cost_of<S>(found: Seq<FoundModel<S>>) -> nat
    decreases found.len(),
{
    if found.len() == 0 {
        0
    } else {
        text_tokens_u32(found[0].content) + cost_of(found.skip(1))
    }
}

/// What is taken never costs more than the budget.
pub proof fn law_retrieval_fits_the_budget<S>(found: Seq<FoundModel<S>>, budget: nat)
    ensures
        cost_of(taken(found, budget)) <= budget,
    decreases found.len(),
{
    if found.len() > 0 {
        let cost = text_tokens_u32(found[0].content);
        let left = if cost <= budget {
            (budget - cost) as nat
        } else {
            budget
        };
        let rest = if left == 0 {
            Seq::empty()
        } else {
            taken(found.skip(1), left)
        };
        law_retrieval_fits_the_budget(found.skip(1), left);
        if cost <= budget {
            let all = seq![found[0]] + rest;
            assert(all =~= taken(found, budget));
            assert(all.skip(1) =~= rest);
            assert(cost_of(all) == cost + cost_of(rest));
        } else if left != 0 {
            assert(Seq::<FoundModel<S>>::empty() + rest =~= rest);
        }
    }
}

/// The pieces of code that fit a budget, taken in order until the budget is
/// used up.
pub fn retrieve_relevant_context<S: Copy>(
    results: Vec<(String, String, String, S)>,
    budget_tokens: u32,
) -> (r: Vec<RetrievedChunk<S>>)
    ensures
        chunk_models(r@) == taken(found_models(results@), budget_tokens as nat),
        forall|i: int| 0 <= i < r@.len() ==> (#[trigger] r@[i]).tokens == text_tokens_u32(
            r@[i].content@,
        ),
{
    let ghost all = found_models(results@);
    let mut remaining: u32 = budget_tokens;
    let mut chunks: Vec<RetrievedChunk<S>> = Vec::new();
    let mut i: usize = 0;
    proof {
        assert(all.skip(0) =~= all);
        assert(chunk_models(chunks@) + taken(all, budget_tokens as nat) =~= taken(
            all,
            budget_tokens as nat,
        ));
    }
    while i < results.len()
        invariant
            i <= results@.len(),
            all == found_models(results@),
            chunk_models(chunks@) + taken(all.skip(i as int), remaining as nat) == taken(
                all,
                budget_tokens as nat,
            ),
            forall|j: int| 0 <= j < chunks@.len() ==> (#[trigger] chunks@[j]).tokens
                == text_tokens_u32(chunks@[j].content@),
        decreases results@.len() - i,
    {
        let tokens: u32 = estimate_tokens(results[i].2.as_str());
        let ghost before = chunk_models(chunks@);
        let ghost part = all.skip(i as int);
        let ghost left = if tokens <= remaining {
            (remaining - tokens) as nat
        } else {
            remaining as nat
        };
        proof {
            assert(part[0] == all[i as int]);
            assert(part.skip(1) =~= all.skip(i + 1));
        }
        if tokens <= remaining {
            remaining -= tokens;
            chunks.push(
                RetrievedChunk {
                    file_path: results[i].0.clone(),
                    symbol_name: results[i].1.clone(),
                    content: results[i].2.clone(),
                    score: results[i].3,
                    tokens,
                },
            );
            proof {
                assert(chunk_models(chunks@) =~= before.push(all[i as int]));
                assert(before.push(all[i as int]) =~= before + seq![all[i as int]]);
                assert(before + (seq![all[i as int]] + taken(all.skip(i + 1), left)) =~= (before
                    + seq![all[i as int]]) + taken(all.skip(i + 1), left));
            }
        } else {
            assert(Seq::<FoundModel<S>>::empty() + taken(all.skip(i + 1), left) =~= taken(
                all.skip(i + 1),
                left,
            ));
            assert(before + Seq::<FoundModel<S>>::empty() =~= before);
        }
        if remaining == 0 {
            return chunks;
        }
        i += 1;
    }
    assert(all.skip(i as int) =~= Seq::empty());
    assert(chunk_models(chunks@) + Seq::<FoundModel<S>>::empty() =~= chunk_models(chunks@));
    chunks
}

/// A context is in a worse zone the fuller it is: green below half, yellow below 70
/// percent, orange below 85, red below 95, and critical from there on.
pub proof fn law_zones_follow_the_fill(total: u32, limit: u32)
    requires
        limit > 0,
    ensures
        ({
            let f = fill_of(total, limit);
            let z = zone_at(f.part as int, f.whole as int);
            &&& z is Green <==> 2 * total < limit
            &&& z is Yellow <==> limit <= 2 * total && 10 * total < 7 * limit
            &&& z is Orange <==> 7 * limit <= 10 * total && 20 * total < 17 * limit
            &&& z is Red <==> 17 * limit <= 20 * total && 20 * total < 19 * limit
            &&& z is Critical <==> 19 * limit <= 20 * total
        }),
{
}

/// The name of a strategy leads back to a strategy of that name.
pub proof fn law_strategies_are_found_by_name(s: CompactionStrategy)
    ensures
        CompactionStrategy::named(s.name_text()) is Some,
        CompactionStrategy::named(s.name_text())->0.name_text() == s.name_text(),
        s is Summarize <==> CompactionStrategy::named(s.name_text())->0 is Summarize,
        s is Truncate <==> CompactionStrategy::named(s.name_text())->0 is Truncate,
        s is Hybrid <==> CompactionStrategy::named(s.name_text())->0 is Hybrid,
        s is Smart <==> CompactionStrategy::named(s.name_text())->0 is Smart,
{
    reveal_strlit("summarize");
    reveal_strlit("truncate");
    reveal_strlit("hybrid");
    reveal_strlit("smart");
}

/// What is pinned has the word behind the command for its label, and the rest for its text.
pub proof fn law_pins_are_read(verb: Seq<char>, label: Seq<char>, more: Seq<Seq<char>>)
    ensures
        more.len() > 0 ==> command_of("pin"@, seq![verb, label] + more) == (CommandModel::Pin {
            label,
            content: join(more, " "@),
        }),
        command_of("unpin"@, seq![verb, label] + more) == (CommandModel::Unpin { label }),
        command_of("compact"@, seq![verb, "--strategy"@, label] + more)
            == CommandModel::CompactWithStrategy(label),
        command_of("compact"@, seq![verb]) is Compact,
        command_of("pins"@, seq![verb] + more) is Pins,
        command_of("zone"@, seq![verb] + more) is Zone,
        command_of("clear"@, seq![verb] + more) is Clear,
        command_of("breakdown"@, seq![verb] + more) is Breakdown,
        command_of(verb, Seq::empty()) is Overview,
{
    reveal_strlit("breakdown");
    reveal_strlit("compact");
    reveal_strlit("pin");
    reveal_strlit("unpin");
    reveal_strlit("pins");
    reveal_strlit("zone");
    reveal_strlit("clear");
    assert("breakdown"@.len() == 9 && "compact"@.len() == 7 && "pin"@.len() == 3);
    assert("unpin"@.len() == 5 && "clear"@.len() == 5);
    assert("pins"@.len() == 4 && "zone"@.len() == 4);
    assert("unpin"@[0] == 'u' && "clear"@[0] == 'c' && "pins"@[0] == 'p' && "zone"@[0] == 'z');
    let ws = seq![verb, label] + more;
    assert(ws.skip(2) =~= more);
    assert(ws[1] == label);
    let by = seq![verb, "--strategy"@, label] + more;
    assert(by[1] == "--strategy"@ && by[2] == label);
}

proof fn lemma_one_taken<S>(f: FoundModel<S>, budget: nat)
    ensures
        taken(seq![f], budget) == (if text_tokens_u32(f.content) <= budget {
            seq![f]
        } else {
            Seq::empty()
        }),
{
    let one = seq![f];
    let none = Seq::<FoundModel<S>>::empty();
    let cost = text_tokens_u32(f.content);
    assert(one.skip(1) =~= none);
    if cost <= budget {
        let left = (budget - cost) as nat;
        assert(taken(none, left) == none);
        assert(one + none =~= one);
    } else {
        assert(taken(none, budget) == none);
        assert(none + none =~= none);
    }
}

/// What was found first is taken first: of what follows as much is taken as the budget
/// holds that is left. One piece is taken exactly if it fits.
pub proof fn law_the_best_is_taken_first<S>(
    a: Seq<FoundModel<S>>,
    b: Seq<FoundModel<S>>,
    f: FoundModel<S>,
    budget: nat,
)
    ensures
        taken(seq![f], budget) == (if text_tokens_u32(f.content) <= budget {
            seq![f]
        } else {
            Seq::empty()
        }),
        a.len() > 0 && cost_of(taken(a, budget)) < budget ==> taken(a + b, budget) == taken(
            a,
            budget,
        ) + taken(b, (budget - cost_of(taken(a, budget))) as nat),
        a.len() > 0 && cost_of(taken(a, budget)) == budget ==> taken(a + b, budget) == taken(
            a,
            budget,
        ),
    decreases a.len(),
{
    lemma_one_taken(f, budget);
    if a.len() > 0 {
        let cost = text_tokens_u32(a[0].content);
        let fits = cost <= budget;
        let left = if fits {
            (budget - cost) as nat
        } else {
            budget
        };
        let first = if fits {
            seq![a[0]]
        } else {
            Seq::empty()
        };
        let rest = a.skip(1);
        assert((a + b)[0] == a[0]);
        assert((a + b).skip(1) =~= rest + b);
        if left > 0 {
            let t = taken(rest, left);
            assert(taken(a, budget) == first + t);
            if fits {
                assert((first + t)[0] == a[0]);
                assert((first + t).skip(1) =~= t);
                assert(cost_of(first + t) == cost + cost_of(t));
            } else {
                assert(first + t =~= t);
            }
            law_retrieval_fits_the_budget(rest, left);
            if rest.len() > 0 {
                law_the_best_is_taken_first(rest, b, f, left);
                assert(first + (t + taken(b, (left - cost_of(t)) as nat)) =~= first + t + taken(
                    b,
                    (left - cost_of(t)) as nat,
                ));
            } else {
                assert(t =~= Seq::<FoundModel<S>>::empty());
                assert(rest + b =~= b);
                assert(first + t =~= first);
            }
        } else {
            if fits {
                assert(first.skip(1) =~= Seq::<FoundModel<S>>::empty());
                assert(cost_of(first) == cost + cost_of(first.skip(1)));
            }
        }
    }
}

} // verus!

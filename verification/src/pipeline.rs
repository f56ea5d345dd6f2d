//! The pipeline that runs strategies one after the other until a conversation
//! fits its budget.

use crate::groups::{models, sum_tokens, GroupModel, MessageGroup, MessageGroupKind};
use crate::strategies::{
    candidate, cap, count, lemma_count_is_filter, lemma_select_from, lemma_select_holds,
    not_repeated, others_from, recent, select, CompactionResult, CompactionStrategy,
    EmergencyTruncator, Outcome, SlidingWindowStrategy, ToolCollapseStrategy,
};
use crate::summarize::{
    before_window, first_non_system, pattern_at, patterns_from, placeholder, saved, summarised,
    PatternCompactor, SummarizeStrategy,
};
use crate::text::{lemma_texts_push, texts};
use vstd::prelude::*;
use vstd::string::*;

verus! {

broadcast use lemma_texts_push;

/// What a run of the pipeline did. The count stands at the largest value of a
/// `usize` where that cannot hold it.
#[derive(Debug)]
pub struct PipelineResult {
    pub total_removed_tokens: usize,
    pub strategies_applied: Vec<String>,
}

/// Where a run of the pipeline stands: the groups, what has been removed, and
/// the names of the strategies that did something.
pub struct Progress {
    pub groups: Seq<GroupModel>,
    pub removed: nat,
    pub applied: Seq<Seq<char>>,
}

/// Where a run stands at its beginning.
pub open spec fn at_start(groups: Seq<GroupModel>) -> Progress {
    Progress { groups, removed: 0, applied: Seq::empty() }
}

/// Where a run stands after one more strategy. A strategy that removed nothing
/// and touched no group is not recorded.
pub open spec fn after_stage<S: CompactionStrategy>(s: S, at: Progress) -> Progress {
    let o = s.outcome(at.groups);
    if o.removed_tokens > 0 || o.groups_affected > 0 {
        Progress {
            groups: o.groups,
            removed: cap(at.removed + o.removed_tokens),
            applied: at.applied.push(s.label()),
        }
    } else {
        Progress { groups: o.groups, ..at }
    }
}

/// Where a run ends that has reached stage `k`: it stops before the first
/// stage at which the groups fit the budget.
pub open spec fn run_from<S: CompactionStrategy>(
    stages: Seq<S>,
    k: int,
    budget: nat,
    at: Progress,
) -> Progress
    decreases stages.len() - k,
{
    if 0 <= k < stages.len() && sum_tokens(at.groups) > budget {
        run_from(stages, k + 1, budget, after_stage(stages[k], at))
    } else {
        at
    }
}

/// What the groups cost.
fn total_tokens(groups: &Vec<MessageGroup>) -> (r: u128)
    ensures
        r == sum_tokens(models(groups@)),
{
    let ghost all = models(groups@);
    let mut total: u128 = 0;
    let mut i: usize = 0;
    assert(all.take(0) =~= Seq::<GroupModel>::empty());
    while i < groups.len()
        invariant
            all == models(groups@),
            i <= all.len(),
            total == sum_tokens(all.take(i as int)),
            total <= i * 0xffff_ffff_ffff_ffff,
        decreases all.len() - i,
    {
        let t: usize = groups[i].total_tokens();
        proof {
            assert(all.take(i + 1).drop_last() =~= all.take(i as int));
            assert(all.take(i + 1).last() == groups@[i as int]@);
            assert(i * 0xffff_ffff_ffff_ffff + 0xffff_ffff_ffff_ffff == (i + 1)
                * 0xffff_ffff_ffff_ffff) by (nonlinear_arith);
            assert((i + 1) * 0xffff_ffff_ffff_ffff <= 0x1_0000_0000_0000_0000
                * 0xffff_ffff_ffff_ffff) by (nonlinear_arith)
                requires
                    i + 1 <= 0x1_0000_0000_0000_0000,
            ;
        }
        total = total + t as u128;
        i += 1;
    }
    assert(all.take(i as int) =~= all);
    total
}

/// Runs strategies in the order in which they were added, and stops once the
/// groups fit the budget.
pub struct CompactionPipeline<S> {
    strategies: Vec<S>,
    token_budget: usize,
}

impl<S> CompactionPipeline<S> {
    /// The strategies, in order.
    pub closed spec fn stages(self) -> Seq<S> {
        self.strategies@
    }

    /// What the groups may cost.
    pub closed spec fn budget(self) -> nat {
        self.token_budget as nat
    }
}

impl<S: CompactionStrategy> CompactionPipeline<S> {
    /// A pipeline without strategies.
    pub fn new(budget: usize) -> (r: CompactionPipeline<S>)
        ensures
            r.stages() == Seq::<S>::empty(),
            r.budget() == budget,
    {
        CompactionPipeline { strategies: Vec::new(), token_budget: budget }
    }

    /// Adds a strategy at the end.
    pub fn add_strategy(&mut self, strategy: Box<S>)
        ensures
            final(self).stages() == old(self).stages().push(*strategy),
            final(self).budget() == old(self).budget(),
    {
        self.strategies.push(*strategy);
    }

    /// Runs the strategies until the groups fit the budget.
    pub fn run(&self, groups: &mut Vec<MessageGroup>) -> (r: PipelineResult)
        ensures
            ({
                let end = run_from(self.stages(), 0, self.budget(), at_start(models(old(groups)@)));
                &&& models(final(groups)@) == end.groups
                &&& r.total_removed_tokens == end.removed
                &&& texts(r.strategies_applied@) == end.applied
            }),
    {
        let ghost goal = run_from(
            self.stages(),
            0,
            self.budget(),
            at_start(models(groups@)),
        );
        let mut removed: usize = 0;
        let mut applied: Vec<String> = Vec::new();
        let mut k: usize = 0;
        assert(texts(applied@) =~= Seq::<Seq<char>>::empty());
        while k < self.strategies.len()
            invariant
                k <= self.strategies@.len(),
                goal == run_from(
                    self.stages(),
                    0,
                    self.budget(),
                    at_start(models(old(groups)@)),
                ),
                run_from(
                    self.strategies@,
                    k as int,
                    self.token_budget as nat,
                    (Progress {
                        groups: models(groups@),
                        removed: removed as nat,
                        applied: texts(applied@),
                    }),
                ) == goal,
            decreases self.strategies@.len() - k,
        {
            if total_tokens(groups) <= self.token_budget as u128 {
                return PipelineResult {
                    total_removed_tokens: removed,
                    strategies_applied: applied,
                };
            }
            let result = self.strategies[k].compact(groups);
            if result.removed_tokens > 0 || result.groups_affected > 0 {
                removed = removed.saturating_add(result.removed_tokens);
                applied.push(self.strategies[k].name().to_owned());
            }
            k += 1;
        }
        PipelineResult { total_removed_tokens: removed, strategies_applied: applied }
    }
}

// ── The strategies of the library ──────────────────────────────────────────
/// One of the strategies that the library provides.
pub enum BuiltinStrategy {
    ToolCollapse(ToolCollapseStrategy),
    Summarize(SummarizeStrategy),
    SlidingWindow(SlidingWindowStrategy),
    Pattern(PatternCompactor),
    EmergencyTruncate(EmergencyTruncator),
}

impl CompactionStrategy for BuiltinStrategy {
    open spec fn label(&self) -> Seq<char> {
        match self {
            BuiltinStrategy::ToolCollapse(s) => s.label(),
            BuiltinStrategy::Summarize(s) => s.label(),
            BuiltinStrategy::SlidingWindow(s) => s.label(),
            BuiltinStrategy::Pattern(s) => s.label(),
            BuiltinStrategy::EmergencyTruncate(s) => s.label(),
        }
    }

    open spec fn outcome(&self, groups: Seq<GroupModel>) -> Outcome {
        match self {
            BuiltinStrategy::ToolCollapse(s) => s.outcome(groups),
            BuiltinStrategy::Summarize(s) => s.outcome(groups),
            BuiltinStrategy::SlidingWindow(s) => s.outcome(groups),
            BuiltinStrategy::Pattern(s) => s.outcome(groups),
            BuiltinStrategy::EmergencyTruncate(s) => s.outcome(groups),
        }
    }

    fn name(&self) -> (r: &str) {
        match self {
            BuiltinStrategy::ToolCollapse(s) => s.name(),
            BuiltinStrategy::Summarize(s) => s.name(),
            BuiltinStrategy::SlidingWindow(s) => s.name(),
            BuiltinStrategy::Pattern(s) => s.name(),
            BuiltinStrategy::EmergencyTruncate(s) => s.name(),
        }
    }

    fn compact(&self, groups: &mut Vec<MessageGroup>) -> (r: CompactionResult) {
        match self {
            BuiltinStrategy::ToolCollapse(s) => s.compact(groups),
            BuiltinStrategy::Summarize(s) => s.compact(groups),
            BuiltinStrategy::SlidingWindow(s) => s.compact(groups),
            BuiltinStrategy::Pattern(s) => s.compact(groups),
            BuiltinStrategy::EmergencyTruncate(s) => s.compact(groups),
        }
    }
}

/// The stages of the default pipeline.
pub open spec fn default_stages() -> Seq<BuiltinStrategy> {
    seq![
        BuiltinStrategy::ToolCollapse(ToolCollapseStrategy),
        BuiltinStrategy::Summarize(SummarizeStrategy { keep_recent: 10 }),
        BuiltinStrategy::SlidingWindow(SlidingWindowStrategy { window_size: 20 }),
        BuiltinStrategy::EmergencyTruncate(EmergencyTruncator { minimum_preserved: 5 }),
    ]
}

impl CompactionPipeline<BuiltinStrategy> {
    /// Collapse tool calls, summarise, keep a window, truncate.
    pub fn default_pipeline(budget: usize) -> (r: CompactionPipeline<BuiltinStrategy>)
        ensures
            r.stages() == default_stages(),
            r.budget() == budget,
    {
        let mut p: CompactionPipeline<BuiltinStrategy> = CompactionPipeline::new(budget);
        p.add_strategy(Box::new(BuiltinStrategy::ToolCollapse(ToolCollapseStrategy)));
        p.add_strategy(
            Box::new(BuiltinStrategy::Summarize(SummarizeStrategy { keep_recent: 10 })),
        );
        p.add_strategy(
            Box::new(BuiltinStrategy::SlidingWindow(SlidingWindowStrategy { window_size: 20 })),
        );
        p.add_strategy(
            Box::new(
                BuiltinStrategy::EmergencyTruncate(EmergencyTruncator { minimum_preserved: 5 }),
            ),
        );
        assert(p.stages() =~= default_stages());
        p
    }
}

/// A strategy of the library next to strategies of a user's own.
pub enum Stage<C> {
    Builtin(BuiltinStrategy),
    Custom(C),
}

impl<C: CompactionStrategy> CompactionStrategy for Stage<C> {
    open spec fn label(&self) -> Seq<char> {
        match self {
            Stage::Builtin(s) => s.label(),
            Stage::Custom(s) => s.label(),
        }
    }

    open spec fn outcome(&self, groups: Seq<GroupModel>) -> Outcome {
        match self {
            Stage::Builtin(s) => s.outcome(groups),
            Stage::Custom(s) => s.outcome(groups),
        }
    }

    fn name(&self) -> (r: &str) {
        match self {
            Stage::Builtin(s) => s.name(),
            Stage::Custom(s) => s.name(),
        }
    }

    fn compact(&self, groups: &mut Vec<MessageGroup>) -> (r: CompactionResult) {
        match self {
            Stage::Builtin(s) => s.compact(groups),
            Stage::Custom(s) => s.compact(groups),
        }
    }
}

// ── Laws ───────────────────────────────────────────────────────────────────
/// A conversation that fits its budget is left as it is, and no strategy is
/// recorded.
pub proof fn law_fitting_conversation_is_untouched<S: CompactionStrategy>(
    stages: Seq<S>,
    budget: nat,
    groups: Seq<GroupModel>,
)
    requires
        sum_tokens(groups) <= budget,
    ensures
        run_from(stages, 0, budget, at_start(groups)) == at_start(groups),
{
}

/// Every atomic group of `after` is one of `before`, message for message.
pub open spec fn atomic_kept_whole(before: Seq<GroupModel>, after: Seq<GroupModel>) -> bool {
    forall|k: int|
        0 <= k < after.len() && (#[trigger] after[k]).atomic ==> before.contains(after[k])
}

/// What the system says in `before` is in `after` too.
pub open spec fn system_kept(before: Seq<GroupModel>, after: Seq<GroupModel>) -> bool {
    forall|k: int|
        0 <= k < before.len() && (#[trigger] before[k]).is_system() ==> after.contains(before[k])
}

proof fn lemma_select_laws(groups: Seq<GroupModel>, keep: Seq<bool>)
    requires
        keep.len() == groups.len(),
        forall|i: int| 0 <= i < groups.len() && groups[i].is_system() ==> keep[i],
    ensures
        atomic_kept_whole(groups, select(groups, keep)),
        system_kept(groups, select(groups, keep)),
{
    let after = select(groups, keep);
    assert forall|k: int| 0 <= k < after.len() && (#[trigger] after[k]).atomic implies groups.contains(
        after[k],
    ) by {
        lemma_select_from(groups, keep, k);
    }
    assert forall|k: int| 0 <= k < groups.len() && (#[trigger] groups[k]).is_system() implies
        after.contains(groups[k]) by {
        lemma_select_holds(groups, keep, k);
    }
}

proof fn lemma_first_non_system(groups: Seq<GroupModel>)
    ensures
        0 <= first_non_system(groups) <= groups.len(),
    decreases groups.len(),
{
    if groups.len() > 0 && groups[0].is_system() {
        lemma_first_non_system(groups.subrange(1, groups.len() as int));
    }
}

proof fn lemma_summarised_laws(groups: Seq<GroupModel>, keep: Seq<bool>)
    requires
        keep.len() == groups.len(),
        forall|i: int| 0 <= i < groups.len() && groups[i].is_system() ==> keep[i],
    ensures
        atomic_kept_whole(groups, summarised(groups, keep).groups),
        system_kept(groups, summarised(groups, keep).groups),
{
    lemma_select_laws(groups, keep);
    let kept = select(groups, keep);
    let after = summarised(groups, keep).groups;
    let at = first_non_system(kept);
    lemma_first_non_system(kept);
    assert forall|k: int| 0 <= k < after.len() && (#[trigger] after[k]).atomic implies groups.contains(
        after[k],
    ) by {
        if k < at {
            assert(after[k] == kept[k]);
        } else if k > at {
            assert(after[k] == kept[k - 1]);
        }
    }
    assert forall|k: int| 0 <= k < groups.len() && (#[trigger] groups[k]).is_system() implies
        after.contains(groups[k]) by {
        let j = choose|j: int| 0 <= j < kept.len() && kept[j] == groups[k];
        if j < at {
            assert(after[j] == kept[j]);
        } else {
            assert(after[j + 1] == kept[j]);
        }
    }
}

proof fn lemma_patterns_laws(
    groups: Seq<GroupModel>,
    i: int,
    window: nat,
    removed: nat,
    affected: nat,
)
    requires
        0 <= i,
    ensures
        ({
            let after = patterns_from(groups, i, window, removed, affected).groups;
            &&& after.len() == groups.len()
            &&& forall|k: int|
                0 <= k < groups.len() ==> (#[trigger] after[k]) == groups[k] || (after[k]
                    == placeholder(groups[k]) && !groups[k].atomic && !groups[k].is_system())
        }),
    decreases groups.len() - i,
{
    if i + 2 < groups.len() {
        if pattern_at(groups, i) && before_window(groups, i + 2, window) {
            let next = groups.update(i + 1, placeholder(groups[i + 1]));
            lemma_patterns_laws_from(
                next,
                i + 3,
                window,
                removed + saved(groups[i + 1]),
                affected + 1,
            );
            lemma_patterns_laws(next, i + 3, window, removed + saved(groups[i + 1]), affected + 1);
        } else {
            lemma_patterns_laws(groups, i + 1, window, removed, affected);
        }
    }
}

/// Looking for patterns from `i` on leaves the groups before `i` alone.
proof fn lemma_patterns_laws_from(
    groups: Seq<GroupModel>,
    i: int,
    window: nat,
    removed: nat,
    affected: nat,
)
    requires
        0 <= i,
    ensures
        ({
            let after = patterns_from(groups, i, window, removed, affected).groups;
            &&& after.len() == groups.len()
            &&& forall|k: int| 0 <= k < i && k < groups.len() ==> (#[trigger] after[k]) == groups[k]
        }),
    decreases groups.len() - i,
{
    if i + 2 < groups.len() {
        if pattern_at(groups, i) && before_window(groups, i + 2, window) {
            let next = groups.update(i + 1, placeholder(groups[i + 1]));
            lemma_patterns_laws_from(
                next,
                i + 3,
                window,
                removed + saved(groups[i + 1]),
                affected + 1,
            );
        } else {
            lemma_patterns_laws_from(groups, i + 1, window, removed, affected);
        }
    }
}

/// No strategy of the library splits or rewrites an atomic group: a tool
/// request and its results are kept together or dropped together. And none
/// drops or changes what the system says.
pub proof fn law_strategies_keep_atomic_and_system(s: BuiltinStrategy, groups: Seq<GroupModel>)
    ensures
        atomic_kept_whole(groups, s.outcome(groups).groups),
        system_kept(groups, s.outcome(groups).groups),
{
    match s {
        BuiltinStrategy::ToolCollapse(t) => {
            lemma_select_laws(groups, not_repeated(groups));
        },
        BuiltinStrategy::Summarize(t) => {
            let keep = recent(groups, t.keep_recent as nat, true);
            if select(groups, keep).len() == groups.len() {
                assert forall|k: int| 0 <= k < groups.len() implies groups.contains(
                    #[trigger] groups[k],
                ) by {}
            } else {
                lemma_summarised_laws(groups, keep);
            }
        },
        BuiltinStrategy::SlidingWindow(t) => {
            lemma_select_laws(groups, recent(groups, t.window_size as nat, false));
        },
        BuiltinStrategy::Pattern(t) => {
            lemma_patterns_laws(groups, 0, t.retention_window as nat, 0, 0);
            let after = s.outcome(groups).groups;
            assert forall|k: int| 0 <= k < groups.len() && (
            #[trigger] groups[k]).is_system() implies after.contains(groups[k]) by {
                assert(after[k] == groups[k]);
            }
        },
        BuiltinStrategy::EmergencyTruncate(t) => {
            lemma_select_laws(groups, recent(groups, t.minimum_preserved as nat, false));
        },
    }
}

/// A whole run of the library's strategies keeps atomic groups whole, and what
/// the system says.
pub proof fn law_run_keeps_atomic_and_system(
    stages: Seq<BuiltinStrategy>,
    k: int,
    budget: nat,
    at: Progress,
)
    requires
        0 <= k,
    ensures
        atomic_kept_whole(at.groups, run_from(stages, k, budget, at).groups),
        system_kept(at.groups, run_from(stages, k, budget, at).groups),
    decreases stages.len() - k,
{
    let end = run_from(stages, k, budget, at).groups;
    if k < stages.len() && sum_tokens(at.groups) > budget {
        let mid = after_stage(stages[k], at);
        law_strategies_keep_atomic_and_system(stages[k], at.groups);
        law_run_keeps_atomic_and_system(stages, k + 1, budget, mid);
        assert forall|j: int| 0 <= j < end.len() && (#[trigger] end[j]).atomic implies at.groups.contains(
            end[j],
        ) by {
            let m = choose|m: int| 0 <= m < mid.groups.len() && mid.groups[m] == end[j];
            assert(mid.groups[m].atomic);
        }
        assert forall|j: int| 0 <= j < at.groups.len() && (
        #[trigger] at.groups[j]).is_system() implies end.contains(at.groups[j]) by {
            let m = choose|m: int| 0 <= m < mid.groups.len() && mid.groups[m] == at.groups[j];
            assert(mid.groups[m].is_system());
        }
    } else {
        assert forall|j: int| 0 <= j < end.len() implies end.contains(#[trigger] end[j]) by {}
    }
}

/// The states of a run from stage `first` on: what each strategy made of the groups
/// is what the next one gets; it goes on as long as the groups are over the budget
/// and there is another strategy.
pub open spec fn is_course<S: CompactionStrategy>(
    stages: Seq<S>,
    first: int,
    budget: nat,
    start: Progress,
    at: Seq<Progress>,
) -> bool {
    &&& 1 <= at.len() <= stages.len() - first + 1
    &&& at[0] == start
    &&& forall|k: int|
        #![trigger at[k + 1]]
        0 <= k < at.len() - 1 ==> at[k + 1] == after_stage(stages[first + k], at[k])
            && sum_tokens(at[k].groups) > budget
    &&& first + at.len() - 1 < stages.len() ==> sum_tokens(at.last().groups) <= budget
}

/// A run uses the strategies in their order, and as many as it takes: it ends with
/// the first that brings the groups within the budget, or after the last one.
pub proof fn law_runs_stop_once_the_budget_is_kept<S: CompactionStrategy>(
    stages: Seq<S>,
    budget: nat,
    groups: Seq<GroupModel>,
)
    ensures
        exists|at: Seq<Progress>|
            #[trigger] is_course(stages, 0, budget, at_start(groups), at) && run_from(
                stages,
                0,
                budget,
                at_start(groups),
            ) == at.last(),
{
    lemma_course(stages, 0, budget, at_start(groups));
}

proof fn lemma_course<S: CompactionStrategy>(
    stages: Seq<S>,
    first: int,
    budget: nat,
    start: Progress,
)
    requires
        0 <= first <= stages.len(),
    ensures
        exists|at: Seq<Progress>|
            #[trigger] is_course(stages, first, budget, start, at) && run_from(
                stages,
                first,
                budget,
                start,
            ) == at.last(),
    decreases stages.len() - first,
{
    if first < stages.len() && sum_tokens(start.groups) > budget {
        let next = after_stage(stages[first], start);
        let second = first + 1;
        lemma_course(stages, second, budget, next);
        let at = choose|at: Seq<Progress>|
            #[trigger] is_course(stages, second, budget, next, at) && run_from(
                stages,
                second,
                budget,
                next,
            ) == at.last();
        let all = seq![start] + at;
        assert forall|k: int|
            #![trigger all[k + 1]]
            0 <= k < all.len() - 1 implies all[k + 1] == after_stage(stages[first + k], all[k])
            && sum_tokens(all[k].groups) > budget by {
            if k > 0 {
                assert(all[k] == at[k - 1]);
                assert(all[k + 1] == at[(k - 1) + 1]);
            } else {
                assert(all[1] == at[0]);
            }
        }
        assert(all.last() == at.last());
        assert(is_course(stages, first, budget, start, all));
    } else {
        assert(is_course(stages, first, budget, start, seq![start]));
    }
}

/// A stage leaves what its strategy leaves. It is named, and what it removed is added,
/// if it did something.
pub proof fn law_stages_are_recorded<S: CompactionStrategy>(s: S, at: Progress)
    ensures
        after_stage(s, at).groups == s.outcome(at.groups).groups,
        s.outcome(at.groups).removed_tokens > 0 || s.outcome(at.groups).groups_affected > 0 ==> {
            &&& after_stage(s, at).applied == at.applied.push(s.label())
            &&& at.removed + s.outcome(at.groups).removed_tokens <= usize::MAX ==> after_stage(
                s,
                at,
            ).removed == at.removed + s.outcome(at.groups).removed_tokens
        },
        s.outcome(at.groups).removed_tokens == 0 && s.outcome(at.groups).groups_affected == 0 ==> {
            &&& after_stage(s, at).applied == at.applied
            &&& after_stage(s, at).removed == at.removed
        },
{
}

/// Which tool calls a pattern may shrink: one between two assistant texts that is not
/// atomic, with at least `window` groups behind the pattern that are not what the
/// system says.
pub open spec fn shrinkable(groups: Seq<GroupModel>, i: int, window: nat) -> bool {
    &&& 0 < i < groups.len() - 1
    &&& groups[i - 1].kind == MessageGroupKind::AssistantText
    &&& groups[i].kind == MessageGroupKind::ToolCall
    &&& groups[i + 1].kind == MessageGroupKind::AssistantText
    &&& !groups[i].atomic
    &&& others_from(groups, i + 2, false) >= window
}

/// Patterns shrink the tool calls that they may shrink, to a quarter of their cost
/// and no less than a token, and leave everything else as it is. The messages stay. A
/// call that may be shrunk is left alone only where the pattern before it has taken
/// its first text.
pub proof fn law_patterns_shrink_tool_calls(groups: Seq<GroupModel>, window: usize, i: int)
    requires
        0 <= i < groups.len(),
    ensures
        ({
            let out = PatternCompactor { retention_window: window }.outcome(groups).groups;
            &&& out.len() == groups.len()
            &&& out[i] != groups[i] ==> {
                &&& shrinkable(groups, i, window as nat)
                &&& out[i].messages == groups[i].messages
                &&& out[i].kind == groups[i].kind
                &&& out[i].excluded
                &&& out[i].token_count == if groups[i].token_count >= 8 {
                    groups[i].token_count / 4
                } else {
                    1
                }
            }
            &&& shrinkable(groups, i, window as nat) ==> out[i].excluded || (i >= 2
                && shrinkable(groups, i - 2, window as nat) && out[i - 2].excluded)
        }),
{
    lemma_patterns(groups, groups, 0, window as nat, 0, 0, i);
    if shrinkable(groups, i, window as nat) {
        lemma_patterns_complete(groups, groups, 0, window as nat, 0, 0, i);
    }
}

/// The groups have the kinds of the others, and are atomic where those are.
spec fn alike(a: Seq<GroupModel>, b: Seq<GroupModel>) -> bool {
    &&& a.len() == b.len()
    &&& forall|k: int|
        0 <= k < a.len() ==> (#[trigger] a[k]).kind == b[k].kind && a[k].atomic == b[k].atomic
            && a[k].messages == b[k].messages
}

proof fn lemma_alike_count(a: Seq<GroupModel>, b: Seq<GroupModel>, i: int)
    requires
        alike(a, b),
        0 <= i <= a.len(),
    ensures
        count(a.subrange(i, a.len() as int), candidate(false)) == count(
            b.subrange(i, b.len() as int),
            candidate(false),
        ),
    decreases a.len() - i,
{
    let p = a.subrange(i, a.len() as int);
    let q = b.subrange(i, b.len() as int);
    if i < a.len() {
        lemma_alike_count(a, b, i + 1);
        assert(p.subrange(1, p.len() as int) =~= a.subrange(i + 1, a.len() as int));
        assert(q.subrange(1, q.len() as int) =~= b.subrange(i + 1, b.len() as int));
        assert(p[0] == a[i] && q[0] == b[i]);
    }
}

proof fn lemma_pattern_is_shrinkable(first: Seq<GroupModel>, now: Seq<GroupModel>, i: int, window: nat)
    requires
        alike(now, first),
        0 <= i,
        i + 2 < now.len(),
    ensures
        pattern_at(now, i) && before_window(now, i + 2, window) <==> shrinkable(first, i + 1, window),
{
    lemma_alike_count(now, first, i + 3);
    lemma_count_is_filter(first.subrange(i + 3, first.len() as int), false);
    assert(first.subrange(i + 3, first.len() as int) =~= first.skip(i + 3));
}

proof fn lemma_patterns(
    first: Seq<GroupModel>,
    now: Seq<GroupModel>,
    at: int,
    window: nat,
    removed: nat,
    affected: nat,
    i: int,
)
    requires
        alike(now, first),
        0 <= at,
        0 <= i < first.len(),
        i >= at ==> now[i] == first[i],
    ensures
        ({
            let out = patterns_from(now, at, window, removed, affected).groups;
            &&& out.len() == first.len()
            &&& i < at ==> out[i] == now[i]
            &&& i >= at && out[i] != first[i] ==> shrinkable(first, i, window) && out[i]
                == placeholder(first[i])
        }),
    decreases now.len() - at,
{
    if at + 2 < now.len() {
        lemma_pattern_is_shrinkable(first, now, at, window);
        if pattern_at(now, at) && before_window(now, at + 2, window) {
            let next = now.update(at + 1, placeholder(now[at + 1]));
            lemma_patterns(
                first,
                next,
                at + 3,
                window,
                removed + saved(now[at + 1]),
                affected + 1,
                i,
            );
        } else {
            lemma_patterns(first, now, at + 1, window, removed, affected, i);
        }
    }
}

proof fn lemma_patterns_complete(
    first: Seq<GroupModel>,
    now: Seq<GroupModel>,
    at: int,
    window: nat,
    removed: nat,
    affected: nat,
    i: int,
)
    requires
        alike(now, first),
        0 <= at,
        shrinkable(first, i, window),
        i >= at + 1 || now[i].excluded || (i >= 2 && shrinkable(first, i - 2, window) && now[i
            - 2].excluded),
    ensures
        ({
            let out = patterns_from(now, at, window, removed, affected).groups;
            &&& out.len() == first.len()
            &&& out[i].excluded || (i >= 2 && shrinkable(first, i - 2, window) && out[i
                - 2].excluded)
        }),
    decreases now.len() - at,
{
    if at + 2 < now.len() {
        lemma_pattern_is_shrinkable(first, now, at, window);
        if pattern_at(now, at) && before_window(now, at + 2, window) {
            let next = now.update(at + 1, placeholder(now[at + 1]));
            lemma_patterns_complete(
                first,
                next,
                at + 3,
                window,
                removed + saved(now[at + 1]),
                affected + 1,
                i,
            );
        } else {
            lemma_patterns_complete(first, now, at + 1, window, removed, affected, i);
        }
    }
}

} // verus!

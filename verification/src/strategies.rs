//! Strategies that make a conversation smaller by dropping groups.

use crate::groups::{models, sum_tokens, GroupModel, MessageGroup, MessageGroupKind};
use crate::split::lemma_filter_head;
use vstd::prelude::*;

verus! {

// ── Outcomes ───────────────────────────────────────────────────────────────
/// What one strategy did. Counts that a `usize` cannot hold stand at its
/// largest value.
#[derive(Debug, Clone, Copy, PartialEq, Eq, Structural)]
pub struct CompactionResult {
    pub removed_tokens: usize,
    pub groups_affected: usize,
}

/// What a strategy leaves, and what it reports.
#[verifier::ext_equal]
pub struct Outcome {
    pub groups: Seq<GroupModel>,
    pub removed_tokens: nat,
    pub groups_affected: nat,
}

/// `n`, no more than a `usize` can hold.
pub open spec fn cap(n: nat) -> nat {
    if n <= usize::MAX {
        n
    } else {
        usize::MAX as nat
    }
}

/// Nothing has been done.
pub open spec fn unchanged(groups: Seq<GroupModel>) -> Outcome {
    Outcome { groups, removed_tokens: 0, groups_affected: 0 }
}

/// Some groups of `before` have been dropped, which leaves `after`.
pub open spec fn dropped(before: Seq<GroupModel>, after: Seq<GroupModel>) -> Outcome {
    Outcome {
        groups: after,
        removed_tokens: cap((sum_tokens(before) - sum_tokens(after)) as nat),
        groups_affected: (before.len() - after.len()) as nat,
    }
}

/// A way to make a conversation smaller.
pub trait CompactionStrategy {
    /// The name of the strategy.
    open spec fn label(&self) -> Seq<char> {
        Seq::empty()
    }

    /// What the strategy makes of the groups. One that says nothing else leaves
    /// them as they are.
    open spec fn outcome(&self, groups: Seq<GroupModel>) -> Outcome {
        Outcome { groups, removed_tokens: 0, groups_affected: 0 }
    }

    /// The name of the strategy.
    fn name(&self) -> (r: &str)
        ensures
            r@ == self.label(),
    ;

    /// Makes the conversation smaller.
    fn compact(&self, groups: &mut Vec<MessageGroup>) -> (r: CompactionResult)
        ensures
            models(final(groups)@) == self.outcome(models(old(groups)@)).groups,
            r.removed_tokens == self.outcome(models(old(groups)@)).removed_tokens,
            r.groups_affected == self.outcome(models(old(groups)@)).groups_affected,
    ;
}

// ── Keeping some groups ────────────────────────────────────────────────────
/// The groups at the places where `keep` holds.
pub open spec fn select(groups: Seq<GroupModel>, keep: Seq<bool>) -> Seq<GroupModel>
    decreases groups.len(),
{
    if groups.len() == 0 {
        Seq::empty()
    } else {
        let rest = select(groups.drop_last(), keep);
        if keep[groups.len() - 1] {
            rest.push(groups.last())
        } else {
            rest
        }
    }
}

/// How many of the groups `pred` holds of.
pub open spec fn count(groups: Seq<GroupModel>, pred: spec_fn(GroupModel) -> bool) -> nat
    decreases groups.len(),
{
    if groups.len() == 0 {
        0
    } else {
        count(groups.subrange(1, groups.len() as int), pred) + (if pred(groups[0]) {
            1nat
        } else {
            0nat
        })
    }
}

/// A selection is no longer and costs no more than the whole.
pub proof fn lemma_select_bounds(groups: Seq<GroupModel>, keep: Seq<bool>)
    ensures
        select(groups, keep).len() <= groups.len(),
        sum_tokens(select(groups, keep)) <= sum_tokens(groups),
    decreases groups.len(),
{
    if groups.len() > 0 {
        lemma_select_bounds(groups.drop_last(), keep);
        if keep[groups.len() - 1] {
            assert(select(groups, keep).drop_last() =~= select(groups.drop_last(), keep));
        }
    }
}

/// A selection of everything is everything, and only that is as long.
pub proof fn lemma_select_all(groups: Seq<GroupModel>, keep: Seq<bool>)
    ensures
        (forall|i: int| 0 <= i < groups.len() ==> keep[i]) <==> select(groups, keep).len()
            == groups.len(),
        select(groups, keep).len() == groups.len() ==> select(groups, keep) == groups,
    decreases groups.len(),
{
    if groups.len() > 0 {
        lemma_select_all(groups.drop_last(), keep);
        lemma_select_bounds(groups.drop_last(), keep);
        if select(groups, keep).len() == groups.len() {
            assert(select(groups, keep) =~= groups);
        }
    }
}

/// Every group of a selection is one of the whole.
pub proof fn lemma_select_from(groups: Seq<GroupModel>, keep: Seq<bool>, k: int)
    requires
        0 <= k < select(groups, keep).len(),
    ensures
        exists|i: int| 0 <= i < groups.len() && keep[i] && groups[i] == select(groups, keep)[k],
    decreases groups.len(),
{
    if groups.len() > 0 {
        let rest = select(groups.drop_last(), keep);
        if k < rest.len() {
            lemma_select_from(groups.drop_last(), keep, k);
            let i = choose|i: int|
                0 <= i < groups.len() - 1 && keep[i] && groups.drop_last()[i] == rest[k];
            assert(groups[i] == select(groups, keep)[k]);
        } else {
            assert(groups[groups.len() - 1] == select(groups, keep)[k]);
        }
    }
}

/// Every kept group of the whole is in the selection.
pub proof fn lemma_select_holds(groups: Seq<GroupModel>, keep: Seq<bool>, i: int)
    requires
        0 <= i < groups.len(),
        keep[i],
    ensures
        select(groups, keep).contains(groups[i]),
    decreases groups.len(),
{
    let rest = select(groups.drop_last(), keep);
    if i == groups.len() - 1 {
        assert(select(groups, keep)[rest.len() as int] == groups[i]);
    } else {
        lemma_select_holds(groups.drop_last(), keep, i);
        let k = choose|k: int| 0 <= k < rest.len() && rest[k] == groups[i];
        assert(select(groups, keep)[k] == groups[i]);
    }
}

/// Drops the groups that are not marked. Returns what they cost, and how many
/// they are.
pub(crate) fn keep_marked(groups: &mut Vec<MessageGroup>, marks: &Vec<bool>) -> (r: CompactionResult)
    requires
        marks@.len() == old(groups)@.len(),
    ensures
        models(final(groups)@) == select(models(old(groups)@), marks@),
        r.removed_tokens == dropped(models(old(groups)@), models(final(groups)@)).removed_tokens,
        r.groups_affected == old(groups)@.len() - final(groups)@.len(),
{
    let ghost before = models(groups@);
    let ghost keep = marks@;
    let n: usize = groups.len();
    let mut removed: usize = 0;
    let mut affected: usize = 0;
    let ghost mut gone: nat = 0;
    let mut i: usize = 0;
    let mut j: usize = 0;
    proof {
        assert(before.take(0) =~= Seq::<GroupModel>::empty());
        assert(models(groups@) =~= select(before.take(0), keep) + before.skip(0));
    }
    while j < n
        invariant
            n == before.len() == marks@.len(),
            keep == marks@,
            i <= j <= n,
            i + affected == j,
            i == select(before.take(j as int), keep).len(),
            groups@.len() == n - affected,
            models(groups@) == select(before.take(j as int), keep) + before.skip(j as int),
            gone + sum_tokens(select(before.take(j as int), keep)) == sum_tokens(
                before.take(j as int),
            ),
            removed == cap(gone),
        decreases n - j,
    {
        let ghost now = models(groups@);
        let ghost part = select(before.take(j as int), keep);
        proof {
            assert(before.take(j + 1).drop_last() =~= before.take(j as int));
            assert(before.take(j + 1).last() == before[j as int]);
            assert(now[i as int] == before[j as int]);
        }
        if marks[j] {
            i += 1;
            proof {
                assert(select(before.take(j + 1), keep) == part.push(before[j as int]));
                assert(part.push(before[j as int]).drop_last() =~= part);
                assert(now =~= part.push(before[j as int]) + before.skip(j + 1));
            }
        } else {
            let g = groups.remove(i);
            proof {
                assert(g@ == before[j as int]);
                gone = gone + g@.token_count;
                assert(models(groups@) =~= now.remove(i as int));
                assert(models(groups@) =~= part + before.skip(j + 1));
            }
            removed = removed.saturating_add(g.total_tokens());
            affected += 1;
        }
        j += 1;
    }
    proof {
        assert(before.take(n as int) =~= before);
        assert(models(groups@) =~= select(before, keep));
    }
    CompactionResult { removed_tokens: removed, groups_affected: affected }
}

// ── Collapsing tool calls ──────────────────────────────────────────────────
/// Drops every tool-call group that directly follows another one. Atomic
/// groups are left alone.
pub struct ToolCollapseStrategy;

/// A tool-call group that may be collapsed.
pub open spec fn collapsible(g: GroupModel) -> bool {
    g.kind == MessageGroupKind::ToolCall && !g.atomic
}

/// The places that collapsing keeps.
pub open spec fn not_repeated(groups: Seq<GroupModel>) -> Seq<bool> {
    Seq::new(
        groups.len(),
        |i: int| !(i > 0 && collapsible(groups[i]) && collapsible(groups[i - 1])),
    )
}

impl CompactionStrategy for ToolCollapseStrategy {
    open spec fn label(&self) -> Seq<char> {
        "tool-collapse"@
    }

    open spec fn outcome(&self, groups: Seq<GroupModel>) -> Outcome {
        dropped(groups, select(groups, not_repeated(groups)))
    }

    fn name(&self) -> (r: &str) {
        "tool-collapse"
    }

    fn compact(&self, groups: &mut Vec<MessageGroup>) -> (r: CompactionResult) {
        let ghost before = models(groups@);
        let mut marks: Vec<bool> = Vec::new();
        let mut after_collapsible: bool = false;
        let mut i: usize = 0;
        while i < groups.len()
            invariant
                before == models(groups@),
                i <= before.len(),
                marks@.len() == i,
                after_collapsible == (i > 0 && collapsible(before[i - 1])),
                forall|k: int| 0 <= k < i ==> marks@[k] == not_repeated(before)[k],
            decreases before.len() - i,
        {
            let here = groups[i].kind() == MessageGroupKind::ToolCall && !groups[i].is_atomic();
            assert(groups@[i as int]@ == before[i as int]);
            marks.push(!(after_collapsible && here));
            after_collapsible = here;
            i += 1;
        }
        assert(marks@ =~= not_repeated(before));
        keep_marked(groups, &marks)
    }
}

// ── Keeping the most recent groups ─────────────────────────────────────────
/// A group that a strategy may drop: not what the system says and, if
/// `spare_atomic`, not atomic.
pub open spec fn candidate(spare_atomic: bool) -> spec_fn(GroupModel) -> bool {
    |g: GroupModel| !g.is_system() && !(spare_atomic && g.atomic)
}

/// The places of the `n` last candidates, and of everything that is none.
pub open spec fn recent(groups: Seq<GroupModel>, n: nat, spare_atomic: bool) -> Seq<bool> {
    Seq::new(
        groups.len(),
        |i: int|
            !candidate(spare_atomic)(groups[i]) || count(
                groups.subrange(i, groups.len() as int),
                candidate(spare_atomic),
            ) <= n,
    )
}

/// Marks the `n` last candidates, and everything that is none.
pub(crate) fn mark_recent(groups: &Vec<MessageGroup>, n: usize, spare_atomic: bool) -> (r: Vec<bool>)
    ensures
        r@ == recent(models(groups@), n as nat, spare_atomic),
{
    let ghost all = models(groups@);
    let ghost pred = candidate(spare_atomic);
    let len: usize = groups.len();
    let mut marks: Vec<bool> = Vec::new();
    let mut k: usize = 0;
    while k < len
        invariant
            k <= len,
            marks@.len() == k,
            forall|j: int| 0 <= j < k ==> #[trigger] marks@[j],
        decreases len - k,
    {
        marks.push(true);
        k += 1;
    }
    let mut seen: usize = 0;
    let mut i: usize = len;
    while i > 0
        invariant
            all == models(groups@),
            pred == candidate(spare_atomic),
            len == all.len(),
            i <= len,
            seen <= len - i,
            marks@.len() == len,
            seen == count(all.subrange(i as int, len as int), pred),
            forall|k: int|
                i <= k < len ==> #[trigger] marks@[k] == recent(all, n as nat, spare_atomic)[k],
            forall|k: int| 0 <= k < i ==> #[trigger] marks@[k],
        decreases i,
    {
        i -= 1;
        let here = !groups[i].is_system() && !(spare_atomic && groups[i].is_atomic());
        proof {
            assert(groups@[i as int]@ == all[i as int]);
            let part = all.subrange(i as int, len as int);
            assert(part.subrange(1, part.len() as int) =~= all.subrange(i + 1, len as int));
            assert(part[0] == all[i as int]);
        }
        if here {
            seen += 1;
            if seen > n {
                marks[i] = false;
            }
        }
    }
    assert(marks@ =~= recent(all, n as nat, spare_atomic));
    marks
}

/// Keeps the `window_size` most recent groups, and what the system says.
/// Groups go as a whole, so an atomic group is never split.
pub struct SlidingWindowStrategy {
    pub window_size: usize,
}

impl CompactionStrategy for SlidingWindowStrategy {
    open spec fn label(&self) -> Seq<char> {
        "sliding-window"@
    }

    open spec fn outcome(&self, groups: Seq<GroupModel>) -> Outcome {
        dropped(groups, select(groups, recent(groups, self.window_size as nat, false)))
    }

    fn name(&self) -> (r: &str) {
        "sliding-window"
    }

    fn compact(&self, groups: &mut Vec<MessageGroup>) -> (r: CompactionResult) {
        let marks = mark_recent(groups, self.window_size, false);
        keep_marked(groups, &marks)
    }
}

/// Drops the oldest groups under pressure: all but what the system says and
/// the `minimum_preserved` most recent others.
pub struct EmergencyTruncator {
    pub minimum_preserved: usize,
}

impl CompactionStrategy for EmergencyTruncator {
    open spec fn label(&self) -> Seq<char> {
        "emergency-truncate"@
    }

    open spec fn outcome(&self, groups: Seq<GroupModel>) -> Outcome {
        dropped(groups, select(groups, recent(groups, self.minimum_preserved as nat, false)))
    }

    fn name(&self) -> (r: &str) {
        "emergency-truncate"
    }

    fn compact(&self, groups: &mut Vec<MessageGroup>) -> (r: CompactionResult) {
        let marks = mark_recent(groups, self.minimum_preserved, false);
        keep_marked(groups, &marks)
    }
}

// ── Laws ───────────────────────────────────────────────────────────────────
/// How many of the first `i` places are kept.
pub open spec fn kept_before(keep: Seq<bool>, i: int) -> nat {
    keep.take(i).filter(|k: bool| k).len()
}

proof fn lemma_kept_before(keep: Seq<bool>, i: int)
    requires
        0 < i <= keep.len(),
    ensures
        kept_before(keep, i) == kept_before(keep, i - 1) + (if keep[i - 1] {
            1nat
        } else {
            0nat
        }),
{
    reveal(Seq::filter);
    assert(keep.take(i).drop_last() =~= keep.take(i - 1));
}

/// A selection holds the kept groups and no others, in their order: each stands where
/// as many kept ones come before it.
pub proof fn law_selections_keep_the_order(groups: Seq<GroupModel>, keep: Seq<bool>, i: int)
    requires
        keep.len() == groups.len(),
    ensures
        select(groups, keep).len() == kept_before(keep, groups.len() as int),
        0 <= i < groups.len() && keep[i] ==> kept_before(keep, i) < select(groups, keep).len()
            && select(groups, keep)[kept_before(keep, i) as int] == groups[i],
{
    lemma_select_len(groups, keep, groups.len() as int);
    assert(groups.take(groups.len() as int) =~= groups);
    if 0 <= i < groups.len() && keep[i] {
        lemma_select_at(groups, keep, i, groups.len() as int);
    }
}

proof fn lemma_select_len(groups: Seq<GroupModel>, keep: Seq<bool>, n: int)
    requires
        keep.len() == groups.len(),
        0 <= n <= groups.len(),
    ensures
        select(groups.take(n), keep).len() == kept_before(keep, n),
    decreases n,
{
    if n == 0 {
        reveal(Seq::filter);
        assert(keep.take(0) =~= Seq::<bool>::empty());
    } else {
        lemma_select_len(groups, keep, n - 1);
        lemma_kept_before(keep, n);
        assert(groups.take(n).drop_last() =~= groups.take(n - 1));
    }
}

proof fn lemma_select_at(groups: Seq<GroupModel>, keep: Seq<bool>, i: int, n: int)
    requires
        keep.len() == groups.len(),
        0 <= i < n <= groups.len(),
        keep[i],
    ensures
        kept_before(keep, i) < select(groups.take(n), keep).len(),
        select(groups.take(n), keep)[kept_before(keep, i) as int] == groups[i],
    decreases n,
{
    assert(groups.take(n).drop_last() =~= groups.take(n - 1));
    assert(groups.take(n).last() == groups[n - 1]);
    lemma_select_len(groups, keep, n - 1);
    if i < n - 1 {
        lemma_select_at(groups, keep, i, n - 1);
    }
}

/// How many groups from `i` on are not what the system says and, if `spare_atomic`,
/// not atomic.
pub open spec fn others_from(groups: Seq<GroupModel>, i: int, spare_atomic: bool) -> nat {
    groups.skip(i).filter(
        |g: GroupModel| g.kind != MessageGroupKind::System && !(spare_atomic && g.atomic),
    ).len()
}

/// `out` is what is left of the groups if only the `n` most recent are kept, but for
/// what the system says and, if `spare_atomic`, atomic groups, which are all kept.
pub open spec fn keeps_recent(
    groups: Seq<GroupModel>,
    out: Seq<GroupModel>,
    n: nat,
    spare_atomic: bool,
) -> bool {
    exists|keep: Seq<bool>|
        {
            &&& keep.len() == groups.len()
            &&& out == #[trigger] select(groups, keep)
            &&& forall|i: int|
                0 <= i < groups.len() ==> (#[trigger] keep[i] <==> (groups[i].kind
                    == MessageGroupKind::System || (spare_atomic && groups[i].atomic)
                    || others_from(groups, i + 1, spare_atomic) < n))
        }
}

/// Counting is counting what a filter leaves.
pub proof fn lemma_count_is_filter(groups: Seq<GroupModel>, spare_atomic: bool)
    ensures
        count(groups, candidate(spare_atomic)) == groups.filter(
            |g: GroupModel| g.kind != MessageGroupKind::System && !(spare_atomic && g.atomic),
        ).len(),
    decreases groups.len(),
{
    let pred = |g: GroupModel| g.kind != MessageGroupKind::System && !(spare_atomic && g.atomic);
    if groups.len() == 0 {
        reveal(Seq::filter);
    } else {
        let rest = groups.subrange(1, groups.len() as int);
        lemma_count_is_filter(rest, spare_atomic);
        lemma_filter_head(groups[0], rest, pred);
        assert(seq![groups[0]] + rest =~= groups);
    }
}

proof fn lemma_recent_marks(groups: Seq<GroupModel>, n: nat, spare_atomic: bool)
    ensures
        forall|i: int|
            0 <= i < groups.len() ==> (#[trigger] recent(groups, n, spare_atomic)[i] <==> (
            groups[i].kind == MessageGroupKind::System || (spare_atomic && groups[i].atomic)
                || others_from(groups, i + 1, spare_atomic) < n)),
{
    assert forall|i: int| 0 <= i < groups.len() implies (#[trigger] recent(
        groups,
        n,
        spare_atomic,
    )[i] <==> (groups[i].kind == MessageGroupKind::System || (spare_atomic && groups[i].atomic)
        || others_from(groups, i + 1, spare_atomic) < n)) by {
        let part = groups.subrange(i, groups.len() as int);
        assert(part.subrange(1, part.len() as int) =~= groups.skip(i + 1));
        assert(part[0] == groups[i]);
        lemma_count_is_filter(groups.skip(i + 1), spare_atomic);
    }
}

/// A window and a truncation keep the most recent groups and what the system says, in
/// their order, and drop the older ones.
pub proof fn law_windows_keep_the_most_recent(groups: Seq<GroupModel>, n: usize)
    ensures
        keeps_recent(
            groups,
            SlidingWindowStrategy { window_size: n }.outcome(groups).groups,
            n as nat,
            false,
        ),
        keeps_recent(
            groups,
            EmergencyTruncator { minimum_preserved: n }.outcome(groups).groups,
            n as nat,
            false,
        ),
{
    lemma_recent_marks(groups, n as nat, false);
    assert(recent(groups, n as nat, false).len() == groups.len());
    assert(select(groups, recent(groups, n as nat, false)) == SlidingWindowStrategy {
        window_size: n,
    }.outcome(groups).groups);
}

/// The marks of the most recent groups leave what is said of them.
pub proof fn lemma_recent_keeps(groups: Seq<GroupModel>, n: nat, spare_atomic: bool)
    ensures
        keeps_recent(groups, select(groups, recent(groups, n, spare_atomic)), n, spare_atomic),
{
    lemma_recent_marks(groups, n, spare_atomic);
    assert(recent(groups, n, spare_atomic).len() == groups.len());
}

/// What dropping groups reports is what it did: the tokens that are gone and the
/// number of groups that are gone.
pub proof fn law_dropping_is_accounted_for(groups: Seq<GroupModel>, n: usize)
    requires
        sum_tokens(groups) <= usize::MAX,
    ensures
        ({
            let o = SlidingWindowStrategy { window_size: n }.outcome(groups);
            &&& o.removed_tokens + sum_tokens(o.groups) == sum_tokens(groups)
            &&& o.groups_affected + o.groups.len() == groups.len()
        }),
        ({
            let o = EmergencyTruncator { minimum_preserved: n }.outcome(groups);
            &&& o.removed_tokens + sum_tokens(o.groups) == sum_tokens(groups)
            &&& o.groups_affected + o.groups.len() == groups.len()
        }),
        ({
            let o = ToolCollapseStrategy.outcome(groups);
            &&& o.removed_tokens + sum_tokens(o.groups) == sum_tokens(groups)
            &&& o.groups_affected + o.groups.len() == groups.len()
        }),
{
    lemma_select_bounds(groups, recent(groups, n as nat, false));
    lemma_select_bounds(groups, not_repeated(groups));
}

/// Of tool calls that follow each other directly the first is kept and the others go;
/// every other group is kept. Nothing is reordered.
pub proof fn law_collapsing_keeps_the_first_call(groups: Seq<GroupModel>)
    ensures
        exists|keep: Seq<bool>|
            {
                &&& keep.len() == groups.len()
                &&& ToolCollapseStrategy.outcome(groups).groups == #[trigger] select(groups, keep)
                &&& forall|i: int|
                    0 <= i < groups.len() ==> (!(#[trigger] keep[i]) <==> {
                        &&& i > 0
                        &&& groups[i].kind == MessageGroupKind::ToolCall && !groups[i].atomic
                        &&& groups[i - 1].kind == MessageGroupKind::ToolCall && !groups[i
                            - 1].atomic
                    })
            },
{
    let keep = not_repeated(groups);
    assert(keep.len() == groups.len());
    assert(ToolCollapseStrategy.outcome(groups).groups == select(groups, keep));
}

} // verus!

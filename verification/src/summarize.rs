//! Replacing old groups by a summary, and tool calls by a placeholder.

use crate::groups::{
    empty_group, flat, message_models, models, plain_model, sum_tokens, CompactMessage,
    CompactModel, GroupModel, MessageGroup, MessageGroupKind,
};
use crate::numeral::{decimal, decimal_text};
use crate::split::{join, join_texts};
use crate::strategies::{
    candidate, cap, count, dropped, keep_marked, keeps_recent, lemma_recent_keeps,
    lemma_select_all, lemma_select_bounds, mark_recent, recent, select, unchanged,
    CompactionResult, CompactionStrategy, Outcome,
};
use crate::text::{append_chars, chars_of, lemma_texts_push, texts};
use crate::tokens::{estimate_for_text, text_tokens};
use vstd::prelude::*;
use vstd::slice::slice_subrange;
use vstd::string::*;

verus! {

broadcast use lemma_texts_push;

// ── Summaries ──────────────────────────────────────────────────────────────
/// Replaces all but the `keep_recent` most recent groups by one summary. What
/// the system says and atomic groups are left alone.
pub struct SummarizeStrategy {
    pub keep_recent: usize,
}

/// How many characters of a message a summary shows.
pub const PREVIEW_CHARS: usize = 80;

/// The beginning of a text, with an ellipsis if there is more.
pub open spec fn preview(s: Seq<char>) -> Seq<char> {
    if s.len() > PREVIEW_CHARS {
        s.take(PREVIEW_CHARS as int) + "…"@
    } else {
        s
    }
}

/// The line of a summary that stands for a message.
pub open spec fn summary_line(m: CompactModel) -> Seq<char> {
    m.role + ": "@ + preview(m.content)
}

/// The lines of a summary that stand for the messages of a group.
pub open spec fn group_lines(msgs: Seq<CompactModel>) -> Seq<Seq<char>> {
    msgs.map_values(|m: CompactModel| summary_line(m))
}

/// The lines of a summary of the groups at the places where `keep` does not
/// hold.
pub open spec fn dropped_lines(groups: Seq<GroupModel>, keep: Seq<bool>) -> Seq<Seq<char>>
    decreases groups.len(),
{
    if groups.len() == 0 {
        Seq::empty()
    } else {
        let rest = dropped_lines(groups.drop_last(), keep);
        if keep[groups.len() - 1] {
            rest
        } else {
            rest + group_lines(groups.last().messages)
        }
    }
}

/// The text of a summary of `n` groups.
pub open spec fn summary_text(n: nat, lines: Seq<Seq<char>>) -> Seq<char> {
    "[Summarised "@ + decimal(n) + " groups]\n"@ + join(lines, "\n"@)
}

/// The group that holds a summary.
pub open spec fn summary_group(text: Seq<char>) -> GroupModel {
    empty_group(MessageGroupKind::Summary).with_message(plain_model("system"@, text))
}

/// The place of the first group that is not what the system says.
pub open spec fn first_non_system(groups: Seq<GroupModel>) -> int
    decreases groups.len(),
{
    if groups.len() == 0 || !groups[0].is_system() {
        0
    } else {
        1 + first_non_system(groups.subrange(1, groups.len() as int))
    }
}

/// What summarising leaves: the summary stands after what the system says at
/// the beginning.
pub open spec fn summarised(groups: Seq<GroupModel>, keep: Seq<bool>) -> Outcome {
    let kept = select(groups, keep);
    let n = (groups.len() - kept.len()) as nat;
    let text = summary_text(n, dropped_lines(groups, keep));
    let gross = dropped(groups, kept).removed_tokens;
    Outcome {
        groups: kept.insert(first_non_system(kept), summary_group(text)),
        removed_tokens: if gross >= text_tokens(text) {
            (gross - text_tokens(text)) as nat
        } else {
            0
        },
        groups_affected: n,
    }
}

/// The line of a summary that stands for a message.
fn line_for(m: &CompactMessage) -> (r: String)
    ensures
        r@ == summary_line(m@),
{
    let content = m.content();
    let mut out = m.role().to_owned();
    out.append(": ");
    let c = chars_of(content);
    if c.len() > PREVIEW_CHARS {
        append_chars(&mut out, slice_subrange(c.as_slice(), 0, PREVIEW_CHARS));
        out.append("…");
        proof {
            assert(m@.content.subrange(0, PREVIEW_CHARS as int) =~= m@.content.take(
                PREVIEW_CHARS as int,
            ));
            assert(out@ =~= summary_line(m@));
        }
    } else {
        out.append(content);
    }
    out
}

/// Adds the lines for a group.
fn push_lines(lines: &mut Vec<String>, g: &MessageGroup)
    ensures
        texts(final(lines)@) == texts(old(lines)@) + group_lines(g@.messages),
{
    let ghost before = texts(lines@);
    let msgs = g.messages();
    let ghost all = group_lines(g@.messages);
    let mut i: usize = 0;
    while i < msgs.len()
        invariant
            i <= msgs@.len(),
            message_models(msgs@) == g@.messages,
            all == group_lines(g@.messages),
            texts(lines@) == before + all.take(i as int),
        decreases msgs@.len() - i,
    {
        let line = line_for(&msgs[i]);
        proof {
            assert(msgs@[i as int]@ == g@.messages[i as int]);
            assert(line@ == all[i as int]);
        }
        lines.push(line);
        assert(texts(lines@) =~= before + all.take(i + 1));
        i += 1;
    }
    assert(all.take(i as int) =~= all);
}

/// The place of the first group that is not what the system says.
fn place_after_system(groups: &Vec<MessageGroup>) -> (r: usize)
    ensures
        r == first_non_system(models(groups@)),
        r <= groups@.len(),
{
    let ghost all = models(groups@);
    let mut i: usize = 0;
    assert(all.subrange(0, all.len() as int) =~= all);
    while i < groups.len() && groups[i].is_system()
        invariant
            all == models(groups@),
            i <= all.len(),
            first_non_system(all) == i + first_non_system(
                all.subrange(i as int, all.len() as int),
            ),
        decreases all.len() - i,
    {
        proof {
            let part = all.subrange(i as int, all.len() as int);
            assert(part[0] == groups@[i as int]@);
            assert(part.subrange(1, part.len() as int) =~= all.subrange(i + 1, all.len() as int));
        }
        i += 1;
    }
    proof {
        let part = all.subrange(i as int, all.len() as int);
        if i < all.len() {
            assert(part[0] == groups@[i as int]@);
        }
    }
    i
}

impl CompactionStrategy for SummarizeStrategy {
    open spec fn label(&self) -> Seq<char> {
        "summarize"@
    }

    open spec fn outcome(&self, groups: Seq<GroupModel>) -> Outcome {
        let keep = recent(groups, self.keep_recent as nat, true);
        if select(groups, keep).len() == groups.len() {
            unchanged(groups)
        } else {
            summarised(groups, keep)
        }
    }

    fn name(&self) -> (r: &str) {
        "summarize"
    }

    fn compact(&self, groups: &mut Vec<MessageGroup>) -> (r: CompactionResult) {
        let marks = mark_recent(groups, self.keep_recent, true);
        let ghost before = models(groups@);
        let ghost keep = marks@;
        let mut lines: Vec<String> = Vec::new();
        let mut i: usize = 0;
        assert(before.take(0) =~= Seq::<GroupModel>::empty());
        assert(texts(lines@) =~= dropped_lines(before.take(0), keep));
        while i < groups.len()
            invariant
                before == models(groups@),
                marks@ == keep,
                keep.len() == before.len(),
                i <= before.len(),
                texts(lines@) == dropped_lines(before.take(i as int), keep),
            decreases before.len() - i,
        {
            proof {
                assert(before.take(i + 1).drop_last() =~= before.take(i as int));
                assert(before.take(i + 1).last() == groups@[i as int]@);
            }
            if !marks[i] {
                push_lines(&mut lines, &groups[i]);
            }
            i += 1;
        }
        assert(before.take(i as int) =~= before);
        let gross = keep_marked(groups, &marks);
        proof {
            lemma_select_all(before, keep);
            lemma_select_bounds(before, keep);
        }
        if gross.groups_affected == 0 {
            return CompactionResult { removed_tokens: 0, groups_affected: 0 };
        }
        let at: usize = place_after_system(groups);
        let ghost kept = models(groups@);
        let mut text = "[Summarised ".to_owned();
        let n = decimal_text(gross.groups_affected as u64);
        text.append(n.as_str());
        text.append(" groups]\n");
        let body = join_texts(lines.as_slice(), "\n");
        text.append(body.as_str());
        let cost: usize = estimate_for_text(text.as_str());
        let mut group = MessageGroup::new(MessageGroupKind::Summary);
        group.add_message(CompactMessage::new("system", text.as_str()));
        groups.insert(at, group);
        assert(models(groups@) =~= kept.insert(at as int, summary_group(text@)));
        CompactionResult {
            removed_tokens: gross.removed_tokens.saturating_sub(cost),
            groups_affected: gross.groups_affected,
        }
    }
}

// ── Patterns ───────────────────────────────────────────────────────────────
/// Shrinks a tool call between two assistant texts to a placeholder of a
/// quarter of its cost. The last `retention_window` groups that are not what
/// the system says are left alone, and so are atomic groups.
pub struct PatternCompactor {
    pub retention_window: usize,
}

/// An assistant text, a tool call that is not atomic and an assistant text
/// stand at `i`, `i + 1` and `i + 2`.
pub open spec fn pattern_at(groups: Seq<GroupModel>, i: int) -> bool {
    &&& groups[i].kind == MessageGroupKind::AssistantText
    &&& groups[i + 1].kind == MessageGroupKind::ToolCall
    &&& groups[i + 2].kind == MessageGroupKind::AssistantText
    &&& !groups[i + 1].atomic
}

/// The groups after `i` hold the retention window.
pub open spec fn before_window(groups: Seq<GroupModel>, i: int, window: nat) -> bool {
    count(groups.subrange(i + 1, groups.len() as int), candidate(false)) >= window
}

/// The placeholder for a group.
pub open spec fn placeholder(g: GroupModel) -> GroupModel {
    GroupModel {
        token_count: if g.token_count / 4 > 1 {
            g.token_count / 4
        } else {
            1
        },
        excluded: true,
        ..g
    }
}

/// What the placeholder saves.
pub open spec fn saved(g: GroupModel) -> nat {
    if g.token_count > placeholder(g).token_count {
        (g.token_count - placeholder(g).token_count) as nat
    } else {
        0
    }
}

/// The outcome of looking for patterns from `i` on.
pub open spec fn patterns_from(
    groups: Seq<GroupModel>,
    i: int,
    window: nat,
    removed: nat,
    affected: nat,
) -> Outcome
    decreases groups.len() - i,
{
    if 0 <= i && i + 2 < groups.len() {
        if pattern_at(groups, i) && before_window(groups, i + 2, window) {
            patterns_from(
                groups.update(i + 1, placeholder(groups[i + 1])),
                i + 3,
                window,
                removed + saved(groups[i + 1]),
                affected + 1,
            )
        } else {
            patterns_from(groups, i + 1, window, removed, affected)
        }
    } else {
        Outcome { groups, removed_tokens: cap(removed), groups_affected: affected }
    }
}

/// How many of the groups from `from` on are not what the system says.
fn count_non_system(groups: &Vec<MessageGroup>, from: usize) -> (r: usize)
    requires
        from <= groups@.len(),
    ensures
        r == count(
            models(groups@).subrange(from as int, groups@.len() as int),
            candidate(false),
        ),
{
    let ghost all = models(groups@);
    let len: usize = groups.len();
    let mut n: usize = 0;
    let mut i: usize = len;
    while i > from
        invariant
            all == models(groups@),
            len == all.len(),
            from <= i <= len,
            n <= len - i,
            n == count(all.subrange(i as int, len as int), candidate(false)),
        decreases i,
    {
        i -= 1;
        proof {
            assert(groups@[i as int]@ == all[i as int]);
            let part = all.subrange(i as int, len as int);
            assert(part.subrange(1, part.len() as int) =~= all.subrange(i + 1, len as int));
            assert(part[0] == all[i as int]);
        }
        if !groups[i].is_system() {
            n += 1;
        }
    }
    n
}

impl CompactionStrategy for PatternCompactor {
    open spec fn label(&self) -> Seq<char> {
        "pattern-compactor"@
    }

    open spec fn outcome(&self, groups: Seq<GroupModel>) -> Outcome {
        patterns_from(groups, 0, self.retention_window as nat, 0, 0)
    }

    fn name(&self) -> (r: &str) {
        "pattern-compactor"
    }

    fn compact(&self, groups: &mut Vec<MessageGroup>) -> (r: CompactionResult) {
        let ghost start = models(groups@);
        let ghost window = self.retention_window as nat;
        let n: usize = groups.len();
        let mut removed: usize = 0;
        let mut affected: usize = 0;
        let ghost mut sum: nat = 0;
        let mut i: usize = 0;
        while i < n && n - i > 2
            invariant
                n == groups@.len(),
                i <= n,
                affected <= i,
                window == self.retention_window,
                removed == cap(sum),
                patterns_from(models(groups@), i as int, window, sum, affected as nat)
                    == patterns_from(start, 0, window, 0, 0),
            decreases n - i,
        {
            let ghost now = models(groups@);
            proof {
                assert(now[i as int] == groups@[i as int]@);
                assert(now[i + 1] == groups@[i + 1]@);
                assert(now[i + 2] == groups@[i + 2]@);
            }
            let here = groups[i].kind() == MessageGroupKind::AssistantText && groups[i + 1].kind()
                == MessageGroupKind::ToolCall && groups[i + 2].kind()
                == MessageGroupKind::AssistantText && !groups[i + 1].is_atomic();
            if here && count_non_system(groups, i + 3) >= self.retention_window {
                let cost: usize = groups[i + 1].total_tokens();
                let small: usize = if cost / 4 > 1 {
                    cost / 4
                } else {
                    1
                };
                proof {
                    sum = sum + saved(now[i + 1]);
                }
                removed = removed.saturating_add(cost.saturating_sub(small));
                let g = &mut groups[i + 1];
                g.exclude(small);
                assert(models(groups@) =~= now.update(i + 1, placeholder(now[i + 1])));
                affected += 1;
                i += 3;
            } else {
                i += 1;
            }
        }
        CompactionResult { removed_tokens: removed, groups_affected: affected }
    }
}

// ── Laws ───────────────────────────────────────────────────────────────────
/// The line of a message in a summary: who speaks, and the text, of which no more
/// than its first characters are shown.
pub proof fn law_lines_show_who_said_what(m: CompactModel)
    ensures
        m.content.len() <= 80 ==> summary_line(m) == m.role + ": "@ + m.content,
        m.content.len() > 80 ==> summary_line(m) == m.role + ": "@ + (m.content.take(80) + "…"@),
{
}

/// Which places are not kept.
pub open spec fn others(keep: Seq<bool>) -> Seq<bool> {
    keep.map_values(|k: bool| !k)
}

proof fn lemma_dropped_lines(groups: Seq<GroupModel>, keep: Seq<bool>)
    requires
        groups.len() <= keep.len(),
    ensures
        dropped_lines(groups, keep) == flat(select(groups, others(keep))).map_values(
            |m: CompactModel| summary_line(m),
        ),
        select(groups, others(keep)).len() + select(groups, keep).len() == groups.len(),
    decreases groups.len(),
{
    let f = |m: CompactModel| summary_line(m);
    if groups.len() > 0 {
        let rest = groups.drop_last();
        lemma_dropped_lines(rest, keep);
        if !keep[groups.len() - 1] {
            let gone = select(rest, others(keep));
            assert(gone.push(groups.last()).drop_last() =~= gone);
            assert((flat(gone) + groups.last().messages).map_values(f) =~= flat(gone).map_values(f)
                + groups.last().messages.map_values(f));
        }
    } else {
        assert(dropped_lines(groups, keep) =~= flat(select(groups, others(keep))).map_values(f));
    }
}

/// A summary stands for what it replaces. The groups that are kept are the most
/// recent, what the system says and atomic ones, in their order; the summary is one
/// message of the system after what the system says at the beginning; it says how
/// many groups are gone, and has one line for each of their messages, in order, and
/// none for a message that is kept.
pub proof fn law_summaries_stand_for_what_is_gone(groups: Seq<GroupModel>, n: usize)
    ensures
        ({
            let s = SummarizeStrategy { keep_recent: n };
            let o = s.outcome(groups);
            o != unchanged(groups) ==> exists|keep: Seq<bool>, p: int|
                {
                    let kept = #[trigger] select(groups, keep);
                    let gone = select(groups, others(keep));
                    &&& keep.len() == groups.len()
                    &&& keeps_recent(groups, kept, n as nat, true)
                    &&& 0 <= p <= kept.len()
                    &&& #[trigger] o.groups.remove(p) == kept
                    &&& forall|i: int|
                        0 <= i < p ==> (#[trigger] kept[i]).kind == MessageGroupKind::System
                    &&& p < kept.len() ==> kept[p].kind != MessageGroupKind::System
                    &&& o.groups.len() == kept.len() + 1
                    &&& o.groups[p].kind == MessageGroupKind::Summary
                    &&& o.groups[p].messages.len() == 1
                    &&& o.groups[p].messages[0].role == "system"@
                    &&& o.groups[p].messages[0].content == "[Summarised "@ + decimal(gone.len())
                        + " groups]\n"@ + join(
                        flat(gone).map_values(|m: CompactModel| summary_line(m)),
                        "\n"@,
                    )
                    &&& o.groups_affected == gone.len()
                    &&& gone.len() + kept.len() == groups.len()
                }
        }),
        ({
            let o = SummarizeStrategy { keep_recent: n }.outcome(groups);
            o == unchanged(groups) ==> keeps_recent(groups, groups, n as nat, true)
        }),
{
    let keep = recent(groups, n as nat, true);
    let kept = select(groups, keep);
    let gone = select(groups, others(keep));
    let o = SummarizeStrategy { keep_recent: n }.outcome(groups);
    lemma_recent_keeps(groups, n as nat, true);
    lemma_dropped_lines(groups, keep);
    lemma_select_all(groups, keep);
    lemma_first_non_system(kept);
    let p = first_non_system(kept);
    if kept.len() != groups.len() {
        let text = summary_text(gone.len(), dropped_lines(groups, keep));
        assert(o.groups =~= kept.insert(p, summary_group(text)));
        assert(o.groups.remove(p) =~= kept);
        assert(o.groups[p] == summary_group(text));
        assert(o.groups.len() == kept.len() + 1);
        assert(o.groups_affected > 0);
    }
}

proof fn lemma_first_non_system(groups: Seq<GroupModel>)
    ensures
        0 <= first_non_system(groups) <= groups.len(),
        forall|i: int|
            0 <= i < first_non_system(groups) ==> (#[trigger] groups[i]).kind
                == MessageGroupKind::System,
        first_non_system(groups) < groups.len() ==> groups[first_non_system(groups)].kind
            != MessageGroupKind::System,
    decreases groups.len(),
{
    if groups.len() > 0 && groups[0].is_system() {
        let rest = groups.subrange(1, groups.len() as int);
        lemma_first_non_system(rest);
        assert forall|i: int| 0 <= i < first_non_system(groups) implies (#[trigger] groups[i]).kind
            == MessageGroupKind::System by {
            if i > 0 {
                assert(rest[i - 1] == groups[i]);
            }
        }
    }
}

/// A summary reports what it saves: what the groups that are gone cost, less what
/// the summary costs.
pub proof fn law_summaries_are_accounted_for(groups: Seq<GroupModel>, n: usize)
    requires
        sum_tokens(groups) <= usize::MAX,
    ensures
        ({
            let o = SummarizeStrategy { keep_recent: n }.outcome(groups);
            &&& sum_tokens(o.groups) <= sum_tokens(groups) ==> o.removed_tokens + sum_tokens(
                o.groups,
            ) == sum_tokens(groups)
            &&& sum_tokens(o.groups) > sum_tokens(groups) ==> o.removed_tokens == 0
        }),
{
    let keep = recent(groups, n as nat, true);
    let kept = select(groups, keep);
    lemma_select_bounds(groups, keep);
    lemma_first_non_system(kept);
    let p = first_non_system(kept);
    if kept.len() != groups.len() {
        let m = (groups.len() - kept.len()) as nat;
        let g = summary_group(summary_text(m, dropped_lines(groups, keep)));
        lemma_sum_insert(kept, p, g);
    }
}

proof fn lemma_sum_insert(groups: Seq<GroupModel>, p: int, g: GroupModel)
    requires
        0 <= p <= groups.len(),
    ensures
        sum_tokens(groups.insert(p, g)) == sum_tokens(groups) + g.token_count,
    decreases groups.len(),
{
    if p == groups.len() {
        assert(groups.insert(p, g) =~= groups.push(g));
        assert(groups.push(g).drop_last() =~= groups);
    } else {
        lemma_sum_insert(groups.drop_last(), p, g);
        assert(groups.insert(p, g).drop_last() =~= groups.drop_last().insert(p, g));
        assert(groups.insert(p, g).last() == groups.last());
    }
}

} // verus!

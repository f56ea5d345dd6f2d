//! The context of a conversation: what fills it, what is pinned in it, and how
//! it is made shorter.

use crate::clock::{present, Timestamp};
use crate::context::{
    estimate_tokens, fill_of, zone_at, CompactionStrategy, ContextBreakdown, ContextZone,
    Percentage,
};
use crate::message::{plain_message, Message, MessageModel};
use crate::numeral::{byte_count, byte_len, decimal, decimal_text};
use crate::text::{chars_of, contains_text, lemma_contains_part, same_text, text_of};
use crate::tokens::text_tokens_u32;
use vstd::prelude::*;
use vstd::string::*;

verus! {

/// A text that stays in the context when the conversation is made shorter.
#[derive(Debug, Clone)]
pub struct PinnedContext {
    pub label: String,
    pub content: String,
    pub tokens: u32,
    pub pinned_at: Timestamp,
}

/// A pinned text.
pub struct PinModel {
    pub label: Seq<char>,
    pub content: Seq<char>,
    pub tokens: u32,
    pub pinned_at: Timestamp,
}

impl View for PinnedContext {
    type V = PinModel;

    open spec fn view(&self) -> PinModel {
        PinModel {
            label: self.label@,
            content: self.content@,
            tokens: self.tokens,
            pinned_at: self.pinned_at,
        }
    }
}

/// The pinned texts.
pub open spec fn pin_models(v: Seq<PinnedContext>) -> Seq<PinModel> {
    v.map_values(|p: PinnedContext| p@)
}

/// The pins but those with a label.
pub open spec fn without(pins: Seq<PinModel>, label: Seq<char>) -> Seq<PinModel>
    decreases pins.len(),
{
    if pins.len() == 0 {
        Seq::empty()
    } else if pins.last().label == label {
        without(pins.drop_last(), label)
    } else {
        without(pins.drop_last(), label).push(pins.last())
    }
}

/// A pin with a label.
pub open spec fn is_pinned(pins: Seq<PinModel>, label: Seq<char>) -> bool {
    exists|i: int| 0 <= i < pins.len() && (#[trigger] pins[i]).label == label
}

/// No two pins have one label.
pub open spec fn labels_differ(pins: Seq<PinModel>) -> bool {
    forall|i: int, j: int|
        0 <= i < j < pins.len() ==> (#[trigger] pins[i]).label != (#[trigger] pins[j]).label
}

/// What is left without a label is what had another one.
pub proof fn lemma_without(pins: Seq<PinModel>, label: Seq<char>)
    ensures
        without(pins, label).len() <= pins.len(),
        without(pins, label).len() < pins.len() <==> is_pinned(pins, label),
        !is_pinned(without(pins, label), label),
        forall|i: int|
            0 <= i < without(pins, label).len() ==> pins.contains(
                #[trigger] without(pins, label)[i],
            ),
    decreases pins.len(),
{
    if pins.len() > 0 {
        let rest = pins.drop_last();
        let kept = without(rest, label);
        lemma_without(rest, label);
        assert forall|i: int| 0 <= i < kept.len() implies pins.contains(#[trigger] kept[i]) by {
            let j = choose|j: int| 0 <= j < rest.len() && rest[j] == kept[i];
            assert(pins[j] == kept[i]);
        }
        if is_pinned(rest, label) {
            let i = choose|i: int| 0 <= i < rest.len() && (#[trigger] rest[i]).label == label;
            assert(pins[i].label == label);
        }
        if is_pinned(pins, label) && pins.last().label != label {
            let i = choose|i: int| 0 <= i < pins.len() && (#[trigger] pins[i]).label == label;
            assert(rest[i].label == label);
        }
        if pins.last().label == label {
            assert(pins[pins.len() - 1].label == label);
        } else {
            assert(pins.contains(pins[pins.len() - 1]));
            assert forall|i: int| 0 <= i < kept.push(pins.last()).len() implies pins.contains(
                #[trigger] kept.push(pins.last())[i],
            ) by {
                if i < kept.len() {
                    assert(kept.push(pins.last())[i] == kept[i]);
                }
            }
            assert forall|i: int| 0 <= i < kept.push(pins.last()).len() implies (
            #[trigger] kept.push(pins.last())[i]).label != label by {
                if i < kept.len() {
                    assert(kept.push(pins.last())[i] == kept[i]);
                }
            }
        }
    }
}

proof fn lemma_without_differ(pins: Seq<PinModel>, label: Seq<char>)
    requires
        labels_differ(pins),
    ensures
        labels_differ(without(pins, label)),
    decreases pins.len(),
{
    if pins.len() > 0 {
        let rest = pins.drop_last();
        let kept = without(rest, label);
        assert forall|i: int, j: int| 0 <= i < j < rest.len() implies (#[trigger] rest[i]).label
            != (#[trigger] rest[j]).label by {
            assert(pins[i].label != pins[j].label);
        }
        lemma_without_differ(rest, label);
        lemma_without(rest, label);
        if pins.last().label != label {
            let all = kept.push(pins.last());
            assert forall|i: int, j: int| 0 <= i < j < all.len() implies (#[trigger] all[i]).label
                != (#[trigger] all[j]).label by {
                assert(all[i] == kept[i]);
                if j < kept.len() {
                    assert(all[j] == kept[j]);
                } else {
                    let k = choose|k: int| 0 <= k < rest.len() && rest[k] == kept[i];
                    assert(pins[k].label != pins[pins.len() - 1].label);
                }
            }
        }
    }
}

/// To pin a text under a label replaces what was pinned under it: if no two
/// pins had one label, no two have one after it, nor after a label is unpinned.
pub proof fn law_labels_stay_different(pins: Seq<PinModel>, p: PinModel)
    requires
        labels_differ(pins),
    ensures
        labels_differ(without(pins, p.label).push(p)),
        labels_differ(without(pins, p.label)),
{
    lemma_without_differ(pins, p.label);
    lemma_without(pins, p.label);
    let kept = without(pins, p.label);
    let all = kept.push(p);
    assert forall|i: int, j: int| 0 <= i < j < all.len() implies (#[trigger] all[i]).label != (
    #[trigger] all[j]).label by {
        assert(all[i] == kept[i]);
        if j < kept.len() {
            assert(all[j] == kept[j]);
        }
    }
}

/// What the first `n` pins cost.
pub open spec fn pin_cost(pins: Seq<PinModel>, n: nat) -> nat
    decreases n,
{
    if n == 0 {
        0
    } else {
        pin_cost(pins, (n - 1) as nat) + pins[n - 1].tokens as nat
    }
}

proof fn lemma_pin_cost(pins: Seq<PinModel>, n: nat, m: nat)
    requires
        n <= m,
    ensures
        pin_cost(pins, n) <= pin_cost(pins, m),
    decreases m,
{
    if n < m {
        lemma_pin_cost(pins, n, (m - 1) as nat);
    }
}

// ── Messages ───────────────────────────────────────────────────────────────
/// The messages.
pub open spec fn message_models(v: Seq<Message>) -> Seq<MessageModel> {
    v.map_values(|m: Message| m@)
}

/// What a message counts as.
#[derive(PartialEq, Eq, Structural, Clone, Copy)]
pub enum ContextPart {
    Project,
    ToolResults,
    Conversation,
}

/// What a message of a role counts as.
pub open spec fn part_of(role: Seq<char>) -> ContextPart {
    if role == "system"@ {
        ContextPart::Project
    } else if role == "tool"@ {
        ContextPart::ToolResults
    } else {
        ContextPart::Conversation
    }
}

/// What the first `n` messages cost that count as `part`.
pub open spec fn part_cost(msgs: Seq<MessageModel>, part: ContextPart, n: nat) -> nat
    decreases n,
{
    if n == 0 {
        0
    } else {
        let before = part_cost(msgs, part, (n - 1) as nat);
        if part_of(msgs[n - 1].role) == part {
            before + text_tokens_u32(msgs[n - 1].content)
        } else {
            before
        }
    }
}

proof fn lemma_part_cost(msgs: Seq<MessageModel>, part: ContextPart, n: nat, m: nat)
    requires
        n <= m,
    ensures
        part_cost(msgs, part, n) <= part_cost(msgs, part, m),
    decreases m,
{
    if n < m {
        lemma_part_cost(msgs, part, n, (m - 1) as nat);
    }
}

/// How many bytes the first `n` messages hold.
pub open spec fn content_bytes(msgs: Seq<MessageModel>, n: nat) -> nat
    decreases n,
{
    if n == 0 {
        0
    } else {
        content_bytes(msgs, (n - 1) as nat) + byte_len(msgs[n - 1].content)
    }
}

proof fn lemma_content_bytes(msgs: Seq<MessageModel>, n: nat, m: nat)
    requires
        n <= m,
    ensures
        content_bytes(msgs, n) <= content_bytes(msgs, m),
    decreases m,
{
    if n < m {
        lemma_content_bytes(msgs, n, (m - 1) as nat);
    }
}

proof fn lemma_content_bytes_prefix(msgs: Seq<MessageModel>, k: int, n: nat)
    requires
        n <= k <= msgs.len(),
    ensures
        content_bytes(msgs.take(k), n) == content_bytes(msgs, n),
    decreases n,
{
    if n > 0 {
        lemma_content_bytes_prefix(msgs, k, (n - 1) as nat);
        assert(msgs.take(k)[n - 1] == msgs[n - 1]);
    }
}

/// A text of at most `n` characters, and an ellipsis if it was longer.
pub open spec fn preview(s: Seq<char>, n: nat) -> Seq<char> {
    if s.len() <= n {
        s
    } else {
        s.take(n as int).push('…')
    }
}

/// A text of at most `max_len` characters, and an ellipsis if it was longer.
pub fn truncate_str(s: &str, max_len: usize) -> (r: String)
    ensures
        r@ == preview(s@, max_len as nat),
{
    let chars = chars_of(s);
    if chars.len() <= max_len {
        return s.to_owned();
    }
    let mut r = text_of(vstd::slice::slice_subrange(chars.as_slice(), 0, max_len));
    assert(s@.subrange(0, max_len as int) =~= s@.take(max_len as int));
    r.push('…');
    r
}

/// The line of a summary on one message.
pub open spec fn anchor(name: Seq<char>, m: MessageModel) -> Seq<char> {
    name + " ("@ + m.role + "): "@ + preview(m.content, 200) + "\n"@
}

/// What a summary says of messages: how many there are, how long they are, and
/// how the first and the last one begin.
pub open spec fn summary_of(msgs: Seq<MessageModel>) -> Seq<char> {
    let head = "[Compacted conversation summary]\n("@ + decimal(msgs.len()) + " messages, ~"@
        + decimal(content_bytes(msgs, msgs.len())) + " chars compacted)\n\n"@;
    let first = if msgs.len() > 0 {
        head + anchor("First"@, msgs[0])
    } else {
        head
    };
    if msgs.len() > 1 {
        first + anchor("Last"@, msgs.last())
    } else {
        first
    }
}

/// The messages that fit a budget, taken from the last one back.
pub open spec fn latest_fitting(msgs: Seq<MessageModel>, budget: nat) -> Seq<MessageModel>
    decreases msgs.len(),
{
    if msgs.len() == 0 {
        Seq::empty()
    } else {
        let cost = text_tokens_u32(msgs.last().content);
        if cost <= budget {
            latest_fitting(msgs.drop_last(), (budget - cost) as nat).push(msgs.last())
        } else {
            latest_fitting(msgs.drop_last(), budget)
        }
    }
}

/// What the contents of messages cost.
pub open spec fn messages_cost(msgs: Seq<MessageModel>) -> nat
    decreases msgs.len(),
{
    if msgs.len() == 0 {
        0
    } else {
        messages_cost(msgs.drop_last()) + text_tokens_u32(msgs.last().content)
    }
}

/// What is kept of messages for a budget costs no more than the budget.
pub proof fn law_kept_messages_fit(msgs: Seq<MessageModel>, budget: nat)
    ensures
        messages_cost(latest_fitting(msgs, budget)) <= budget,
    decreases msgs.len(),
{
    if msgs.len() > 0 {
        let cost = text_tokens_u32(msgs.last().content);
        if cost <= budget {
            let kept = latest_fitting(msgs.drop_last(), (budget - cost) as nat);
            law_kept_messages_fit(msgs.drop_last(), (budget - cost) as nat);
            assert(kept.push(msgs.last()).drop_last() =~= kept);
        } else {
            law_kept_messages_fit(msgs.drop_last(), budget);
        }
    }
}

/// The smaller number.
pub open spec fn at_most(n: nat, limit: nat) -> nat {
    if n <= limit {
        n
    } else {
        limit
    }
}

/// A summary of messages in place of them.
pub open spec fn summary_message(msgs: Seq<MessageModel>) -> MessageModel {
    plain_message("system"@, summary_of(msgs))
}

/// What a strategy makes of messages.
pub open spec fn compacted(msgs: Seq<MessageModel>, strategy: CompactionStrategy) -> Seq<
    MessageModel,
> {
    let total = msgs.len();
    if total == 0 {
        Seq::empty()
    } else {
        match strategy {
            CompactionStrategy::Summarize { preserve_last_n } => {
                let old = (total - at_most(preserve_last_n as nat, total)) as nat;
                if old == 0 {
                    msgs
                } else {
                    seq![summary_message(msgs.take(old as int))] + msgs.skip(old as int)
                }
            },
            CompactionStrategy::Truncate { keep_last_n } => msgs.skip(
                total - at_most(keep_last_n as nat, total),
            ),
            CompactionStrategy::Hybrid { summarize_before, keep_verbatim } => {
                let verbatim = at_most(keep_verbatim as nat, total);
                let old = at_most(summarize_before as nat, (total - verbatim) as nat);
                if old == 0 {
                    msgs.skip(total - verbatim)
                } else {
                    seq![summary_message(msgs.take(old as int))] + msgs.skip(total - verbatim)
                }
            },
            CompactionStrategy::Smart { budget_tokens } => {
                let kept = latest_fitting(msgs, budget_tokens as nat);
                if kept.len() == 0 {
                    seq![msgs.last()]
                } else {
                    kept
                }
            },
        }
    }
}

fn copy_from(messages: &[Message], from: usize) -> (r: Vec<Message>)
    requires
        from <= messages@.len(),
    ensures
        message_models(r@) == message_models(messages@).skip(from as int),
{
    let ghost all = message_models(messages@);
    let mut out: Vec<Message> = Vec::new();
    let mut i: usize = from;
    assert(message_models(out@) =~= all.subrange(from as int, from as int));
    while i < messages.len()
        invariant
            from <= i <= messages@.len(),
            all == message_models(messages@),
            message_models(out@) == all.subrange(from as int, i as int),
        decreases messages@.len() - i,
    {
        let ghost before = message_models(out@);
        out.push(messages[i].clone());
        assert(message_models(out@) =~= before.push(all[i as int]));
        assert(message_models(out@) =~= all.subrange(from as int, i + 1));
        i += 1;
    }
    assert(message_models(out@) =~= all.skip(from as int));
    out
}

fn append_anchor(out: &mut String, name: &str, m: &Message)
    ensures
        final(out)@ == old(out)@ + anchor(name@, m@),
{
    let ghost start = out@;
    let text = truncate_str(m.content.as_str(), 200);
    let mut line = name.to_owned();
    line.append(" (");
    line.append(m.role.as_str());
    line.append("): ");
    line.append(text.as_str());
    line.append("\n");
    out.append(line.as_str());
    assert(out@ =~= start + anchor(name@, m@));
}

fn build_summary(messages: &[Message], count: usize) -> (r: Message)
    requires
        count <= messages@.len(),
        content_bytes(message_models(messages@), messages@.len()) <= usize::MAX,
    ensures
        r@ == summary_message(message_models(messages@).take(count as int)),
{
    let ghost all = message_models(messages@);
    let ghost part = all.take(count as int);
    let mut bytes: usize = 0;
    let mut i: usize = 0;
    while i < count
        invariant
            i <= count <= messages@.len(),
            all == message_models(messages@),
            bytes == content_bytes(all, i as nat),
            content_bytes(all, messages@.len()) <= usize::MAX,
        decreases count - i,
    {
        proof {
            lemma_content_bytes(all, (i + 1) as nat, messages@.len());
            assert(all[i as int] == messages@[i as int]@);
        }
        bytes += byte_count(messages[i].content.as_str());
        i += 1;
    }
    proof {
        lemma_content_bytes_prefix(all, count as int, count as nat);
    }
    let mut summary = "[Compacted conversation summary]\n(".to_owned();
    let number = decimal_text(count as u64);
    summary.append(number.as_str());
    summary.append(" messages, ~");
    let length = decimal_text(bytes as u64);
    summary.append(length.as_str());
    summary.append(" chars compacted)\n\n");
    if count > 0 {
        assert(part[0] == messages@[0]@);
        append_anchor(&mut summary, "First", &messages[0]);
    }
    if count > 1 {
        assert(part.last() == messages@[count - 1]@);
        append_anchor(&mut summary, "Last", &messages[count - 1]);
    }
    Message::system(summary.as_str())
}

fn with_summary(messages: &[Message], old: usize, from: usize) -> (r: Vec<Message>)
    requires
        old <= messages@.len(),
        from <= messages@.len(),
        content_bytes(message_models(messages@), messages@.len()) <= usize::MAX,
    ensures
        message_models(r@) == seq![summary_message(message_models(messages@).take(old as int))]
            + message_models(messages@).skip(from as int),
{
    let first = build_summary(messages, old);
    let mut rest = copy_from(messages, from);
    let ghost kept = message_models(rest@);
    let ghost head = first@;
    rest.insert(0, first);
    assert(message_models(rest@) =~= seq![head] + kept);
    rest
}

fn keep_fitting(messages: &[Message], budget: u32) -> (r: Vec<Message>)
    ensures
        message_models(r@) == latest_fitting(message_models(messages@), budget as nat),
{
    let ghost all = message_models(messages@);
    let mut left: u32 = budget;
    let mut picked: Vec<usize> = Vec::new();
    let mut i: usize = messages.len();
    let ghost mut kept = Seq::<MessageModel>::empty();
    assert(all.take(i as int) =~= all);
    assert(latest_fitting(all, budget as nat) + kept =~= latest_fitting(all, budget as nat));
    while i > 0
        invariant
            i <= messages@.len(),
            all == message_models(messages@),
            latest_fitting(all.take(i as int), left as nat) + kept == latest_fitting(
                all,
                budget as nat,
            ),
            kept.len() == picked@.len(),
            forall|k: int|
                0 <= k < picked@.len() ==> (#[trigger] picked@[k]) < messages@.len()
                    && all[picked@[k] as int] == kept[kept.len() - 1 - k],
        decreases i,
    {
        i -= 1;
        let tokens: u32 = estimate_tokens(messages[i].content.as_str());
        proof {
            assert(all.take(i + 1).drop_last() =~= all.take(i as int));
            assert(all.take(i + 1).last() == messages@[i as int]@);
        }
        if tokens <= left {
            left -= tokens;
            let ghost before = kept;
            let ghost front = latest_fitting(all.take(i as int), left as nat);
            proof {
                kept = seq![all[i as int]] + before;
                assert(front.push(all[i as int]) + before =~= front + kept);
            }
            picked.push(i);
            assert forall|k: int| 0 <= k < picked@.len() implies (#[trigger] picked@[k])
                < messages@.len() && all[picked@[k] as int] == kept[kept.len() - 1 - k] by {
                if k < before.len() {
                    assert(kept[kept.len() - 1 - k] == before[before.len() - 1 - k]);
                }
            }
        }
    }
    assert(latest_fitting(all.take(0), left as nat) + kept =~= kept);
    let mut out: Vec<Message> = Vec::new();
    let mut n: usize = picked.len();
    assert(message_models(out@) =~= kept.take(0));
    while n > 0
        invariant
            n <= picked@.len(),
            all == message_models(messages@),
            kept.len() == picked@.len(),
            forall|k: int|
                0 <= k < picked@.len() ==> (#[trigger] picked@[k]) < messages@.len()
                    && all[picked@[k] as int] == kept[kept.len() - 1 - k],
            message_models(out@) == kept.take(picked@.len() - n),
        decreases n,
    {
        n -= 1;
        let ghost before = message_models(out@);
        let at: usize = picked[n];
        out.push(messages[at].clone());
        proof {
            assert(all[at as int] == kept[kept.len() - 1 - n]);
            assert(message_models(out@) =~= before.push(all[at as int]));
            assert(message_models(out@) =~= kept.take(picked@.len() - n));
        }
    }
    assert(kept.take(kept.len() as int) =~= kept);
    out
}

fn smaller(a: usize, b: usize) -> (r: usize)
    ensures
        r == at_most(a as nat, b as nat),
{
    if a <= b {
        a
    } else {
        b
    }
}

// ── The manager ────────────────────────────────────────────────────────────
/// The context of a conversation.
pub struct ManagerModel {
    pub limit: u32,
    pub strategy: CompactionStrategy,
    pub pins: Seq<PinModel>,
    pub threshold: Percentage,
}

/// The context of a conversation. From `auto_compact_threshold` percent on it
/// is made shorter by itself.
#[derive(Debug)]
pub struct ContextManager {
    limit: u32,
    strategy: CompactionStrategy,
    pinned: Vec<PinnedContext>,
    auto_compact_threshold: Percentage,
}

impl View for ContextManager {
    type V = ManagerModel;

    closed spec fn view(&self) -> ManagerModel {
        ManagerModel {
            limit: self.limit,
            strategy: self.strategy,
            pins: pin_models(self.pinned@),
            threshold: self.auto_compact_threshold,
        }
    }
}

/// The threshold as it is used: between 50 and 99 percent.
pub open spec fn clamped(t: Percentage) -> Percentage {
    if t.part < 50 * t.whole {
        Percentage { part: 50, whole: 1 }
    } else if t.part > 99 * t.whole {
        Percentage { part: 99, whole: 1 }
    } else {
        t
    }
}

/// The threshold is reached.
pub open spec fn reaches(fill: Percentage, threshold: Percentage) -> bool {
    fill.part * threshold.whole >= threshold.part * fill.whole
}

/// What takes how many tokens, of messages with a system prompt, tools and
/// pins.
pub open spec fn breakdown_of(
    m: ManagerModel,
    msgs: Seq<MessageModel>,
    prompt: Seq<char>,
    schemas: Seq<char>,
) -> (nat, nat, nat, nat, nat, nat) {
    (
        text_tokens_u32(prompt),
        text_tokens_u32(schemas),
        part_cost(msgs, ContextPart::Project, msgs.len()),
        part_cost(msgs, ContextPart::Conversation, msgs.len()),
        part_cost(msgs, ContextPart::ToolResults, msgs.len()),
        pin_cost(m.pins, m.pins.len()),
    )
}

/// All of it together.
pub open spec fn total_of(b: (nat, nat, nat, nat, nat, nat)) -> nat {
    b.0 + b.1 + b.2 + b.3 + b.4 + b.5
}

impl ContextManager {
    /// The context of a model that takes so many tokens.
    pub fn new(context_limit: u32) -> (r: ContextManager)
        ensures
            r@.limit == context_limit,
            r@.strategy == (CompactionStrategy::Hybrid { summarize_before: 10, keep_verbatim: 5 }),
            r@.pins.len() == 0,
            r@.threshold == (Percentage { part: 85, whole: 1 }),
    {
        ContextManager {
            limit: context_limit,
            strategy: CompactionStrategy::Hybrid { summarize_before: 10, keep_verbatim: 5 },
            pinned: Vec::new(),
            auto_compact_threshold: Percentage { part: 85, whole: 1 },
        }
    }

    /// The same with another strategy.
    pub fn with_strategy(self, strategy: CompactionStrategy) -> (r: ContextManager)
        ensures
            r@ == (ManagerModel { strategy, ..self@ }),
    {
        let mut r = self;
        r.strategy = strategy;
        r
    }

    /// The same with another threshold.
    pub fn with_auto_compact_threshold(self, threshold: Percentage) -> (r: ContextManager)
        requires
            threshold.whole > 0,
        ensures
            r@ == (ManagerModel { threshold: clamped(threshold), ..self@ }),
    {
        let mut r = self;
        let part: u128 = threshold.part as u128;
        let whole: u128 = threshold.whole as u128;
        r.auto_compact_threshold = if part < 50 * whole {
            Percentage { part: 50, whole: 1 }
        } else if part > 99 * whole {
            Percentage { part: 99, whole: 1 }
        } else {
            threshold
        };
        r
    }

    /// How many tokens the model takes.
    pub fn limit(&self) -> (r: u32)
        ensures
            r == self@.limit,
    {
        self.limit
    }

    /// How the conversation is made shorter.
    pub fn strategy(&self) -> (r: &CompactionStrategy)
        ensures
            *r == self@.strategy,
    {
        &self.strategy
    }

    /// Sets how the conversation is made shorter.
    pub fn set_strategy(&mut self, strategy: CompactionStrategy)
        ensures
            final(self)@ == (ManagerModel { strategy, ..old(self)@ }),
    {
        self.strategy = strategy;
    }

    /// What takes how many tokens.
    pub fn get_breakdown(
        &self,
        messages: &[Message],
        system_prompt: &str,
        tool_schemas_json: &str,
    ) -> (r: ContextBreakdown)
        requires
            total_of(
                breakdown_of(
                    self@,
                    message_models(messages@),
                    system_prompt@,
                    tool_schemas_json@,
                ),
            ) <= u32::MAX,
        ensures
            ({
                let b = breakdown_of(
                    self@,
                    message_models(messages@),
                    system_prompt@,
                    tool_schemas_json@,
                );
                let fill = fill_of(r.total_tokens, self@.limit);
                &&& r.system_prompt_tokens == b.0
                &&& r.tool_schemas_tokens == b.1
                &&& r.project_context_tokens == b.2
                &&& r.conversation_tokens == b.3
                &&& r.tool_results_tokens == b.4
                &&& r.pinned_context_tokens == b.5
                &&& r.total_tokens == total_of(b)
                &&& r.context_limit == self@.limit
                &&& r.zone == zone_at(fill.part as int, fill.whole as int)
            }),
    {
        let ghost all = message_models(messages@);
        let system_prompt_tokens: u32 = estimate_tokens(system_prompt);
        let tool_schemas_tokens: u32 = estimate_tokens(tool_schemas_json);
        let pinned_context_tokens: u32 = self.pinned_tokens();
        let mut project_context_tokens: u32 = 0;
        let mut conversation_tokens: u32 = 0;
        let mut tool_results_tokens: u32 = 0;
        let mut i: usize = 0;
        while i < messages.len()
            invariant
                i <= messages@.len(),
                all == message_models(messages@),
                project_context_tokens == part_cost(all, ContextPart::Project, i as nat),
                conversation_tokens == part_cost(all, ContextPart::Conversation, i as nat),
                tool_results_tokens == part_cost(all, ContextPart::ToolResults, i as nat),
                part_cost(all, ContextPart::Project, messages@.len()) <= u32::MAX,
                part_cost(all, ContextPart::Conversation, messages@.len()) <= u32::MAX,
                part_cost(all, ContextPart::ToolResults, messages@.len()) <= u32::MAX,
            decreases messages@.len() - i,
        {
            proof {
                assert(all[i as int] == messages@[i as int]@);
                lemma_part_cost(all, ContextPart::Project, (i + 1) as nat, messages@.len());
                lemma_part_cost(all, ContextPart::Conversation, (i + 1) as nat, messages@.len());
                lemma_part_cost(all, ContextPart::ToolResults, (i + 1) as nat, messages@.len());
            }
            let tokens: u32 = estimate_tokens(messages[i].content.as_str());
            let role = messages[i].role.as_str();
            if same_text(role, "system") {
                project_context_tokens += tokens;
            } else if same_text(role, "tool") {
                tool_results_tokens += tokens;
            } else {
                conversation_tokens += tokens;
            }
            i += 1;
        }
        let total_tokens: u32 = system_prompt_tokens + tool_schemas_tokens
            + project_context_tokens + conversation_tokens + tool_results_tokens
            + pinned_context_tokens;
        let mut b = ContextBreakdown {
            system_prompt_tokens,
            tool_schemas_tokens,
            project_context_tokens,
            conversation_tokens,
            tool_results_tokens,
            pinned_context_tokens,
            total_tokens,
            context_limit: self.limit,
            zone: ContextZone::Green,
        };
        b.zone = ContextZone::from_percentage(b.fill_percentage());
        b
    }

    /// Whether the conversation should be made shorter: from the orange zone
    /// on.
    pub fn should_compact(&self, breakdown: &ContextBreakdown) -> (r: bool)
        ensures
            r == ({
                let fill = fill_of(breakdown.total_tokens, breakdown.context_limit);
                fill.part >= 70 * fill.whole
            }),
    {
        match ContextZone::from_percentage(breakdown.fill_percentage()) {
            ContextZone::Orange => true,
            ContextZone::Red => true,
            ContextZone::Critical => true,
            ContextZone::Yellow => false,
            ContextZone::Green => false,
        }
    }

    /// What a strategy makes of messages.
    pub fn compact(&self, messages: &[Message], strategy: &CompactionStrategy) -> (r: Vec<Message>)
        requires
            content_bytes(message_models(messages@), messages@.len()) <= usize::MAX,
        ensures
            message_models(r@) == compacted(message_models(messages@), *strategy),
    {
        let ghost all = message_models(messages@);
        let total: usize = messages.len();
        if total == 0 {
            let none: Vec<Message> = Vec::new();
            assert(message_models(none@) =~= Seq::empty());
            return none;
        }
        match strategy {
            CompactionStrategy::Summarize { preserve_last_n } => {
                let old: usize = total - smaller(*preserve_last_n, total);
                if old == 0 {
                    assert(all.skip(0) =~= all);
                    copy_from(messages, 0)
                } else {
                    with_summary(messages, old, old)
                }
            },
            CompactionStrategy::Truncate { keep_last_n } => copy_from(
                messages,
                total - smaller(*keep_last_n, total),
            ),
            CompactionStrategy::Hybrid { summarize_before, keep_verbatim } => {
                let verbatim: usize = smaller(*keep_verbatim, total);
                let old: usize = smaller(*summarize_before, total - verbatim);
                if old == 0 {
                    copy_from(messages, total - verbatim)
                } else {
                    with_summary(messages, old, total - verbatim)
                }
            },
            CompactionStrategy::Smart { budget_tokens } => {
                let kept = keep_fitting(messages, *budget_tokens);
                if kept.len() == 0 {
                    assert(all.skip(total - 1) =~= seq![all.last()]);
                    copy_from(messages, total - 1)
                } else {
                    kept
                }
            },
        }
    }

    /// What is left of the messages if they fill the context too much.
    pub fn auto_compact_if_needed(
        &self,
        messages: &[Message],
        system_prompt: &str,
        tool_schemas_json: &str,
    ) -> (r: Option<Vec<Message>>)
        requires
            total_of(
                breakdown_of(
                    self@,
                    message_models(messages@),
                    system_prompt@,
                    tool_schemas_json@,
                ),
            ) <= u32::MAX,
            content_bytes(message_models(messages@), messages@.len()) <= usize::MAX,
        ensures
            ({
                let total = total_of(
                    breakdown_of(
                        self@,
                        message_models(messages@),
                        system_prompt@,
                        tool_schemas_json@,
                    ),
                );
                match r {
                    Some(v) => reaches(fill_of(total as u32, self@.limit), self@.threshold)
                        && message_models(v@) == compacted(
                        message_models(messages@),
                        self@.strategy,
                    ),
                    None => !reaches(fill_of(total as u32, self@.limit), self@.threshold),
                }
            }),
    {
        let b = self.get_breakdown(messages, system_prompt, tool_schemas_json);
        let f = b.fill_percentage();
        let t = self.auto_compact_threshold;
        proof {
            assert(f.part * t.whole <= u64::MAX * u64::MAX) by (nonlinear_arith)
                requires
                    f.part <= u64::MAX,
                    t.whole <= u64::MAX,
            ;
            assert(t.part * f.whole <= u64::MAX * u64::MAX) by (nonlinear_arith)
                requires
                    f.whole <= u64::MAX,
                    t.part <= u64::MAX,
            ;
        }
        if (f.part as u128) * (t.whole as u128) >= (t.part as u128) * (f.whole as u128) {
            Some(self.compact(messages, &self.strategy))
        } else {
            None
        }
    }

    /// Pins a text under a label, in place of what was pinned under it. When
    /// it is pinned is up to the clock.
    pub fn pin(&mut self, label: &str, content: &str)
        ensures
            ({
                let kept = without(old(self)@.pins, label@);
                &&& final(self)@.pins.len() == kept.len() + 1
                &&& final(self)@.pins.last() == (PinModel {
                    label: label@,
                    content: content@,
                    tokens: text_tokens_u32(content@) as u32,
                    pinned_at: final(self)@.pins.last().pinned_at,
                })
                &&& final(self)@ == (ManagerModel {
                    pins: kept.push(final(self)@.pins.last()),
                    ..old(self)@
                })
            }),
    {
        let at = present();
        self.pin_at(label, content, at);
    }

    /// Pins a text under a label at a time, in place of what was pinned under
    /// it.
    pub fn pin_at(&mut self, label: &str, content: &str, pinned_at: Timestamp)
        ensures
            final(self)@ == (ManagerModel {
                pins: without(old(self)@.pins, label@).push(
                    PinModel {
                        label: label@,
                        content: content@,
                        tokens: text_tokens_u32(content@) as u32,
                        pinned_at,
                    },
                ),
                ..old(self)@
            }),
    {
        let tokens: u32 = estimate_tokens(content);
        self.unpin(label);
        let ghost kept = self@.pins;
        let p = PinnedContext {
            label: label.to_owned(),
            content: content.to_owned(),
            tokens,
            pinned_at,
        };
        let ghost q = p@;
        self.pinned.push(p);
        assert(self@.pins =~= kept.push(q));
    }

    /// Unpins a label. Returns whether it was pinned.
    pub fn unpin(&mut self, label: &str) -> (r: bool)
        ensures
            r == is_pinned(old(self)@.pins, label@),
            final(self)@ == (ManagerModel { pins: without(old(self)@.pins, label@), ..old(self)@ }),
    {
        let ghost all = self@.pins;
        let before: usize = self.pinned.len();
        let mut kept: Vec<PinnedContext> = Vec::new();
        let mut i: usize = 0;
        assert(pin_models(kept@) =~= without(all.take(0), label@));
        while i < self.pinned.len()
            invariant
                i <= self.pinned@.len(),
                all == pin_models(self.pinned@),
                *self == *old(self),
                pin_models(kept@) == without(all.take(i as int), label@),
            decreases self.pinned@.len() - i,
        {
            let ghost sofar = pin_models(kept@);
            proof {
                assert(all.take(i + 1).drop_last() =~= all.take(i as int));
                assert(all.take(i + 1).last() == self.pinned@[i as int]@);
            }
            if !same_text(self.pinned[i].label.as_str(), label) {
                let p = PinnedContext {
                    label: self.pinned[i].label.clone(),
                    content: self.pinned[i].content.clone(),
                    tokens: self.pinned[i].tokens,
                    pinned_at: self.pinned[i].pinned_at,
                };
                kept.push(p);
                assert(pin_models(kept@) =~= sofar.push(all[i as int]));
            }
            i += 1;
        }
        proof {
            assert(all.take(i as int) =~= all);
            lemma_without(all, label@);
            assert(pin_models(kept@).len() == kept@.len());
            assert(all.len() == before);
        }
        self.pinned = kept;
        self.pinned.len() < before
    }

    /// What is pinned.
    pub fn list_pins(&self) -> (r: &[PinnedContext])
        ensures
            pin_models(r@) == self@.pins,
    {
        self.pinned.as_slice()
    }

    /// What the pins cost.
    pub fn pinned_tokens(&self) -> (r: u32)
        requires
            pin_cost(self@.pins, self@.pins.len()) <= u32::MAX,
        ensures
            r == pin_cost(self@.pins, self@.pins.len()),
    {
        let ghost all = self@.pins;
        let mut n: u32 = 0;
        let mut i: usize = 0;
        while i < self.pinned.len()
            invariant
                i <= self.pinned@.len(),
                all == pin_models(self.pinned@),
                n == pin_cost(all, i as nat),
                pin_cost(all, all.len()) <= u32::MAX,
            decreases self.pinned@.len() - i,
        {
            proof {
                lemma_pin_cost(all, (i + 1) as nat, all.len());
                assert(all[i as int] == self.pinned@[i as int]@);
            }
            n += self.pinned[i].tokens;
            i += 1;
        }
        n
    }
}

/// A label stands for one pin: taking it off leaves the others in their order.
pub proof fn law_unpinning_leaves_the_others(pins: Seq<PinModel>, label: Seq<char>)
    ensures
        without(pins, label) == pins.filter(|p: PinModel| p.label != label),
        !is_pinned(without(pins, label), label),
    decreases pins.len(),
{
    reveal(Seq::filter);
    if pins.len() > 0 {
        law_unpinning_leaves_the_others(pins.drop_last(), label);
        let kept = without(pins.drop_last(), label);
        let all = without(pins, label);
        assert forall|i: int| 0 <= i < all.len() implies (#[trigger] all[i]).label != label by {
            if i < kept.len() {
                assert(all[i] == kept[i]);
            }
        }
    }
}

/// The messages cost what their parts cost together: each of them counts in one part, what
/// tools gave among the results and what the system says with the project.
pub proof fn law_each_message_counts_once(msgs: Seq<MessageModel>, m: MessageModel)
    ensures
        part_cost(msgs, ContextPart::Project, msgs.len()) + part_cost(
            msgs,
            ContextPart::Conversation,
            msgs.len(),
        ) + part_cost(msgs, ContextPart::ToolResults, msgs.len()) == messages_cost(msgs),
        part_cost(seq![m], ContextPart::Project, 1) == (if m.role == "system"@ {
            text_tokens_u32(m.content)
        } else {
            0
        }),
        part_cost(seq![m], ContextPart::ToolResults, 1) == (if m.role == "tool"@ {
            text_tokens_u32(m.content)
        } else {
            0
        }),
{
    reveal_strlit("system");
    reveal_strlit("tool");
    assert("system"@.len() == 6 && "tool"@.len() == 4);
    lemma_parts(msgs, msgs.len());
    assert(msgs.take(msgs.len() as int) =~= msgs);
    assert(part_cost(seq![m], ContextPart::Project, 0) == 0);
    assert(part_cost(seq![m], ContextPart::ToolResults, 0) == 0);
}

proof fn lemma_parts(msgs: Seq<MessageModel>, n: nat)
    requires
        n <= msgs.len(),
    ensures
        part_cost(msgs, ContextPart::Project, n) + part_cost(msgs, ContextPart::Conversation, n)
            + part_cost(msgs, ContextPart::ToolResults, n) == messages_cost(msgs.take(n as int)),
    decreases n,
{
    if n > 0 {
        lemma_parts(msgs, (n - 1) as nat);
        assert(msgs.take(n as int).drop_last() =~= msgs.take(n - 1));
    }
}

/// Of messages the latest are kept as far as they fit, and older ones only in what is left
/// then. One message is kept exactly if it fits.
pub proof fn law_the_latest_fit_first(
    old_part: Seq<MessageModel>,
    new_part: Seq<MessageModel>,
    m: MessageModel,
    budget: nat,
)
    ensures
        latest_fitting(seq![m], budget) == (if text_tokens_u32(m.content) <= budget {
            seq![m]
        } else {
            Seq::empty()
        }),
        messages_cost(latest_fitting(new_part, budget)) <= budget,
        latest_fitting(old_part + new_part, budget) == latest_fitting(
            old_part,
            (budget - messages_cost(latest_fitting(new_part, budget))) as nat,
        ) + latest_fitting(new_part, budget),
    decreases new_part.len(),
{
    law_kept_messages_fit(new_part, budget);
    let none = Seq::<MessageModel>::empty();
    assert(seq![m].drop_last() =~= none);
    assert(latest_fitting(none, budget) =~= none);
    assert(none.push(m) =~= seq![m]);
    if text_tokens_u32(m.content) <= budget {
        assert(latest_fitting(none, (budget - text_tokens_u32(m.content)) as nat) =~= none);
    }
    let all = old_part + new_part;
    if new_part.len() == 0 {
        assert(all =~= old_part);
        assert(latest_fitting(old_part, budget) + none =~= latest_fitting(old_part, budget));
    } else {
        let before = new_part.drop_last();
        let last = new_part.last();
        let cost = text_tokens_u32(last.content);
        assert(all.drop_last() =~= old_part + before);
        assert(all.last() == last);
        if cost <= budget {
            let left = (budget - cost) as nat;
            law_the_latest_fit_first(old_part, before, m, left);
            let kept = latest_fitting(before, left);
            assert(kept.push(last).drop_last() =~= kept);
            let older = latest_fitting(old_part, (left - messages_cost(kept)) as nat);
            assert((older + kept).push(last) =~= older + kept.push(last));
        } else {
            law_the_latest_fit_first(old_part, before, m, budget);
        }
    }
}

/// Every strategy keeps the latest messages as they are, in their order: those that are
/// asked for, or all where there are no more. What stands before them is a summary of
/// messages that are gone, or nothing.
pub proof fn law_compaction_keeps_the_latest(msgs: Seq<MessageModel>, n: usize, older: usize)
    requires
        msgs.len() > 0,
    ensures
        ({
            let k = if msgs.len() < n {
                msgs.len() as int
            } else {
                n as int
            };
            let latest = msgs.skip(msgs.len() - k);
            let gone = msgs.take(msgs.len() - k);
            &&& compacted(msgs, CompactionStrategy::Truncate { keep_last_n: n }) == latest
            &&& compacted(msgs, CompactionStrategy::Summarize { preserve_last_n: n }) == (
            if gone.len() == 0 {
                latest
            } else {
                seq![plain_message("system"@, summary_of(gone))] + latest
            })
            &&& compacted(
                msgs,
                CompactionStrategy::Hybrid { summarize_before: older, keep_verbatim: n },
            ) == (if gone.len() == 0 || older == 0 {
                latest
            } else {
                seq![
                    plain_message(
                        "system"@,
                        summary_of(
                            if gone.len() < older {
                                gone
                            } else {
                                gone.take(older as int)
                            },
                        ),
                    ),
                ] + latest
            })
        }),
        compacted(msgs, CompactionStrategy::Smart { budget_tokens: 0 }).len() > 0,
{
    let k = if msgs.len() < n {
        msgs.len() as int
    } else {
        n as int
    };
    let gone = msgs.take(msgs.len() - k);
    if gone.len() == 0 {
        assert(msgs.skip(0) =~= msgs);
    }
    if older <= gone.len() {
        assert(gone.take(older as int) =~= msgs.take(older as int));
    }
}

/// A summary tells how many messages it stands for, and how the first and the last begin.
pub proof fn law_summaries_name_first_and_last(msgs: Seq<MessageModel>)
    requires
        msgs.len() > 1,
    ensures
        ({
            let s = summary_of(msgs);
            &&& contains_text(s, decimal(msgs.len()))
            &&& contains_text(s, "First ("@ + msgs[0].role + "): "@ + preview(msgs[0].content, 200))
            &&& contains_text(
                s,
                "Last ("@ + msgs.last().role + "): "@ + preview(msgs.last().content, 200),
            )
        }),
{
    let s = summary_of(msgs);
    let start = "[Compacted conversation summary]\n("@;
    let count = decimal(msgs.len());
    let mid = " messages, ~"@ + decimal(content_bytes(msgs, msgs.len()))
        + " chars compacted)\n\n"@;
    let one = "First ("@ + msgs[0].role + "): "@ + preview(msgs[0].content, 200);
    let two = "Last ("@ + msgs.last().role + "): "@ + preview(msgs.last().content, 200);
    reveal_strlit("First (");
    reveal_strlit("First");
    reveal_strlit("Last (");
    reveal_strlit("Last");
    reveal_strlit(" (");
    assert("First ("@ =~= "First"@ + " ("@);
    assert("Last ("@ =~= "Last"@ + " ("@);
    assert(anchor("First"@, msgs[0]) =~= one + "\n"@);
    assert(anchor("Last"@, msgs.last()) =~= two + "\n"@);
    let head = start + count + mid;
    assert(s =~= head + (one + "\n"@) + (two + "\n"@));
    lemma_contains_part(start, count, mid + (one + "\n"@) + (two + "\n"@));
    assert(start + count + (mid + (one + "\n"@) + (two + "\n"@)) =~= s);
    lemma_contains_part(head, one, "\n"@ + (two + "\n"@));
    assert(head + one + ("\n"@ + (two + "\n"@)) =~= s);
    lemma_contains_part(head + (one + "\n"@), two, "\n"@);
    assert(head + (one + "\n"@) + two + "\n"@ =~= s);
}

/// A preview begins the text; it is all of it, or ends with an ellipsis behind as many
/// characters as asked for.
pub proof fn law_previews_begin_the_text(s: Seq<char>, n: nat)
    ensures
        s.len() <= n ==> preview(s, n) == s,
        s.len() > n ==> preview(s, n).len() == n + 1 && preview(s, n).last() == '…' && preview(
            s,
            n,
        ).drop_last() == s.take(n as int),
{
    if s.len() > n {
        assert(preview(s, n).drop_last() =~= s.take(n as int));
    }
}

/// The threshold that is used lies between 50 and 99 percent, and is the one that was set
/// where that does.
pub proof fn law_thresholds_are_kept_in_bounds(t: Percentage)
    requires
        t.whole > 0,
    ensures
        ({
            let c = clamped(t);
            &&& 50 * c.whole <= c.part <= 99 * c.whole
            &&& 50 * t.whole <= t.part <= 99 * t.whole ==> c == t
            &&& t.part < 50 * t.whole ==> c.part == 50 * c.whole
            &&& t.part > 99 * t.whole ==> c.part == 99 * c.whole
        }),
{
}

} // verus!

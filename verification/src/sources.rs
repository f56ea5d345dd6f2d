//! What goes into a context: sources of different weight, put together until a
//! budget is used up.

use crate::numeral::{byte_len, lemma_byte_len_ascii, lemma_byte_len_concat};
use crate::split::{join, join_texts};
use crate::text::{
    all_ascii, chars_of, contains_text, lemma_contains_part, lemma_texts_push, text_of, texts,
};
use crate::tokens::{estimate_for_text_u32, lemma_estimate_bound, text_tokens_u32};
use vstd::prelude::*;
use vstd::string::*;

verus! {

broadcast use lemma_texts_push;

/// Something that goes into a context.
#[derive(Debug, Clone, PartialEq, Eq)]
pub enum ContextSource {
    SystemPrompt(String),
    Instructions(String),
    FileContext { path: String, content: String, priority: u8 },
    GitDiff(String),
    MemoryBank(String),
    ConversationHistory(Vec<String>),
    Pinned(String),
}

/// A context that was put together.
#[derive(Debug, Clone, PartialEq, Eq)]
pub struct AssembledContext {
    pub content: String,
    pub total_tokens: usize,
    pub sources_included: Vec<String>,
    pub sources_truncated: Vec<String>,
}

/// Puts a context together.
#[derive(Debug, Clone)]
pub struct ContextAssembler {
    pub max_tokens: usize,
    pub sources: Vec<ContextSource>,
}

// ── Order ──────────────────────────────────────────────────────────────────
/// Where a source stands among others: those of a lower rank come first, and
/// files of a higher priority before others.
pub open spec fn rank(s: ContextSource) -> int {
    match s {
        ContextSource::SystemPrompt(_) => 0,
        ContextSource::Instructions(_) => 0x100,
        ContextSource::Pinned(_) => 0x200,
        ContextSource::FileContext { priority, .. } => 0x3ff - priority,
        ContextSource::GitDiff(_) => 0x400,
        ContextSource::MemoryBank(_) => 0x500,
        ContextSource::ConversationHistory(_) => 0x600,
    }
}

fn source_rank(s: &ContextSource) -> (r: u32)
    ensures
        r == rank(*s),
{
    match s {
        ContextSource::SystemPrompt(_) => 0,
        ContextSource::Instructions(_) => 0x100,
        ContextSource::Pinned(_) => 0x200,
        ContextSource::FileContext { priority, .. } => 0x3ff - (*priority as u32),
        ContextSource::GitDiff(_) => 0x400,
        ContextSource::MemoryBank(_) => 0x500,
        ContextSource::ConversationHistory(_) => 0x600,
    }
}

/// Behind which of the sources in `order` one of rank `k` comes.
pub open spec fn place(sources: Seq<ContextSource>, order: Seq<int>, k: int) -> int
    decreases order.len(),
{
    if order.len() == 0 {
        0
    } else if rank(sources[order.last()]) <= k {
        order.len() as int
    } else {
        place(sources, order.drop_last(), k)
    }
}

/// The first `n` sources in the order in which they go into the context.
pub open spec fn order_of(sources: Seq<ContextSource>, n: nat) -> Seq<int>
    decreases n,
{
    if n == 0 {
        Seq::empty()
    } else {
        let before = order_of(sources, (n - 1) as nat);
        before.insert(place(sources, before, rank(sources[n - 1])), n - 1)
    }
}

/// One source comes before another: it has the lower rank or, at the same
/// rank, was added first.
pub open spec fn precedes(sources: Seq<ContextSource>, i: int, j: int) -> bool {
    rank(sources[i]) < rank(sources[j]) || rank(sources[i]) == rank(sources[j]) && i < j
}

/// All of the first `n` sources, in order.
pub open spec fn in_order(sources: Seq<ContextSource>, order: Seq<int>, n: nat) -> bool {
    &&& order.len() == n
    &&& forall|a: int| 0 <= a < n ==> 0 <= #[trigger] order[a] < n
    &&& forall|a: int, b: int|
        0 <= a < b < n ==> precedes(sources, #[trigger] order[a], #[trigger] order[b])
}

proof fn lemma_place(sources: Seq<ContextSource>, order: Seq<int>, k: int)
    requires
        forall|a: int, b: int|
            0 <= a < b < order.len() ==> precedes(
                sources,
                #[trigger] order[a],
                #[trigger] order[b],
            ),
    ensures
        0 <= place(sources, order, k) <= order.len(),
        forall|a: int|
            0 <= a < place(sources, order, k) ==> rank(sources[#[trigger] order[a]]) <= k,
        forall|a: int|
            place(sources, order, k) <= a < order.len() ==> rank(sources[#[trigger] order[a]]) > k,
    decreases order.len(),
{
    if order.len() > 0 {
        let front = order.drop_last();
        if rank(sources[order.last()]) <= k {
            assert forall|a: int| 0 <= a < order.len() implies rank(sources[#[trigger] order[a]])
                <= k by {
                if a < order.len() - 1 {
                    assert(precedes(sources, order[a], order[order.len() - 1]));
                }
            }
        } else {
            assert forall|a: int, b: int| 0 <= a < b < front.len() implies precedes(
                sources,
                #[trigger] front[a],
                #[trigger] front[b],
            ) by {
                assert(precedes(sources, order[a], order[b]));
            }
            lemma_place(sources, front, k);
            let p = place(sources, front, k);
            assert forall|a: int| 0 <= a < p implies rank(sources[#[trigger] order[a]]) <= k by {
                assert(front[a] == order[a]);
            }
            assert forall|a: int| p <= a < order.len() implies rank(sources[#[trigger] order[a]])
                > k by {
                if a < order.len() - 1 {
                    assert(front[a] == order[a]);
                }
            }
        }
    }
}

/// Every source goes in once, those of a lower rank before those of a higher
/// one, and those of one rank as they were added.
pub proof fn law_sources_go_in_by_rank(sources: Seq<ContextSource>, n: nat)
    requires
        n <= sources.len(),
    ensures
        in_order(sources, order_of(sources, n), n),
    decreases n,
{
    if n > 0 {
        let before = order_of(sources, (n - 1) as nat);
        let k = rank(sources[n - 1]);
        law_sources_go_in_by_rank(sources, (n - 1) as nat);
        lemma_place(sources, before, k);
        let p = place(sources, before, k);
        let all = before.insert(p, n - 1);
        assert forall|a: int| 0 <= a < n implies 0 <= #[trigger] all[a] < n by {
            if a < p {
                assert(all[a] == before[a]);
            } else if a > p {
                assert(all[a] == before[a - 1]);
            }
        }
        assert forall|a: int, b: int| 0 <= a < b < n implies precedes(
            sources,
            #[trigger] all[a],
            #[trigger] all[b],
        ) by {
            let x = if a < p {
                a
            } else {
                a - 1
            };
            let y = if b < p {
                b
            } else {
                b - 1
            };
            if a != p {
                assert(all[a] == before[x]);
            }
            if b != p {
                assert(all[b] == before[y]);
            }
            if a != p && b != p {
                assert(precedes(sources, before[x], before[y]));
            }
        }
    }
}

/// The order as indices.
pub open spec fn indices(v: Seq<usize>) -> Seq<int> {
    v.map_values(|i: usize| i as int)
}

fn source_order(sources: &[ContextSource]) -> (r: Vec<usize>)
    ensures
        indices(r@) == order_of(sources@, sources@.len()),
        r@.len() == sources@.len(),
        forall|a: int| 0 <= a < r@.len() ==> (#[trigger] r@[a]) < sources@.len(),
{
    let mut order: Vec<usize> = Vec::new();
    let mut n: usize = 0;
    assert(indices(order@) =~= order_of(sources@, 0));
    while n < sources.len()
        invariant
            n <= sources@.len(),
            order@.len() == n,
            indices(order@) == order_of(sources@, n as nat),
        decreases sources@.len() - n,
    {
        let ghost before = indices(order@);
        proof {
            law_sources_go_in_by_rank(sources@, n as nat);
            assert(before.take(n as int) =~= before);
        }
        let k: u32 = source_rank(&sources[n]);
        let mut at: usize = n;
        assert forall|a: int| 0 <= a < n implies (#[trigger] order@[a]) < n by {
            assert(before[a] == order@[a]);
        }
        while at > 0 && source_rank(&sources[order[at - 1]]) > k
            invariant
                at <= n < sources@.len(),
                order@.len() == n,
                before == indices(order@),
                forall|a: int| 0 <= a < n ==> (#[trigger] order@[a]) < n,
                in_order(sources@, before, n as nat),
                place(sources@, before.take(at as int), k as int) == place(
                    sources@,
                    before,
                    k as int,
                ),
            decreases at,
        {
            assert(before.take(at as int).drop_last() =~= before.take(at - 1));
            assert(before.take(at as int).last() == before[at - 1]);
            at -= 1;
        }
        proof {
            if at > 0 {
                assert(before.take(at as int).last() == before[at - 1]);
            }
        }
        order.insert(at, n);
        assert(indices(order@) =~= before.insert(at as int, n as int));
        n += 1;
    }
    proof {
        law_sources_go_in_by_rank(sources@, n as nat);
        assert forall|a: int| 0 <= a < order@.len() implies (#[trigger] order@[a])
            < sources@.len() by {
            assert(indices(order@)[a] == order@[a]);
        }
    }
    order
}

// ── Texts ──────────────────────────────────────────────────────────────────
/// What a source is called.
pub open spec fn label_of(s: ContextSource) -> Seq<char> {
    match s {
        ContextSource::SystemPrompt(_) => "system_prompt"@,
        ContextSource::Instructions(_) => "instructions"@,
        ContextSource::FileContext { path, .. } => "file:"@ + path@,
        ContextSource::GitDiff(_) => "git_diff"@,
        ContextSource::MemoryBank(_) => "memory_bank"@,
        ContextSource::ConversationHistory(_) => "conversation_history"@,
        ContextSource::Pinned(_) => "pinned"@,
    }
}

fn context_source_label(s: &ContextSource) -> (r: String)
    ensures
        r@ == label_of(*s),
{
    match s {
        ContextSource::SystemPrompt(_) => "system_prompt".to_owned(),
        ContextSource::Instructions(_) => "instructions".to_owned(),
        ContextSource::FileContext { path, .. } => {
            let mut label = "file:".to_owned();
            label.append(path.as_str());
            label
        },
        ContextSource::GitDiff(_) => "git_diff".to_owned(),
        ContextSource::MemoryBank(_) => "memory_bank".to_owned(),
        ContextSource::ConversationHistory(_) => "conversation_history".to_owned(),
        ContextSource::Pinned(_) => "pinned".to_owned(),
    }
}

/// A source as it stands in the context.
pub open spec fn rendered(s: ContextSource) -> Seq<char> {
    match s {
        ContextSource::SystemPrompt(t) => "[System Prompt]\n"@ + t@,
        ContextSource::Instructions(t) => "[Instructions]\n"@ + t@,
        ContextSource::FileContext { path, content, .. } => "[File Context: "@ + path@ + "]\n"@
            + content@,
        ContextSource::GitDiff(t) => "[Git Diff]\n"@ + t@,
        ContextSource::MemoryBank(t) => "[Memory Bank]\n"@ + t@,
        ContextSource::ConversationHistory(m) => "[Conversation History]\n"@ + join(
            texts(m@),
            "\n"@,
        ),
        ContextSource::Pinned(t) => "[Pinned]\n"@ + t@,
    }
}

fn headed(head: &str, text: &str) -> (r: String)
    ensures
        r@ == head@ + text@,
{
    let mut out = head.to_owned();
    out.append(text);
    out
}

fn render_context_source(s: &ContextSource) -> (r: String)
    ensures
        r@ == rendered(*s),
{
    match s {
        ContextSource::SystemPrompt(t) => headed("[System Prompt]\n", t.as_str()),
        ContextSource::Instructions(t) => headed("[Instructions]\n", t.as_str()),
        ContextSource::FileContext { path, content, .. } => {
            let mut out = headed("[File Context: ", path.as_str());
            out.append("]\n");
            out.append(content.as_str());
            out
        },
        ContextSource::GitDiff(t) => headed("[Git Diff]\n", t.as_str()),
        ContextSource::MemoryBank(t) => headed("[Memory Bank]\n", t.as_str()),
        ContextSource::ConversationHistory(m) => {
            let joined = join_texts(m.as_slice(), "\n");
            headed("[Conversation History]\n", joined.as_str())
        },
        ContextSource::Pinned(t) => headed("[Pinned]\n", t.as_str()),
    }
}

/// A text with one character less at its end, and an ellipsis there.
pub open spec fn cut_once(t: Seq<char>) -> Seq<char> {
    let bare = if t.len() > 0 && t.last() == '…' {
        t.drop_last()
    } else {
        t
    };
    if bare.len() <= 1 {
        Seq::empty()
    } else {
        bare.drop_last().push('…')
    }
}

/// A text cut from its end until it fits.
pub open spec fn shrunk(t: Seq<char>, tokens: nat) -> Seq<char>
    decreases
            2 * t.len() + (if t.len() > 0 && t.last() == '…' {
                0int
            } else {
                1int
            }),
{
    if t.len() == 0 || text_tokens_u32(t) <= tokens {
        t
    } else {
        shrunk(cut_once(t), tokens)
    }
}

/// A text cut to fit a number of tokens: to four characters for each, and then
/// until it fits.
pub open spec fn cut_text(t: Seq<char>, tokens: nat) -> Seq<char> {
    if tokens == 0 {
        Seq::empty()
    } else if t.len() > 4 * tokens {
        shrunk(t.take(4 * tokens - 1).push('…'), tokens)
    } else {
        shrunk(t, tokens)
    }
}

proof fn lemma_empty_costs_nothing()
    ensures
        text_tokens_u32(Seq::empty()) == 0,
{
    lemma_estimate_bound(0);
    assert(byte_len(Seq::empty()) == 0);
}

proof fn lemma_shrunk_fits(t: Seq<char>, tokens: nat)
    ensures
        text_tokens_u32(shrunk(t, tokens)) <= tokens,
    decreases
            2 * t.len() + (if t.len() > 0 && t.last() == '…' {
                0int
            } else {
                1int
            }),
{
    if t.len() == 0 {
        assert(t =~= Seq::empty());
        lemma_empty_costs_nothing();
    } else if text_tokens_u32(t) > tokens {
        lemma_shrunk_fits(cut_once(t), tokens);
    }
}

fn truncate_text(text: &str, remaining_tokens: usize) -> (r: String)
    ensures
        r@ == cut_text(text@, remaining_tokens as nat),
{
    if remaining_tokens == 0 {
        let empty = String::new();
        assert(empty@ =~= Seq::empty());
        return empty;
    }
    let mut chars = chars_of(text);
    let max_chars: u128 = 4 * (remaining_tokens as u128);
    if chars.len() as u128 > max_chars {
        chars.truncate((max_chars - 1) as usize);
        chars.push('…');
    }
    let ghost goal = cut_text(text@, remaining_tokens as nat);
    assert(chars@ =~= (if text@.len() > 4 * remaining_tokens {
        text@.take(4 * remaining_tokens - 1).push('…')
    } else {
        text@
    }));
    let mut current = text_of(chars.as_slice());
    while chars.len() > 0 && estimate_for_text_u32(current.as_str()) as usize > remaining_tokens
        invariant
            current@ == chars@,
            goal == shrunk(chars@, remaining_tokens as nat),
        decreases
                2 * chars@.len() + (if chars@.len() > 0 && chars@.last() == '…' {
                    0int
                } else {
                    1int
                }),
    {
        let ghost before = chars@;
        if chars[chars.len() - 1] == '…' {
            chars.pop();
        }
        if chars.len() > 0 {
            chars.pop();
        }
        if chars.len() > 0 {
            chars.push('…');
        }
        assert(chars@ =~= cut_once(before));
        current = text_of(chars.as_slice());
    }
    current
}

/// What the line of the message before `n` costs: all but the last message of
/// the conversation end their line.
pub open spec fn line_cost(msgs: Seq<Seq<char>>, n: nat) -> nat {
    if n == msgs.len() {
        text_tokens_u32(msgs[n - 1])
    } else {
        text_tokens_u32("\n"@ + msgs[n - 1])
    }
}

/// From which message on a conversation fits, taken from its end.
pub open spec fn first_fitting(msgs: Seq<Seq<char>>, n: nat, left: nat) -> nat
    decreases n,
{
    if n == 0 || line_cost(msgs, n) > left {
        n
    } else {
        first_fitting(msgs, (n - 1) as nat, (left - line_cost(msgs, n)) as nat)
    }
}

/// The head of a conversation.
pub open spec fn history_head() -> Seq<char> {
    "[Conversation History]\n"@
}

/// From which message on a conversation fits together with its head.
pub open spec fn history_start(msgs: Seq<Seq<char>>, tokens: nat) -> nat {
    let head = text_tokens_u32(history_head());
    if head > tokens {
        msgs.len()
    } else {
        first_fitting(msgs, msgs.len(), (tokens - head) as nat)
    }
}

/// A source cut to fit a number of tokens. Of a conversation the latest
/// messages are kept, if one fits.
pub open spec fn cut_source(s: ContextSource, tokens: nat) -> Seq<char> {
    if tokens == 0 {
        Seq::empty()
    } else {
        match s {
            ContextSource::ConversationHistory(m) => {
                let msgs = texts(m@);
                let start = history_start(msgs, tokens);
                if start >= msgs.len() {
                    cut_text(rendered(s), tokens)
                } else {
                    history_head() + join(msgs.skip(start as int), "\n"@)
                }
            },
            _ => cut_text(rendered(s), tokens),
        }
    }
}

proof fn lemma_first_fitting(msgs: Seq<Seq<char>>, n: nat, left: nat)
    ensures
        first_fitting(msgs, n, left) <= n,
    decreases n,
{
    if n > 0 && line_cost(msgs, n) <= left {
        lemma_first_fitting(msgs, (n - 1) as nat, (left - line_cost(msgs, n)) as nat);
    }
}

/// A text in front of others costs its own bytes and those of the separator.
proof fn lemma_join_bytes(first: Seq<char>, rest: Seq<Seq<char>>, sep: Seq<char>)
    requires
        rest.len() > 0,
    ensures
        byte_len(join(seq![first] + rest, sep)) == byte_len(first) + byte_len(sep) + byte_len(
            join(rest, sep),
        ),
    decreases rest.len(),
{
    let all = seq![first] + rest;
    let front = all.drop_last();
    assert(front =~= seq![first] + rest.drop_last());
    lemma_byte_len_concat(join(front, sep) + sep, all.last());
    lemma_byte_len_concat(join(front, sep), sep);
    if rest.len() == 1 {
        assert(front =~= seq![first]);
        assert(join(front, sep) == first);
    } else {
        lemma_join_bytes(first, rest.drop_last(), sep);
        lemma_byte_len_concat(join(rest.drop_last(), sep) + sep, rest.last());
        lemma_byte_len_concat(join(rest.drop_last(), sep), sep);
    }
}

proof fn lemma_history_head()
    ensures
        byte_len(history_head()) == 23,
        text_tokens_u32(history_head()) == 7,
        byte_len("\n"@) == 1,
{
    reveal_strlit("[Conversation History]\n");
    reveal_strlit("\n");
    assert(all_ascii(history_head()));
    assert(all_ascii("\n"@));
    lemma_byte_len_ascii(history_head());
    lemma_byte_len_ascii("\n"@);
}

/// The tokens `used` cover a text of `bytes` bytes, and one more token for
/// rounding.
spec fn covers(used: nat, bytes: nat) -> bool {
    used >= u32::MAX || 75 * used > 22 * bytes
}

proof fn lemma_covered_text(t: Seq<char>, used: nat)
    requires
        covers(used, byte_len(t)),
    ensures
        text_tokens_u32(t) <= used,
{
}

proof fn lemma_history_fits(msgs: Seq<Seq<char>>, n: nat, left: nat, tokens: nat)
    requires
        n <= msgs.len(),
        left <= tokens,
        covers((tokens - left) as nat, 23 + byte_len(join(msgs.skip(n as int), "\n"@))),
    ensures
        text_tokens_u32(
            history_head() + join(msgs.skip(first_fitting(msgs, n, left) as int), "\n"@),
        ) <= tokens,
    decreases n,
{
    let tail = msgs.skip(n as int);
    lemma_history_head();
    lemma_byte_len_concat(history_head(), join(tail, "\n"@));
    lemma_covered_text(history_head() + join(tail, "\n"@), (tokens - left) as nat);
    if n > 0 && line_cost(msgs, n) <= left {
        let more = msgs.skip(n - 1);
        let m = msgs[n - 1];
        assert(more =~= seq![m] + tail);
        lemma_byte_len_concat("\n"@, m);
        if tail.len() == 0 {
            assert(join(tail, "\n"@) =~= Seq::empty());
            assert(join(more, "\n"@) == m);
        } else {
            lemma_join_bytes(m, tail, "\n"@);
        }
        lemma_history_fits(msgs, (n - 1) as nat, (left - line_cost(msgs, n)) as nat, tokens);
    }
}

/// What is cut to fit fits.
pub proof fn lemma_cut_source_fits(s: ContextSource, tokens: nat)
    ensures
        text_tokens_u32(cut_source(s, tokens)) <= tokens,
{
    lemma_empty_costs_nothing();
    let t = rendered(s);
    lemma_shrunk_fits(t, tokens);
    lemma_shrunk_fits(t.take(4 * tokens - 1).push('…'), tokens);
    match s {
        ContextSource::ConversationHistory(m) => {
            let msgs = texts(m@);
            lemma_history_head();
            if tokens >= 7 {
                assert(join(msgs.skip(msgs.len() as int), "\n"@) =~= Seq::empty());
                lemma_history_fits(msgs, msgs.len(), (tokens - 7) as nat, tokens);
            }
        },
        _ => {},
    }
}

fn history_from(messages: &[String], remaining_tokens: usize) -> (r: usize)
    ensures
        r == history_start(texts(messages@), remaining_tokens as nat),
        r <= messages@.len(),
{
    let ghost msgs = texts(messages@);
    let head: usize = estimate_for_text_u32("[Conversation History]\n") as usize;
    let mut n: usize = messages.len();
    if head > remaining_tokens {
        return n;
    }
    let mut left: usize = remaining_tokens - head;
    proof {
        lemma_first_fitting(msgs, n as nat, left as nat);
    }
    while n > 0
        invariant
            n <= messages@.len(),
            msgs == texts(messages@),
            first_fitting(msgs, n as nat, left as nat) == history_start(
                msgs,
                remaining_tokens as nat,
            ),
        decreases n,
    {
        assert(msgs[n - 1] == messages@[n - 1]@);
        let cost: usize = if n == messages.len() {
            estimate_for_text_u32(messages[n - 1].as_str()) as usize
        } else {
            let line = headed("\n", messages[n - 1].as_str());
            estimate_for_text_u32(line.as_str()) as usize
        };
        if cost > left {
            return n;
        }
        left -= cost;
        n -= 1;
    }
    n
}

fn truncate_context_source(s: &ContextSource, remaining_tokens: usize) -> (r: String)
    ensures
        r@ == cut_source(*s, remaining_tokens as nat),
{
    if remaining_tokens == 0 {
        let empty = String::new();
        assert(empty@ =~= Seq::empty());
        return empty;
    }
    match s {
        ContextSource::ConversationHistory(messages) => {
            let start: usize = history_from(messages.as_slice(), remaining_tokens);
            if start < messages.len() {
                let kept = vstd::slice::slice_subrange(
                    messages.as_slice(),
                    start,
                    messages.len(),
                );
                assert(texts(kept@) =~= texts(messages@).skip(start as int));
                let joined = join_texts(kept, "\n");
                return headed("[Conversation History]\n", joined.as_str());
            }
        },
        _ => {},
    }
    let text = render_context_source(s);
    truncate_text(text.as_str(), remaining_tokens)
}

// ── Assembly ───────────────────────────────────────────────────────────────
/// A context that is being put together.
pub struct AssemblyModel {
    pub sections: Seq<Seq<char>>,
    pub included: Seq<Seq<char>>,
    pub truncated: Seq<Seq<char>>,
    pub total: nat,
}

/// A source goes in whole if it fits, and else as much of it as fits.
pub open spec fn with_source(m: AssemblyModel, s: ContextSource, max: nat) -> AssemblyModel {
    let cost = text_tokens_u32(rendered(s));
    if m.total + cost <= max {
        AssemblyModel {
            sections: m.sections.push(rendered(s)),
            included: m.included.push(label_of(s)),
            truncated: m.truncated,
            total: m.total + cost,
        }
    } else {
        let room = if m.total <= max {
            (max - m.total) as nat
        } else {
            0
        };
        let part = cut_source(s, room);
        if part.len() == 0 {
            AssemblyModel { truncated: m.truncated.push(label_of(s)), ..m }
        } else {
            AssemblyModel {
                sections: m.sections.push(part),
                included: m.included.push(label_of(s)),
                truncated: m.truncated.push(label_of(s)),
                total: m.total + text_tokens_u32(part),
            }
        }
    }
}

/// The context after the first `n` sources of an order.
pub open spec fn assembly(
    sources: Seq<ContextSource>,
    order: Seq<int>,
    n: nat,
    max: nat,
) -> AssemblyModel
    decreases n,
{
    if n == 0 {
        AssemblyModel {
            sections: Seq::empty(),
            included: Seq::empty(),
            truncated: Seq::empty(),
            total: 0,
        }
    } else {
        with_source(assembly(sources, order, (n - 1) as nat, max), sources[order[n - 1]], max)
    }
}

/// The context that sources make.
pub open spec fn assembled(sources: Seq<ContextSource>, max: nat) -> AssemblyModel {
    assembly(sources, order_of(sources, sources.len()), sources.len(), max)
}

/// A context never takes more tokens than it may.
pub proof fn law_assembly_fits_the_budget(
    sources: Seq<ContextSource>,
    order: Seq<int>,
    n: nat,
    max: nat,
)
    ensures
        assembly(sources, order, n, max).total <= max,
    decreases n,
{
    if n > 0 {
        law_assembly_fits_the_budget(sources, order, (n - 1) as nat, max);
        let m = assembly(sources, order, (n - 1) as nat, max);
        lemma_cut_source_fits(sources[order[n - 1]], (max - m.total) as nat);
    }
}

/// What is told of a context counts every source: it is included, or it is
/// among those that were cut.
pub proof fn law_every_source_is_accounted_for(
    sources: Seq<ContextSource>,
    order: Seq<int>,
    n: nat,
    max: nat,
    i: int,
)
    requires
        0 <= i < n,
    ensures
        assembly(sources, order, n, max).included.contains(label_of(sources[order[i]])) || assembly(
            sources,
            order,
            n,
            max,
        ).truncated.contains(label_of(sources[order[i]])),
    decreases n,
{
    let m = assembly(sources, order, (n - 1) as nat, max);
    let next = assembly(sources, order, n, max);
    let l = label_of(sources[order[i]]);
    if i < n - 1 {
        law_every_source_is_accounted_for(sources, order, (n - 1) as nat, max, i);
        if m.included.contains(l) {
            let k = choose|k: int| 0 <= k < m.included.len() && m.included[k] == l;
            assert(next.included[k] == l);
        } else {
            let k = choose|k: int| 0 <= k < m.truncated.len() && m.truncated[k] == l;
            assert(next.truncated[k] == l);
        }
    } else {
        if next.truncated.len() > m.truncated.len() {
            assert(next.truncated[m.truncated.len() as int] == l);
        } else {
            assert(next.included[m.included.len() as int] == l);
        }
    }
}

impl ContextAssembler {
    /// A context of at most so many tokens, with nothing in it.
    pub fn new(max_tokens: usize) -> (r: ContextAssembler)
        ensures
            r.max_tokens == max_tokens,
            r.sources@.len() == 0,
    {
        ContextAssembler { max_tokens, sources: Vec::new() }
    }

    /// Adds a source.
    pub fn add_source(&mut self, source: ContextSource)
        ensures
            final(self).max_tokens == old(self).max_tokens,
            final(self).sources@ == old(self).sources@.push(source),
    {
        self.sources.push(source);
    }

    /// The estimate for a text.
    pub fn estimate_tokens(text: &str) -> (r: usize)
        ensures
            r == text_tokens_u32(text@),
    {
        estimate_for_text_u32(text) as usize
    }

    /// Puts the context together.
    pub fn assemble(&self) -> (r: AssembledContext)
        ensures
            ({
                let m = assembled(self.sources@, self.max_tokens as nat);
                &&& r.content@ == join(m.sections, "\n\n"@)
                &&& r.total_tokens == m.total
                &&& texts(r.sources_included@) == m.included
                &&& texts(r.sources_truncated@) == m.truncated
            }),
            r.total_tokens <= self.max_tokens,
    {
        let max: usize = self.max_tokens;
        let order = source_order(self.sources.as_slice());
        let ghost o = indices(order@);
        let mut sections: Vec<String> = Vec::new();
        let mut included: Vec<String> = Vec::new();
        let mut truncated: Vec<String> = Vec::new();
        let mut total: usize = 0;
        let mut n: usize = 0;
        proof {
            assert(texts(sections@) =~= Seq::empty());
            assert(texts(included@) =~= Seq::empty());
            assert(texts(truncated@) =~= Seq::empty());
        }
        while n < order.len()
            invariant
                n <= order@.len() == self.sources@.len(),
                max == self.max_tokens,
                o == indices(order@),
                forall|a: int| 0 <= a < order@.len() ==> (#[trigger] order@[a])
                    < self.sources@.len(),
                ({
                    let m = assembly(self.sources@, o, n as nat, max as nat);
                    &&& texts(sections@) == m.sections
                    &&& texts(included@) == m.included
                    &&& texts(truncated@) == m.truncated
                    &&& total == m.total
                }),
                total <= max,
            decreases order@.len() - n,
        {
            assert(o[n as int] == order@[n as int]);
            let source = &self.sources[order[n]];
            proof {
                law_assembly_fits_the_budget(self.sources@, o, (n + 1) as nat, max as nat);
            }
            let label = context_source_label(source);
            let text = render_context_source(source);
            let cost: usize = ContextAssembler::estimate_tokens(text.as_str());
            if cost <= max - total {
                sections.push(text);
                included.push(label);
                total += cost;
            } else {
                let part = truncate_context_source(source, max - total);
                if !part.as_str().is_empty() {
                    total += ContextAssembler::estimate_tokens(part.as_str());
                    sections.push(part);
                    included.push(label.clone());
                }
                truncated.push(label);
            }
            n += 1;
        }
        AssembledContext {
            content: join_texts(sections.as_slice(), "\n\n"),
            total_tokens: total,
            sources_included: included,
            sources_truncated: truncated,
        }
    }
}

impl Default for ContextAssembler {
    fn default() -> (r: ContextAssembler)
        ensures
            r.max_tokens == 0,
            r.sources@.len() == 0,
    {
        ContextAssembler::new(0)
    }
}

// ── Laws ───────────────────────────────────────────────────────────────────
/// The prompt comes before the instructions, these before what is pinned, that before the
/// files, the file of the higher priority first, and then come the changes, the memory and
/// the conversation.
pub proof fn law_kinds_of_sources_have_their_order(a: ContextSource, b: ContextSource)
    ensures
        a is SystemPrompt && b !is SystemPrompt ==> rank(a) < rank(b),
        a is Instructions && b !is SystemPrompt && b !is Instructions ==> rank(a) < rank(b),
        a is Pinned && (b is FileContext || b is GitDiff || b is MemoryBank
            || b is ConversationHistory) ==> rank(a) < rank(b),
        a is FileContext && (b is GitDiff || b is MemoryBank || b is ConversationHistory)
            ==> rank(a) < rank(b),
        a is GitDiff && (b is MemoryBank || b is ConversationHistory) ==> rank(a) < rank(b),
        a is MemoryBank && b is ConversationHistory ==> rank(a) < rank(b),
        a is FileContext && b is FileContext ==> (rank(a) < rank(b) <==> a->priority
            > b->priority),
{
}

/// Sources that fit together all go in whole, in their order, and none is cut.
pub proof fn law_what_fits_goes_in_whole(
    sources: Seq<ContextSource>,
    order: Seq<int>,
    n: nat,
    max: nat,
    costs: Seq<nat>,
)
    requires
        n <= order.len(),
        costs.len() == n + 1,
        costs[0] == 0,
        forall|i: int|
            #![trigger order[i]]
            0 <= i < n ==> costs[i + 1] == costs[i] + text_tokens_u32(rendered(sources[order[i]])),
        costs[n as int] <= max,
    ensures
        ({
            let m = assembly(sources, order, n, max);
            &&& m.truncated.len() == 0
            &&& m.total == costs[n as int]
            &&& m.sections == Seq::new(n, |i: int| rendered(sources[order[i]]))
            &&& m.included == Seq::new(n, |i: int| label_of(sources[order[i]]))
        }),
    decreases n,
{
    let m = assembly(sources, order, n, max);
    if n > 0 {
        let k = (n - 1) as nat;
        let before = costs.drop_last();
        assert(order[n - 1] == order[n - 1]);
        assert(costs[n as int] == costs[n - 1] + text_tokens_u32(rendered(sources[order[n - 1]])));
        assert forall|i: int|
            #![trigger order[i]]
            0 <= i < k implies before[i + 1] == before[i] + text_tokens_u32(
            rendered(sources[order[i]]),
        ) by {
            assert(before[i + 1] == costs[i + 1]);
        }
        law_what_fits_goes_in_whole(sources, order, k, max, before);
    }
    assert(m.sections =~= Seq::new(n, |i: int| rendered(sources[order[i]])));
    assert(m.included =~= Seq::new(n, |i: int| label_of(sources[order[i]])));
}

/// A text that is cut keeps its beginning: what is left of it is the text, or its beginning
/// with an ellipsis, or nothing.
pub proof fn law_cut_texts_begin_alike(t: Seq<char>, tokens: nat)
    ensures
        ({
            let c = cut_text(t, tokens);
            ||| c == t
            ||| c.len() == 0
            ||| c.len() <= t.len() && c.last() == '…' && c.drop_last() == t.take(c.len() - 1)
        }),
        tokens > 0 && t.len() <= 4 * tokens && text_tokens_u32(t) <= tokens ==> cut_text(t, tokens)
            == t,
{
    if tokens > 0 {
        if t.len() > 4 * tokens {
            let part = t.take(4 * tokens - 1).push('…');
            lemma_shrunk_begins(t, part, tokens);
        } else {
            lemma_shrunk_begins(t, t, tokens);
        }
    }
}

proof fn lemma_shrunk_begins(t: Seq<char>, part: Seq<char>, tokens: nat)
    requires
        part == t || part.len() == 0 || (part.len() <= t.len() && part.last() == '…'
            && part.drop_last() =~= t.take(part.len() - 1)),
    ensures
        ({
            let c = shrunk(part, tokens);
            ||| c == t
            ||| c.len() == 0
            ||| c.len() <= t.len() && c.last() == '…' && c.drop_last() =~= t.take(c.len() - 1)
        }),
    decreases
            2 * part.len() + (if part.len() > 0 && part.last() == '…' {
                0int
            } else {
                1int
            }),
{
    if part.len() > 0 && text_tokens_u32(part) > tokens {
        let next = cut_once(part);
        if next.len() > 0 {
            let bare = if part.last() == '…' {
                part.drop_last()
            } else {
                part
            };
            assert(bare =~= t.take(bare.len() as int));
            assert(next.drop_last() =~= t.take(next.len() - 1));
        }
        lemma_shrunk_begins(t, next, tokens);
    }
}

/// Of a conversation that does not fit the latest messages are kept: all of those that fit
/// behind the head together, and no more.
pub proof fn law_the_latest_messages_are_kept(msgs: Seq<Seq<char>>, n: nat, left: nat)
    requires
        n <= msgs.len(),
    ensures
        ({
            let s = first_fitting(msgs, n, left);
            &&& s <= n
            &&& lines_cost(msgs, s, n) <= left
            &&& s > 0 ==> lines_cost(msgs, s, n) + line_cost(msgs, s) > left
        }),
    decreases n,
{
    if n > 0 && line_cost(msgs, n) <= left {
        law_the_latest_messages_are_kept(
            msgs,
            (n - 1) as nat,
            (left - line_cost(msgs, n)) as nat,
        );
    }
}

/// What the lines of the messages from `s` to before `n` cost together.
pub open spec fn lines_cost(msgs: Seq<Seq<char>>, s: nat, n: nat) -> nat
    decreases n,
{
    if n <= s {
        0
    } else {
        lines_cost(msgs, s, (n - 1) as nat) + line_cost(msgs, n)
    }
}

/// A source stands in the context under its head, with its text as it is.
pub proof fn law_sources_are_shown(s: ContextSource, t: String)
    ensures
        s == ContextSource::SystemPrompt(t) || s == ContextSource::Instructions(t) || s
            == ContextSource::Pinned(t) || s == ContextSource::GitDiff(t) || s
            == ContextSource::MemoryBank(t) ==> contains_text(rendered(s), t@),
        s matches ContextSource::FileContext { path, content, .. } ==> contains_text(
            rendered(s),
            path@,
        ) && contains_text(rendered(s), content@) && contains_text(label_of(s), path@),
{
    let none = Seq::<char>::empty();
    match s {
        ContextSource::SystemPrompt(x) => {
            lemma_contains_part("[System Prompt]\n"@, x@, none);
            assert("[System Prompt]\n"@ + x@ + none =~= rendered(s));
        },
        ContextSource::Instructions(x) => {
            lemma_contains_part("[Instructions]\n"@, x@, none);
            assert("[Instructions]\n"@ + x@ + none =~= rendered(s));
        },
        ContextSource::Pinned(x) => {
            lemma_contains_part("[Pinned]\n"@, x@, none);
            assert("[Pinned]\n"@ + x@ + none =~= rendered(s));
        },
        ContextSource::GitDiff(x) => {
            lemma_contains_part("[Git Diff]\n"@, x@, none);
            assert("[Git Diff]\n"@ + x@ + none =~= rendered(s));
        },
        ContextSource::MemoryBank(x) => {
            lemma_contains_part("[Memory Bank]\n"@, x@, none);
            assert("[Memory Bank]\n"@ + x@ + none =~= rendered(s));
        },
        ContextSource::FileContext { path, content, .. } => {
            lemma_contains_part("[File Context: "@, path@, "]\n"@ + content@);
            assert("[File Context: "@ + path@ + ("]\n"@ + content@) =~= rendered(s));
            lemma_contains_part("[File Context: "@ + path@ + "]\n"@, content@, none);
            assert("[File Context: "@ + path@ + "]\n"@ + content@ + none =~= rendered(s));
            lemma_contains_part("file:"@, path@, none);
            assert("file:"@ + path@ + none =~= label_of(s));
        },
        ContextSource::ConversationHistory(_) => {},
    }
}

} // verus!

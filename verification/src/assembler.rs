//! The messages of a request: as much of a conversation as fits, with no tool
//! call parted from its result.

use crate::context_manager::message_models;
use crate::groups::{compact_form, CompactMessage};
use crate::message::{opt_text, plain_message, Message, MessageModel, ToolUse};
use crate::pairing::{
    lemma_unit_end, links, pair_aware_units, ranges, unit_end, units_from, Link,
};
use crate::text::{
    contains_text, lemma_contains_part, lemma_starts_with_part, same_text, starts_with,
};
use crate::tokens::{estimate_for_text_u32, text_tokens_u32};
use vstd::prelude::*;
use vstd::string::*;

verus! {

/// What the inputs of the first `n` tool calls cost.
pub open spec fn inputs_cost(calls: Seq<ToolUse>, n: nat) -> nat
    decreases n,
{
    if n == 0 {
        0
    } else {
        inputs_cost(calls, (n - 1) as nat) + text_tokens_u32(calls[n - 1].input@)
    }
}

proof fn lemma_inputs_cost(calls: Seq<ToolUse>, n: nat, m: nat)
    requires
        n <= m,
    ensures
        inputs_cost(calls, n) <= inputs_cost(calls, m),
    decreases m,
{
    if n < m {
        lemma_inputs_cost(calls, n, (m - 1) as nat);
    }
}

/// What a message costs.
pub open spec fn message_cost(m: MessageModel) -> nat {
    text_tokens_u32(m.role) + text_tokens_u32(m.content) + inputs_cost(
        m.tool_calls,
        m.tool_calls.len(),
    ) + match m.tool_result {
        Some(r) => text_tokens_u32(r.content@),
        None => 0,
    }
}

/// What the messages from `a` to before `b` cost.
pub open spec fn range_cost(msgs: Seq<MessageModel>, a: int, b: int) -> nat
    decreases b - a,
{
    if a >= b {
        0
    } else {
        range_cost(msgs, a, b - 1) + message_cost(msgs[b - 1])
    }
}

proof fn lemma_range_cost(msgs: Seq<MessageModel>, a: int, b: int, c: int)
    requires
        a <= b <= c,
    ensures
        range_cost(msgs, a, c) == range_cost(msgs, a, b) + range_cost(msgs, b, c),
    decreases c - b,
{
    if b < c {
        lemma_range_cost(msgs, a, b, c - 1);
    }
}

/// From which unit on the conversation fits, taken from its end until one does
/// not fit.
pub open spec fn first_unit(
    msgs: Seq<MessageModel>,
    units: Seq<(int, int)>,
    n: nat,
    used: nat,
    available: nat,
) -> nat
    decreases n,
{
    if n == 0 {
        0
    } else {
        let cost = range_cost(msgs, units[n - 1].0, units[n - 1].1);
        if used + cost > available {
            n
        } else {
            first_unit(msgs, units, (n - 1) as nat, used + cost, available)
        }
    }
}

/// The message that the units from `n` on start with.
pub open spec fn unit_start(units: Seq<(int, int)>, n: nat, len: int) -> int {
    if n < units.len() {
        units[n as int].0
    } else {
        len
    }
}

/// Messages without the tool results at their head.
pub open spec fn without_leading_results(msgs: Seq<MessageModel>) -> Seq<MessageModel>
    decreases msgs.len(),
{
    if msgs.len() > 0 && msgs[0].role == "tool"@ {
        without_leading_results(msgs.skip(1))
    } else {
        msgs
    }
}

/// What a request is made of: a prompt, what is known of the project, and how
/// many tokens the model takes.
pub struct AssemblerModel {
    pub max_context_tokens: u32,
    pub system_prompt: Seq<char>,
    pub project_context: Option<Seq<char>>,
}

impl AssemblerModel {
    /// The prompt, with what is known of the project.
    pub open spec fn prompt(self) -> Seq<char> {
        match self.project_context {
            Some(c) => self.system_prompt + "\n\n<project_context>\n"@ + c
                + "\n</project_context>"@,
            None => self.system_prompt,
        }
    }

    /// The message that comes first.
    pub open spec fn head(self) -> MessageModel {
        plain_message("system"@, self.prompt())
    }

    /// How many tokens the request may take: a quarter is left for the answer.
    pub open spec fn available(self) -> nat {
        if 3 * self.max_context_tokens <= u32::MAX {
            (3 * self.max_context_tokens / 4) as nat
        } else {
            u32::MAX as nat / 4
        }
    }

    /// From which message on the conversation is kept.
    pub open spec fn start(self, msgs: Seq<MessageModel>, joints: Seq<Link>) -> int {
        let units = units_from(joints, 0);
        unit_start(
            units,
            first_unit(msgs, units, units.len(), message_cost(self.head()), self.available()),
            msgs.len() as int,
        )
    }

    /// The messages of the request.
    pub open spec fn request(self, msgs: Seq<MessageModel>, joints: Seq<Link>) -> Seq<
        MessageModel,
    > {
        seq![self.head()] + without_leading_results(msgs.skip(self.start(msgs, joints)))
    }
}

proof fn lemma_units(joints: Seq<Link>, i: int, k: int)
    requires
        0 <= i <= joints.len(),
        0 <= k < units_from(joints, i).len(),
    ensures
        ({
            let u = units_from(joints, i);
            &&& i <= u[k].0 < u[k].1 <= joints.len()
            &&& k == 0 ==> u[k].0 == i
            &&& k + 1 < u.len() ==> u[k + 1].0 == u[k].1
            &&& k + 1 == u.len() ==> u[k].1 == joints.len()
        }),
    decreases joints.len() - i,
{
    if i < joints.len() {
        lemma_unit_end(joints, i);
        let e = unit_end(joints, i);
        let rest = units_from(joints, e);
        let u = units_from(joints, i);
        assert(u =~= seq![(i, e)] + rest);
        if k > 0 {
            lemma_units(joints, e, k - 1);
            assert(u[k] == rest[k - 1]);
            if k + 1 < u.len() {
                assert(u[k + 1] == rest[k]);
            }
        } else {
            if rest.len() > 0 {
                lemma_units(joints, e, 0);
                assert(u[1] == rest[0]);
            } else if e < joints.len() {
                assert(rest.len() >= 1);
            }
        }
    }
}

proof fn lemma_units_ordered(joints: Seq<Link>, a: int, b: int)
    requires
        0 <= a < b < units_from(joints, 0).len(),
    ensures
        units_from(joints, 0)[a].1 <= units_from(joints, 0)[b].0,
    decreases b - a,
{
    lemma_units(joints, 0, a);
    lemma_units(joints, 0, b);
    if a + 1 < b {
        lemma_units_ordered(joints, a, b - 1);
        lemma_units(joints, 0, b - 1);
    }
}

proof fn lemma_first_unit(
    msgs: Seq<MessageModel>,
    joints: Seq<Link>,
    n: nat,
    used: nat,
    available: nat,
)
    requires
        msgs.len() == joints.len(),
        n <= units_from(joints, 0).len(),
    ensures
        ({
            let units = units_from(joints, 0);
            let k = first_unit(msgs, units, n, used, available);
            &&& k <= n
            &&& k < n ==> used + range_cost(
                msgs,
                units[k as int].0,
                unit_start(units, n, msgs.len() as int),
            ) <= available
        }),
    decreases n,
{
    let units = units_from(joints, 0);
    if n > 0 {
        lemma_units(joints, 0, n - 1);
        let cost = range_cost(msgs, units[n - 1].0, units[n - 1].1);
        assert(units[n - 1].1 == unit_start(units, n, msgs.len() as int));
        if used + cost <= available {
            lemma_first_unit(msgs, joints, (n - 1) as nat, used + cost, available);
            let k = first_unit(msgs, units, (n - 1) as nat, used + cost, available);
            if k < n - 1 {
                lemma_units_ordered(joints, k as int, n - 1);
                lemma_units(joints, 0, k as int);
                lemma_range_cost(
                    msgs,
                    units[k as int].0,
                    units[n - 1].0,
                    units[n - 1].1,
                );
            }
        }
    }
}

/// A request holds whole units: no tool call is parted from the results that
/// follow it. What is kept of the conversation has no gap, reaches to its end,
/// and fits together with the prompt.
pub proof fn law_requests_hold_whole_units(
    m: AssemblerModel,
    msgs: Seq<MessageModel>,
    joints: Seq<Link>,
)
    requires
        msgs.len() == joints.len(),
    ensures
        0 <= m.start(msgs, joints) <= msgs.len(),
        forall|k: int|
            0 <= k < units_from(joints, 0).len() ==> (#[trigger] units_from(joints, 0)[k]).0
                >= m.start(msgs, joints) || units_from(joints, 0)[k].1 <= m.start(msgs, joints),
        m.start(msgs, joints) < msgs.len() ==> message_cost(m.head()) + range_cost(
            msgs,
            m.start(msgs, joints),
            msgs.len() as int,
        ) <= m.available(),
{
    let units = units_from(joints, 0);
    let used = message_cost(m.head());
    let n = first_unit(msgs, units, units.len(), used, m.available());
    lemma_first_unit(msgs, joints, units.len(), used, m.available());
    if n < units.len() {
        lemma_units(joints, 0, n as int);
    }
    assert forall|k: int| 0 <= k < units.len() implies (#[trigger] units[k]).0 >= m.start(
        msgs,
        joints,
    ) || units[k].1 <= m.start(msgs, joints) by {
        lemma_units(joints, 0, k);
        if k < n && n < units.len() {
            lemma_units_ordered(joints, k, n as int);
        } else if n < k {
            lemma_units_ordered(joints, n as int, k);
            lemma_units(joints, 0, n as int);
        }
    }
}

/// No request starts its conversation with a tool result.
pub proof fn law_requests_start_with_no_result(msgs: Seq<MessageModel>)
    ensures
        ({
            let rest = without_leading_results(msgs);
            let k = msgs.len() - rest.len();
            &&& 0 <= k
            &&& rest == msgs.skip(k)
            &&& forall|i: int| 0 <= i < k ==> (#[trigger] msgs[i]).role == "tool"@
            &&& rest.len() > 0 ==> rest[0].role != "tool"@
        }),
    decreases msgs.len(),
{
    if msgs.len() > 0 && msgs[0].role == "tool"@ {
        law_requests_start_with_no_result(msgs.skip(1));
        let rest = without_leading_results(msgs);
        let k = msgs.len() - rest.len();
        assert(msgs.skip(1).skip(k - 1) =~= msgs.skip(k));
        assert forall|i: int| 0 <= i < k implies (#[trigger] msgs[i]).role == "tool"@ by {
            if i > 0 {
                assert(msgs.skip(1)[i - 1] == msgs[i]);
            }
        }
    } else {
        assert(msgs.skip(0) =~= msgs);
    }
}

/// What ties messages to others.
pub open spec fn message_links(msgs: Seq<MessageModel>) -> Seq<Link> {
    msgs.map_values(|m: MessageModel| compact_form(m).link())
}

fn units_of(messages: &[Message]) -> (r: Vec<(usize, usize)>)
    ensures
        ranges(r@) == units_from(message_links(message_models(messages@)), 0),
{
    let ghost all = message_links(message_models(messages@));
    let mut forms: Vec<CompactMessage> = Vec::new();
    let mut i: usize = 0;
    assert(links(forms@) =~= all.take(0));
    while i < messages.len()
        invariant
            i <= messages@.len(),
            all == message_links(message_models(messages@)),
            links(forms@) == all.take(i as int),
        decreases messages@.len() - i,
    {
        let ghost before = links(forms@);
        forms.push(CompactMessage::from_message(&messages[i]));
        proof {
            assert(all[i as int] == compact_form(messages@[i as int]@).link());
            assert(links(forms@) =~= before.push(all[i as int]));
            assert(links(forms@) =~= all.take(i + 1));
        }
        i += 1;
    }
    assert(all.take(i as int) =~= all);
    pair_aware_units(forms.as_slice())
}

/// Puts requests together.
#[derive(Debug)]
pub struct MessageAssembler {
    max_context_tokens: u32,
    system_prompt: String,
    project_context: Option<String>,
}

impl View for MessageAssembler {
    type V = AssemblerModel;

    closed spec fn view(&self) -> AssemblerModel {
        AssemblerModel {
            max_context_tokens: self.max_context_tokens,
            system_prompt: self.system_prompt@,
            project_context: opt_text(self.project_context),
        }
    }
}

fn message_tokens(msg: &Message) -> (r: u32)
    requires
        message_cost(msg@) <= u32::MAX,
    ensures
        r == message_cost(msg@),
{
    let mut tokens: u32 = estimate_for_text_u32(msg.role.as_str()) + estimate_for_text_u32(
        msg.content.as_str(),
    );
    let ghost base = tokens as nat;
    let mut i: usize = 0;
    while i < msg.tool_calls.len()
        invariant
            i <= msg.tool_calls@.len(),
            tokens == base + inputs_cost(msg.tool_calls@, i as nat),
            base + inputs_cost(msg.tool_calls@, msg.tool_calls@.len()) <= u32::MAX,
        decreases msg.tool_calls@.len() - i,
    {
        proof {
            lemma_inputs_cost(msg.tool_calls@, (i + 1) as nat, msg.tool_calls@.len());
        }
        tokens += estimate_for_text_u32(msg.tool_calls[i].input.as_str());
        i += 1;
    }
    match &msg.tool_result {
        Some(r) => tokens + estimate_for_text_u32(r.content.as_str()),
        None => tokens,
    }
}

fn tokens_between(messages: &[Message], a: usize, b: usize) -> (r: u32)
    requires
        a <= b <= messages@.len(),
        range_cost(message_models(messages@), a as int, b as int) <= u32::MAX,
    ensures
        r == range_cost(message_models(messages@), a as int, b as int),
{
    let ghost all = message_models(messages@);
    let mut n: u32 = 0;
    let mut i: usize = a;
    while i < b
        invariant
            a <= i <= b <= messages@.len(),
            all == message_models(messages@),
            n == range_cost(all, a as int, i as int),
            range_cost(all, a as int, b as int) <= u32::MAX,
        decreases b - i,
    {
        proof {
            lemma_range_cost(all, a as int, i + 1, b as int);
            assert(all[i as int] == messages@[i as int]@);
        }
        n += message_tokens(&messages[i]);
        i += 1;
    }
    n
}

impl MessageAssembler {
    /// Requests with a prompt, to a model that takes so many tokens.
    pub fn new(max_context_tokens: u32, system_prompt: &str) -> (r: MessageAssembler)
        ensures
            r@ == (AssemblerModel {
                max_context_tokens,
                system_prompt: system_prompt@,
                project_context: None,
            }),
    {
        MessageAssembler {
            max_context_tokens,
            system_prompt: system_prompt.to_owned(),
            project_context: None,
        }
    }

    /// The same with what is known of the project.
    pub fn with_project_context(self, ctx: &str) -> (r: MessageAssembler)
        ensures
            r@ == (AssemblerModel { project_context: Some(ctx@), ..self@ }),
    {
        let mut r = self;
        r.project_context = Some(ctx.to_owned());
        r
    }

    /// The messages of a request: the prompt and as much of the conversation as
    /// fits.
    pub fn assemble(&self, history: &[Message]) -> (r: Vec<Message>)
        requires
            message_cost(self@.head()) + range_cost(
                message_models(history@),
                0,
                history@.len() as int,
            ) <= u32::MAX,
        ensures
            message_models(r@) == self@.request(
                message_models(history@),
                message_links(message_models(history@)),
            ),
    {
        let ghost all = message_models(history@);
        let ghost joints = message_links(all);
        let mut full = self.system_prompt.clone();
        if let Some(ctx) = &self.project_context {
            full.append("\n\n<project_context>\n");
            full.append(ctx.as_str());
            full.append("\n</project_context>");
        }
        let head = Message::system(full.as_str());
        assert(head@ == self@.head());
        let mut used: u32 = message_tokens(&head);
        let available: u32 = if self.max_context_tokens <= u32::MAX / 3 {
            self.max_context_tokens * 3 / 4
        } else {
            u32::MAX / 4
        };
        let units = units_of(history);
        let ghost u = ranges(units@);
        let ghost goal = self@.start(all, joints);
        let mut n: usize = units.len();
        let mut start: usize = history.len();
        let mut fits = true;
        while n > 0 && fits
            invariant
                n <= units@.len(),
                all == message_models(history@),
                joints == message_links(all),
                all.len() == joints.len() == history@.len(),
                u == ranges(units@),
                u == units_from(joints, 0),
                u.len() == units@.len(),
                start == unit_start(u, n as nat, all.len() as int),
                start <= history@.len(),
                used + range_cost(all, 0, start as int) <= u32::MAX,
                goal == (if fits {
                    unit_start(
                        u,
                        first_unit(all, u, n as nat, used as nat, available as nat),
                        all.len() as int,
                    )
                } else {
                    start as int
                }),
            decreases
                    n + (if fits {
                        1int
                    } else {
                        0int
                    }),
        {
            let (a, b) = units[n - 1];
            proof {
                assert(u[n - 1] == (a as int, b as int));
                lemma_units(joints, 0, n - 1);
                lemma_range_cost(all, 0, a as int, b as int);
            }
            let cost: u32 = tokens_between(history, a, b);
            if used + cost > available {
                fits = false;
            } else {
                used += cost;
                start = a;
                n -= 1;
            }
        }
        assert(start == goal);
        let mut first: usize = start;
        assert(all.skip(start as int).len() == all.len() - start);
        while first < history.len() && same_text(history[first].role.as_str(), "tool")
            invariant
                start <= first <= history@.len(),
                all == message_models(history@),
                without_leading_results(all.skip(start as int)) == without_leading_results(
                    all.skip(first as int),
                ),
            decreases history@.len() - first,
        {
            proof {
                assert(all.skip(first as int)[0] == history@[first as int]@);
                assert(all.skip(first as int).skip(1) =~= all.skip(first + 1));
            }
            first += 1;
        }
        proof {
            if first < history@.len() {
                assert(all.skip(first as int)[0] == history@[first as int]@);
            }
        }
        let ghost tail = all.skip(first as int);
        assert(without_leading_results(all.skip(start as int)) == tail);
        let mut out: Vec<Message> = Vec::new();
        let ghost h = head@;
        out.push(head);
        let mut i: usize = first;
        assert(message_models(out@) =~= seq![h] + tail.take(0));
        while i < history.len()
            invariant
                first <= i <= history@.len(),
                all == message_models(history@),
                tail == all.skip(first as int),
                message_models(out@) == seq![h] + tail.take(i - first),
            decreases history@.len() - i,
        {
            let ghost before = message_models(out@);
            out.push(history[i].clone());
            proof {
                assert(message_models(out@) =~= before.push(all[i as int]));
                assert(tail.take(i + 1 - first) =~= tail.take(i - first).push(all[i as int]));
                assert(message_models(out@) =~= seq![h] + tail.take(i + 1 - first));
            }
            i += 1;
        }
        assert(tail.take(i - first) =~= tail);
        out
    }
}

/// A conversation that fits together with the prompt is sent whole, and three quarters of
/// the context are there for it.
pub proof fn law_conversations_that_fit_are_sent_whole(
    m: AssemblerModel,
    msgs: Seq<MessageModel>,
    joints: Seq<Link>,
)
    requires
        msgs.len() == joints.len(),
        message_cost(m.head()) + range_cost(msgs, 0, msgs.len() as int) <= m.available(),
    ensures
        m.start(msgs, joints) == 0,
        msgs.len() > 0 && msgs[0].role != "tool"@ ==> m.request(msgs, joints) == seq![m.head()]
            + msgs,
        m.request(msgs, joints)[0] == m.head(),
{
    let units = units_from(joints, 0);
    let used = message_cost(m.head());
    if units.len() > 0 {
        lemma_units(joints, 0, units.len() - 1);
        lemma_range_cost_part(msgs, 0, units.last().1, msgs.len() as int);
    }
    lemma_all_units_fit(msgs, joints, units.len(), used, m.available());
    if units.len() > 0 {
        lemma_first_starts(joints);
    } else {
        lemma_no_units(joints);
    }
    assert(msgs.skip(0) =~= msgs);
}

proof fn lemma_first_starts(joints: Seq<Link>)
    requires
        units_from(joints, 0).len() > 0,
    ensures
        units_from(joints, 0)[0].0 == 0,
{
}

proof fn lemma_no_units(joints: Seq<Link>)
    requires
        units_from(joints, 0).len() == 0,
    ensures
        joints.len() == 0,
{
}

proof fn lemma_range_cost_part(msgs: Seq<MessageModel>, a: int, b: int, c: int)
    requires
        a <= b <= c,
    ensures
        range_cost(msgs, a, c) == range_cost(msgs, a, b) + range_cost(msgs, b, c),
    decreases c - b,
{
    if b < c {
        lemma_range_cost_part(msgs, a, b, c - 1);
    }
}

proof fn lemma_all_units_fit(
    msgs: Seq<MessageModel>,
    joints: Seq<Link>,
    n: nat,
    used: nat,
    available: nat,
)
    requires
        msgs.len() == joints.len(),
        n <= units_from(joints, 0).len(),
        used + range_cost(
            msgs,
            0,
            if n == 0 {
                0
            } else {
                units_from(joints, 0)[n - 1].1
            },
        ) <= available,
    ensures
        first_unit(msgs, units_from(joints, 0), n, used, available) == 0,
    decreases n,
{
    let units = units_from(joints, 0);
    if n > 0 {
        lemma_units(joints, 0, n - 1);
        let (a, b) = units[n - 1];
        let prev = if n == 1 {
            0
        } else {
            units[n - 2].1
        };
        if n > 1 {
            lemma_units(joints, 0, n - 2);
            lemma_units_ordered(joints, n - 2, n - 1);
        }
        lemma_range_cost_part(msgs, 0, a, b);
        lemma_range_cost_part(msgs, 0, prev, a);
        lemma_all_units_fit(
            msgs,
            joints,
            (n - 1) as nat,
            used + range_cost(msgs, a, b),
            available,
        );
    }
}

/// What is known of the project stands in the prompt, behind what the caller says.
pub proof fn law_prompts_hold_the_project(m: AssemblerModel)
    ensures
        m.project_context is None ==> m.prompt() == m.system_prompt,
        m.project_context is Some ==> starts_with(m.prompt(), m.system_prompt) && contains_text(
            m.prompt(),
            m.project_context->0,
        ),
        m.head().content == m.prompt(),
        m.head().role == "system"@,
        3 * m.max_context_tokens <= u32::MAX ==> 4 * m.available() <= 3 * m.max_context_tokens < 4
            * m.available() + 4,
{
    if m.project_context is Some {
        let c = m.project_context->0;
        let a = "\n\n<project_context>\n"@;
        let z = "\n</project_context>"@;
        lemma_starts_with_part(m.system_prompt, a + c + z);
        assert(m.system_prompt + (a + c + z) =~= m.prompt());
        lemma_contains_part(m.system_prompt + a, c, z);
    }
}

} // verus!

//! Messages gathered into groups, the units in which a conversation is
//! compacted.

use crate::message::{ids_of, opt_text, use_ids, Message, MessageModel};
use crate::pairing::{answers, find_unit_end, lemma_run_end, lemma_unit_end, links, unit_end, Link, PairAwareMessage};
use crate::text::{
    chars_of, chars_start_with, is_space, law_trimming_takes_off_the_space,
    lemma_starts_with_part, lemma_texts_push, same_text, starts_with, str_views, texts,
    trim_start, trimmed_start,
};
use crate::tokens::{estimate_for_text, text_tokens};
use vstd::prelude::*;
use vstd::string::*;

verus! {

broadcast use lemma_texts_push;

// ── Messages ───────────────────────────────────────────────────────────────
/// A message as compaction sees it: its text, what the text costs, and the
/// ids that tie a tool request to the results that answer it.
#[derive(Debug)]
pub struct CompactMessage {
    pub role: String,
    pub content: String,
    pub token_estimate: usize,
    tool_call_ids: Vec<String>,
    tool_use_id: Option<String>,
}

/// The model of a [`CompactMessage`].
pub struct CompactModel {
    pub role: Seq<char>,
    pub content: Seq<char>,
    pub token_estimate: nat,
    pub tool_call_ids: Seq<Seq<char>>,
    pub tool_use_id: Option<Seq<char>>,
}

impl View for CompactMessage {
    type V = CompactModel;

    closed spec fn view(&self) -> CompactModel {
        CompactModel {
            role: self.role@,
            content: self.content@,
            token_estimate: self.token_estimate as nat,
            tool_call_ids: texts(self.tool_call_ids@),
            tool_use_id: opt_text(self.tool_use_id),
        }
    }
}

/// The models of messages.
pub open spec fn message_models(msgs: Seq<CompactMessage>) -> Seq<CompactModel> {
    msgs.map_values(|m: CompactMessage| m@)
}

/// A message with a role and a text, and nothing that pairs it with another.
pub open spec fn plain_model(role: Seq<char>, content: Seq<char>) -> CompactModel {
    CompactModel {
        role,
        content,
        token_estimate: text_tokens(content),
        tool_call_ids: Seq::empty(),
        tool_use_id: None,
    }
}

impl CompactModel {
    /// An assistant message that requests tool calls.
    pub open spec fn is_request(self) -> bool {
        self.role == "assistant"@ && self.tool_call_ids.len() > 0
    }

    /// A tool message that names the call it answers.
    pub open spec fn is_paired_result(self) -> bool {
        self.role == "tool"@ && self.tool_use_id is Some
    }

    /// What ties the message to others.
    pub open spec fn link(self) -> Link {
        Link {
            requests: if self.is_request() {
                Some(self.tool_call_ids)
            } else {
                None
            },
            result: if self.role == "tool"@ {
                self.tool_use_id
            } else {
                None
            },
        }
    }

    /// A tool message that answers one of the calls `ids`.
    pub open spec fn answers(self, ids: Seq<Seq<char>>) -> bool {
        self.is_paired_result() && ids.contains(self.tool_use_id->0)
    }
}

/// The compact form of a provider message. Only an assistant message keeps its
/// tool calls, and only a tool message keeps the id of the call it answers.
pub open spec fn compact_form(m: MessageModel) -> CompactModel {
    CompactModel {
        role: m.role,
        content: m.content_text(),
        token_estimate: text_tokens(m.content_text()),
        tool_call_ids: if m.role == "assistant"@ {
            use_ids(m.tool_calls)
        } else {
            Seq::empty()
        },
        tool_use_id: if m.role == "tool"@ {
            match m.tool_result {
                Some(t) => opt_text(t.tool_use_id),
                None => None,
            }
        } else {
            None
        },
    }
}

impl CompactMessage {
    /// A message with a role and a text.
    pub fn new(role: &str, content: &str) -> (r: CompactMessage)
        ensures
            r@ == plain_model(role@, content@),
    {
        let ids: Vec<String> = Vec::new();
        let r = CompactMessage {
            role: role.to_owned(),
            content: content.to_owned(),
            token_estimate: estimate_for_text(content),
            tool_call_ids: ids,
            tool_use_id: None,
        };
        assert(texts(r.tool_call_ids@) =~= Seq::<Seq<char>>::empty());
        r
    }

    /// An assistant message that requests the tool calls `tool_call_ids`.
    pub fn assistant_with_tool_calls(content: &str, tool_call_ids: &[&str]) -> (r: CompactMessage)
        requires
            tool_call_ids@.len() > 0,
        ensures
            r@ == (CompactModel {
                tool_call_ids: str_views(tool_call_ids@),
                ..plain_model("assistant"@, content@)
            }),
            r@.is_request(),
    {
        let mut msg = CompactMessage::new("assistant", content);
        let mut ids: Vec<String> = Vec::new();
        let mut i: usize = 0;
        while i < tool_call_ids.len()
            invariant
                i <= tool_call_ids@.len(),
                texts(ids@) == str_views(tool_call_ids@).take(i as int),
            decreases tool_call_ids@.len() - i,
        {
            ids.push(tool_call_ids[i].to_owned());
            assert(texts(ids@) =~= str_views(tool_call_ids@).take(i + 1));
            i += 1;
        }
        assert(texts(ids@) =~= str_views(tool_call_ids@));
        msg.tool_call_ids = ids;
        msg
    }

    /// A tool message that answers the call `tool_use_id`.
    pub fn tool_result(content: &str, tool_use_id: &str) -> (r: CompactMessage)
        ensures
            r@ == (CompactModel {
                tool_use_id: Some(tool_use_id@),
                ..plain_model("tool"@, content@)
            }),
            r@.is_paired_result(),
    {
        let mut msg = CompactMessage::new("tool", content);
        msg.tool_use_id = Some(tool_use_id.to_owned());
        msg
    }

    /// The compact form of a provider message.
    pub fn from_message(msg: &Message) -> (r: CompactMessage)
        ensures
            r@ == compact_form(msg@),
    {
        let mut out = CompactMessage::new(msg.role.as_str(), msg.content_text().as_str());
        if same_text(msg.role.as_str(), "assistant") {
            out.tool_call_ids = ids_of(msg.tool_calls.as_slice());
        }
        if same_text(msg.role.as_str(), "tool") {
            out.tool_use_id = match &msg.tool_result {
                Some(t) => t.tool_use_id.clone(),
                None => None,
            };
        }
        out
    }

    /// Who speaks: what the field `role` holds.
    pub fn role(&self) -> (r: &str)
        ensures
            r@ == self@.role,
    {
        self.role.as_str()
    }

    /// The text: what the field `content` holds.
    pub fn content(&self) -> (r: &str)
        ensures
            r@ == self@.content,
    {
        self.content.as_str()
    }

    /// What the text costs: what the field `token_estimate` holds.
    pub fn token_estimate(&self) -> (r: usize)
        ensures
            r == self@.token_estimate,
    {
        self.token_estimate
    }

    /// Whether the message is an assistant message that requests tool calls.
    pub fn is_assistant_tool_request(&self) -> (r: bool)
        ensures
            r == self@.is_request(),
    {
        same_text(self.role.as_str(), "assistant") && !self.tool_call_ids.is_empty()
    }

    /// Whether the message is a tool message that names the call it answers.
    pub fn is_paired_tool_result(&self) -> (r: bool)
        ensures
            r == self@.is_paired_result(),
    {
        same_text(self.role.as_str(), "tool") && self.tool_use_id.is_some()
    }

    /// The ids of the tool calls that the message requests.
    pub fn tool_call_ids(&self) -> (r: &[String])
        ensures
            texts(r@) == self@.tool_call_ids,
    {
        self.tool_call_ids.as_slice()
    }

    /// The id of the tool call that the message answers.
    pub fn tool_use_id(&self) -> (r: Option<&str>)
        ensures
            match r {
                Some(id) => self@.tool_use_id == Some(id@),
                None => self@.tool_use_id is None,
            },
    {
        match &self.tool_use_id {
            Some(s) => Some(s.as_str()),
            None => None,
        }
    }
}

impl Clone for CompactMessage {
    fn clone(&self) -> (r: CompactMessage)
        ensures
            r@ == self@,
    {
        let ids: Vec<String> = self.tool_call_ids.clone();
        assert(texts(ids@) =~= texts(self.tool_call_ids@));
        CompactMessage {
            role: self.role.clone(),
            content: self.content.clone(),
            token_estimate: self.token_estimate,
            tool_call_ids: ids,
            tool_use_id: self.tool_use_id.clone(),
        }
    }
}

impl PairAwareMessage for CompactMessage {
    open spec fn link(&self) -> Link {
        self@.link()
    }

    fn tool_request_ids(&self) -> (r: Option<&Vec<String>>) {
        if self.is_assistant_tool_request() {
            Some(&self.tool_call_ids)
        } else {
            None
        }
    }

    fn tool_result_id(&self) -> (r: Option<&str>) {
        if same_text(self.role.as_str(), "tool") {
            self.tool_use_id()
        } else {
            None
        }
    }
}

// ── Groups ─────────────────────────────────────────────────────────────────
/// What a group of messages is.
#[derive(Debug, Clone, Copy, PartialEq, Eq, Structural)]
pub enum MessageGroupKind {
    System,
    User,
    AssistantText,
    ToolCall,
    Summary,
}

/// Messages that are evicted together.
///
/// A group marked atomic is a tool request with the results that answer it:
/// whatever rewrites or splits groups must leave it alone, and whatever drops
/// groups drops all of it.
#[derive(Debug)]
pub struct MessageGroup {
    pub kind: MessageGroupKind,
    pub messages: Vec<CompactMessage>,
    pub token_count: usize,
    /// The group has been removed logically and stands in for its content.
    pub excluded: bool,
    atomic: bool,
}

/// The model of a [`MessageGroup`].
#[verifier::ext_equal]
pub struct GroupModel {
    pub kind: MessageGroupKind,
    pub messages: Seq<CompactModel>,
    pub token_count: nat,
    pub excluded: bool,
    pub atomic: bool,
}

impl View for MessageGroup {
    type V = GroupModel;

    closed spec fn view(&self) -> GroupModel {
        GroupModel {
            kind: self.kind,
            messages: message_models(self.messages@),
            token_count: self.token_count as nat,
            excluded: self.excluded,
            atomic: self.atomic,
        }
    }
}

/// The models of groups.
pub open spec fn models(groups: Seq<MessageGroup>) -> Seq<GroupModel> {
    groups.map_values(|g: MessageGroup| g@)
}

/// A group with nothing in it.
pub open spec fn empty_group(kind: MessageGroupKind) -> GroupModel {
    GroupModel { kind, messages: Seq::empty(), token_count: 0, excluded: false, atomic: false }
}

/// What the messages cost together.
pub open spec fn sum_estimates(msgs: Seq<CompactModel>) -> nat
    decreases msgs.len(),
{
    if msgs.len() == 0 {
        0
    } else {
        sum_estimates(msgs.drop_last()) + msgs.last().token_estimate
    }
}

/// What the groups cost together.
pub open spec fn sum_tokens(groups: Seq<GroupModel>) -> nat
    decreases groups.len(),
{
    if groups.len() == 0 {
        0
    } else {
        sum_tokens(groups.drop_last()) + groups.last().token_count
    }
}

impl GroupModel {
    /// The group with one more message.
    pub open spec fn with_message(self, m: CompactModel) -> GroupModel {
        GroupModel {
            messages: self.messages.push(m),
            token_count: self.token_count + m.token_estimate,
            ..self
        }
    }

    /// Whether the group holds what the system says.
    pub open spec fn is_system(self) -> bool {
        self.kind == MessageGroupKind::System
    }
}

impl MessageGroup {
    /// A group with nothing in it.
    pub fn new(kind: MessageGroupKind) -> (r: MessageGroup)
        ensures
            r@ == empty_group(kind),
    {
        let messages: Vec<CompactMessage> = Vec::new();
        assert(message_models(messages@) =~= Seq::<CompactModel>::empty());
        MessageGroup { kind, messages, token_count: 0, excluded: false, atomic: false }
    }

    /// Adds a message at the end of the group.
    pub fn add_message(&mut self, msg: CompactMessage)
        requires
            old(self)@.token_count + msg@.token_estimate <= usize::MAX,
        ensures
            final(self)@ == old(self)@.with_message(msg@),
    {
        let ghost before = self.messages@;
        self.token_count = self.token_count + msg.token_estimate;
        self.messages.push(msg);
        assert(message_models(self.messages@) =~= message_models(before).push(msg@));
    }

    /// What the group costs: what the field `token_count` holds.
    pub fn total_tokens(&self) -> (r: usize)
        ensures
            r == self@.token_count,
    {
        self.token_count
    }

    /// Whether the group holds what the system says.
    pub fn is_system(&self) -> (r: bool)
        ensures
            r == self@.is_system(),
    {
        self.kind == MessageGroupKind::System
    }

    /// Whether the messages of the group must stay together.
    pub fn is_atomic(&self) -> (r: bool)
        ensures
            r == self@.atomic,
    {
        self.atomic
    }

    /// Marks the group: its messages must stay together.
    pub fn mark_atomic(&mut self)
        ensures
            final(self)@ == (GroupModel { atomic: true, ..old(self)@ }),
    {
        self.atomic = true;
    }

    /// What the group is: what the field `kind` holds.
    pub fn kind(&self) -> (r: MessageGroupKind)
        ensures
            r == self@.kind,
    {
        self.kind
    }

    /// The messages of the group: what the field `messages` holds.
    pub fn messages(&self) -> (r: &[CompactMessage])
        ensures
            message_models(r@) == self@.messages,
    {
        self.messages.as_slice()
    }

    /// Whether the group is taken out: what the field `excluded` holds.
    pub fn is_excluded(&self) -> (r: bool)
        ensures
            r == self@.excluded,
    {
        self.excluded
    }

    /// Replaces the cost of the group, and takes it out of the conversation.
    pub(crate) fn exclude(&mut self, token_count: usize)
        ensures
            final(self)@ == (GroupModel {
                token_count: token_count as nat,
                excluded: true,
                ..old(self)@
            }),
    {
        self.token_count = token_count;
        self.excluded = true;
    }
}

impl Clone for MessageGroup {
    fn clone(&self) -> (r: MessageGroup)
        ensures
            r@ == self@,
    {
        let messages: Vec<CompactMessage> = self.messages.clone();
        assert(message_models(messages@) =~= message_models(self.messages@));
        MessageGroup {
            kind: self.kind,
            messages,
            token_count: self.token_count,
            excluded: self.excluded,
            atomic: self.atomic,
        }
    }
}

// ── Classification ─────────────────────────────────────────────────────────
/// What a message with this role and text is.
pub open spec fn kind_of_role(role: Seq<char>, content: Seq<char>) -> MessageGroupKind {
    if role == "system"@ {
        MessageGroupKind::System
    } else if role == "user"@ {
        MessageGroupKind::User
    } else if role == "tool"@ {
        MessageGroupKind::ToolCall
    } else if role == "assistant"@ {
        if starts_with(trim_start(content), "<tool_call>"@) {
            MessageGroupKind::ToolCall
        } else {
            MessageGroupKind::AssistantText
        }
    } else {
        MessageGroupKind::User
    }
}

/// What a message is.
pub open spec fn kind_of(m: CompactModel) -> MessageGroupKind {
    if m.is_paired_result() {
        MessageGroupKind::ToolCall
    } else {
        kind_of_role(m.role, m.content)
    }
}

/// What a message with this role and text is. An assistant text that begins
/// with the `<tool_call>` marker is a tool call.
pub fn classify_role(role: &str, content: &str) -> (r: MessageGroupKind)
    ensures
        r == kind_of_role(role@, content@),
{
    if same_text(role, "system") {
        MessageGroupKind::System
    } else if same_text(role, "user") {
        MessageGroupKind::User
    } else if same_text(role, "tool") {
        MessageGroupKind::ToolCall
    } else if same_text(role, "assistant") {
        let c = chars_of(content);
        if chars_start_with(trimmed_start(c.as_slice()), "<tool_call>") {
            MessageGroupKind::ToolCall
        } else {
            MessageGroupKind::AssistantText
        }
    } else {
        MessageGroupKind::User
    }
}

/// What a message is. Requests are not classified: they head a group of their
/// own.
pub fn classify_message(msg: &CompactMessage) -> (r: MessageGroupKind)
    requires
        !msg@.is_request(),
    ensures
        r == kind_of(msg@),
{
    if msg.is_paired_tool_result() {
        return MessageGroupKind::ToolCall;
    }
    classify_role(msg.role.as_str(), msg.content.as_str())
}

// ── Grouping ───────────────────────────────────────────────────────────────
/// The atomic group of a request and its results.
pub open spec fn atomic_group(msgs: Seq<CompactModel>) -> GroupModel {
    GroupModel {
        kind: MessageGroupKind::ToolCall,
        messages: msgs,
        token_count: sum_estimates(msgs),
        excluded: false,
        atomic: true,
    }
}

/// A message joins the last group: same kind, not what the system says, and
/// the group is not atomic.
pub open spec fn joins_last(groups: Seq<GroupModel>, m: CompactModel) -> bool {
    &&& groups.len() > 0
    &&& kind_of(m) != MessageGroupKind::System
    &&& groups.last().kind == kind_of(m)
    &&& !groups.last().atomic
}

/// The links of messages.
pub open spec fn model_links(msgs: Seq<CompactModel>) -> Seq<Link> {
    msgs.map_values(|m: CompactModel| m.link())
}

/// The groups once the unit `start..end` of `msgs` has been added.
pub open spec fn add_unit(
    groups: Seq<GroupModel>,
    msgs: Seq<CompactModel>,
    start: int,
    end: int,
) -> Seq<GroupModel> {
    let m = msgs[start];
    if m.is_request() {
        groups.push(atomic_group(msgs.subrange(start, end)))
    } else if joins_last(groups, m) {
        groups.update(groups.len() - 1, groups.last().with_message(m))
    } else {
        groups.push(empty_group(kind_of(m)).with_message(m))
    }
}

/// The groups once the units of `msgs` from `i` on have been added.
pub open spec fn group_from(
    groups: Seq<GroupModel>,
    msgs: Seq<CompactModel>,
    i: int,
) -> Seq<GroupModel>
    decreases msgs.len() - i,
    via group_from_shrink
{
    if 0 <= i < msgs.len() {
        group_from(add_unit(groups, msgs, i, unit_end(model_links(msgs), i)), msgs, unit_end(model_links(msgs), i))
    } else {
        groups
    }
}

#[via_fn]
proof fn group_from_shrink(groups: Seq<GroupModel>, msgs: Seq<CompactModel>, i: int) {
    if 0 <= i < msgs.len() {
        lemma_unit_end(model_links(msgs), i);
    }
}

/// The groups of `msgs`.
pub open spec fn grouped(msgs: Seq<CompactModel>) -> Seq<GroupModel> {
    group_from(Seq::empty(), msgs, 0)
}

/// The messages of the groups, in order.
pub open spec fn flat(groups: Seq<GroupModel>) -> Seq<CompactModel>
    decreases groups.len(),
{
    if groups.len() == 0 {
        Seq::empty()
    } else {
        flat(groups.drop_last()) + groups.last().messages
    }
}

/// What holds of every group that grouping makes.
pub open spec fn well_grouped(g: GroupModel) -> bool {
    &&& !g.excluded
    &&& g.messages.len() > 0
    &&& g.token_count == sum_estimates(g.messages)
    &&& g.kind != MessageGroupKind::Summary
    &&& g.kind == MessageGroupKind::System ==> g.messages.len() == 1
    &&& if g.atomic {
        &&& g.kind == MessageGroupKind::ToolCall
        &&& g.messages[0].is_request()
        &&& forall|j: int|
            1 <= j < g.messages.len() ==> (#[trigger] g.messages[j]).answers(
                g.messages[0].tool_call_ids,
            )
    } else {
        forall|j: int|
            0 <= j < g.messages.len() ==> !(#[trigger] g.messages[j]).is_request() && kind_of(
                g.messages[j],
            ) == g.kind
    }
}

/// What holds of two groups in a row: messages that belong together are not in
/// two groups.
pub open spec fn apart(a: GroupModel, b: GroupModel) -> bool {
    &&& a.atomic ==> !b.messages[0].answers(a.messages[0].tool_call_ids)
    &&& !a.atomic && !b.atomic && a.kind == b.kind ==> a.kind == MessageGroupKind::System
}

/// Everything that holds of the groups of `msgs`.
pub open spec fn well_formed(groups: Seq<GroupModel>) -> bool {
    &&& forall|k: int| 0 <= k < groups.len() ==> well_grouped(#[trigger] groups[k])
    &&& forall|k: int, l: int|
        0 <= k && l == k + 1 && l < groups.len() ==> apart(#[trigger] groups[k], #[trigger] groups[l])
}

proof fn lemma_sum_estimates_concat(a: Seq<CompactModel>, b: Seq<CompactModel>)
    ensures
        sum_estimates(a + b) == sum_estimates(a) + sum_estimates(b),
    decreases b.len(),
{
    if b.len() == 0 {
        assert(a + b =~= a);
    } else {
        assert((a + b).drop_last() =~= a + b.drop_last());
        lemma_sum_estimates_concat(a, b.drop_last());
    }
}

proof fn lemma_sum_estimates_part(msgs: Seq<CompactModel>, i: int, j: int)
    requires
        0 <= i <= j <= msgs.len(),
    ensures
        sum_estimates(msgs.subrange(i, j)) <= sum_estimates(msgs),
{
    let a = msgs.subrange(0, i);
    let b = msgs.subrange(i, j);
    let c = msgs.subrange(j, msgs.len() as int);
    assert(a + b + c =~= msgs);
    lemma_sum_estimates_concat(a + b, c);
    lemma_sum_estimates_concat(a, b);
}

proof fn lemma_flat_push(groups: Seq<GroupModel>, g: GroupModel)
    ensures
        flat(groups.push(g)) == flat(groups) + g.messages,
{
    assert(groups.push(g).drop_last() =~= groups);
}

proof fn lemma_flat_update_last(groups: Seq<GroupModel>, m: CompactModel)
    requires
        groups.len() > 0,
    ensures
        flat(groups.update(groups.len() - 1, groups.last().with_message(m))) == flat(groups).push(
            m,
        ),
{
    let after = groups.update(groups.len() - 1, groups.last().with_message(m));
    assert(after.drop_last() =~= groups.drop_last());
    assert(after.last() == groups.last().with_message(m));
    assert(flat(after) =~= flat(groups).push(m));
}

/// One unit more: the groups hold the messages up to it, and stay well formed.
proof fn lemma_add_unit(groups: Seq<GroupModel>, msgs: Seq<CompactModel>, i: int)
    requires
        0 <= i < msgs.len(),
        well_formed(groups),
        flat(groups) == msgs.take(i),
        groups.len() > 0 && groups.last().atomic ==> !msgs[i].answers(
            groups.last().messages[0].tool_call_ids,
        ),
    ensures
        ({
            let end = unit_end(model_links(msgs), i);
            let after = add_unit(groups, msgs, i, end);
            &&& i < end <= msgs.len()
            &&& well_formed(after)
            &&& flat(after) == msgs.take(end)
            &&& after.len() > 0
            &&& after.last().atomic && end < msgs.len() ==> !msgs[end].answers(
                after.last().messages[0].tool_call_ids,
            )
        }),
{
    lemma_unit_end(model_links(msgs), i);
    let end = unit_end(model_links(msgs), i);
    let after = add_unit(groups, msgs, i, end);
    let m = msgs[i];
    if m.is_request() {
        let ids = m.tool_call_ids;
        lemma_run_end(model_links(msgs), ids, i + 1);
        let part = msgs.subrange(i, end);
        let g = atomic_group(part);
        lemma_flat_push(groups, g);
        assert(flat(after) =~= msgs.take(end));
        assert(part[0] == m);
        assert forall|j: int| 1 <= j < part.len() implies (#[trigger] part[j]).answers(ids) by {
            assert(answers(model_links(msgs)[i + j], ids));
        }
        assert(well_grouped(g));
    } else if joins_last(groups, m) {
        lemma_flat_update_last(groups, m);
        assert(flat(after) =~= msgs.take(end));
        let g = groups.last();
        let h = g.with_message(m);
        assert(well_grouped(g)) by {
            assert(groups[groups.len() - 1] == g);
        }
        assert(h.messages.drop_last() =~= g.messages);
        assert(well_grouped(h)) by {
            assert forall|j: int| 0 <= j < h.messages.len() implies !(
            #[trigger] h.messages[j]).is_request() && kind_of(h.messages[j]) == h.kind by {
                if j < g.messages.len() {
                    assert(h.messages[j] == g.messages[j]);
                }
            }
        }
        assert(h.messages[0] == g.messages[0]);
    } else {
        let g = empty_group(kind_of(m)).with_message(m);
        lemma_flat_push(groups, g);
        assert(g.messages =~= seq![m]);
        reveal_with_fuel(sum_estimates, 2);
        assert(g.messages.drop_last() =~= Seq::<CompactModel>::empty());
        assert(sum_estimates(g.messages) == m.token_estimate);
        assert(flat(after) =~= msgs.take(end));
        assert(well_grouped(g));
        if groups.len() > 0 {
            assert(well_grouped(groups[groups.len() - 1]));
        }
    }
}

proof fn lemma_group_from(groups: Seq<GroupModel>, msgs: Seq<CompactModel>, i: int)
    requires
        0 <= i <= msgs.len(),
        well_formed(groups),
        flat(groups) == msgs.take(i),
        groups.len() > 0 && groups.last().atomic && i < msgs.len() ==> !msgs[i].answers(
            groups.last().messages[0].tool_call_ids,
        ),
    ensures
        well_formed(group_from(groups, msgs, i)),
        flat(group_from(groups, msgs, i)) == msgs,
    decreases msgs.len() - i,
{
    if i < msgs.len() {
        lemma_add_unit(groups, msgs, i);
        lemma_group_from(
            add_unit(groups, msgs, i, unit_end(model_links(msgs), i)),
            msgs,
            unit_end(model_links(msgs), i),
        );
    } else {
        assert(msgs.take(i) =~= msgs);
    }
}

/// Grouping loses no message, adds none and keeps their order.
pub proof fn law_grouping_keeps_messages(msgs: Seq<CompactModel>)
    ensures
        flat(grouped(msgs)) == msgs,
{
    assert(msgs.take(0) =~= Seq::<CompactModel>::empty());
    lemma_group_from(Seq::empty(), msgs, 0);
}

/// A system message is alone in its group; the messages of any other group are
/// of one kind; an atomic group is a request with the results that answer it;
/// and no two groups in a row could have been one.
pub proof fn law_grouping_is_well_formed(msgs: Seq<CompactModel>)
    ensures
        well_formed(grouped(msgs)),
{
    assert(msgs.take(0) =~= Seq::<CompactModel>::empty());
    lemma_group_from(Seq::empty(), msgs, 0);
}

/// What a group that grouping makes costs is no more than all the messages do.
proof fn lemma_group_cost(groups: Seq<GroupModel>, k: int)
    requires
        well_formed(groups),
        0 <= k < groups.len(),
    ensures
        groups[k].token_count <= sum_estimates(flat(groups)),
    decreases groups.len(),
{
    assert(well_grouped(groups[k]));
    lemma_sum_estimates_concat(flat(groups.drop_last()), groups.last().messages);
    if k < groups.len() - 1 {
        assert(groups.drop_last()[k] == groups[k]);
        assert forall|j: int| 0 <= j < groups.len() - 1 implies well_grouped(
            #[trigger] groups.drop_last()[j],
        ) by {
            assert(well_grouped(groups[j]));
        }
        assert forall|j: int, l: int| 0 <= j && l == j + 1 && l < groups.len() - 1 implies apart(
            #[trigger] groups.drop_last()[j],
            #[trigger] groups.drop_last()[l],
        ) by {
            assert(apart(groups[j], groups[l]));
        }
        lemma_group_cost(groups.drop_last(), k);
    }
}

/// Gathers messages into groups.
///
/// A request for tool calls and the results that directly follow and answer it
/// form one atomic group. Of the other messages, those in a row of one kind
/// form a group, except that a system message is always alone.
pub fn build_message_groups(messages: &[CompactMessage]) -> (r: Vec<MessageGroup>)
    requires
        sum_estimates(message_models(messages@)) <= usize::MAX,
    ensures
        models(r@) == grouped(message_models(messages@)),
{
    let mut groups: Vec<MessageGroup> = Vec::new();
    let mut i: usize = 0;
    let ghost all = message_models(messages@);
    proof {
        assert(models(groups@) =~= Seq::<GroupModel>::empty());
        assert(all.take(0) =~= Seq::<CompactModel>::empty());
        assert(links(messages@) =~= model_links(all));
    }
    while i < messages.len()
        invariant
            i <= messages@.len(),
            all == message_models(messages@),
            sum_estimates(all) <= usize::MAX,
            links(messages@) == model_links(all),
            group_from(models(groups@), all, i as int) == grouped(all),
            well_formed(models(groups@)),
            flat(models(groups@)) == all.take(i as int),
            models(groups@).len() > 0 && models(groups@).last().atomic && i < messages@.len()
                ==> !all[i as int].answers(
                models(groups@).last().messages[0].tool_call_ids,
            ),
        decreases messages@.len() - i,
    {
        let end: usize = find_unit_end(messages, i);
        let ghost before = models(groups@);
        proof {
            lemma_add_unit(before, all, i as int);
        }
        let first = &messages[i];
        let n: usize = groups.len();
        if first.is_assistant_tool_request() {
            let mut group = MessageGroup::new(MessageGroupKind::ToolCall);
            group.mark_atomic();
            let mut j: usize = i;
            while j < end
                invariant
                    i <= j <= end <= messages@.len(),
                    all == message_models(messages@),
                    sum_estimates(all) <= usize::MAX,
                    group@.messages == all.subrange(i as int, j as int),
                    group@ == atomic_group(group@.messages),
                decreases end - j,
            {
                proof {
                    let next = all.subrange(i as int, j + 1);
                    assert(next.drop_last() =~= group@.messages);
                    lemma_sum_estimates_part(all, i as int, j + 1);
                    assert(next =~= group@.messages.push(messages@[j as int]@));
                }
                group.add_message(messages[j].clone());
                j += 1;
            }
            groups.push(group);
            assert(models(groups@) =~= add_unit(before, all, i as int, end as int));
        } else {
            let kind = classify_message(first);
            let merge = n > 0 && kind != MessageGroupKind::System && groups[n - 1].kind == kind
                && !groups[n - 1].is_atomic();
            proof {
                let m = first@;
                lemma_sum_estimates_part(all, 0, i + 1);
                assert(all.subrange(0, i + 1) =~= all.take(i as int).push(
                    m,
                ));
                assert(all.take(i as int).push(m).drop_last()
                    =~= all.take(i as int));
                if n > 0 {
                    assert(before.last() == groups@[n - 1]@);
                    lemma_group_cost(before, n - 1);
                }
                assert(merge == joins_last(before, m));
            }
            if merge {
                let last = &mut groups[n - 1];
                last.add_message(first.clone());
            } else {
                let mut group = MessageGroup::new(kind);
                group.add_message(first.clone());
                groups.push(group);
            }
            assert(models(groups@) =~= add_unit(before, all, i as int, end as int));
        }
        i = end;
    }
    groups
}

/// Gathers provider messages into groups.
pub fn build_message_groups_from_provider(messages: &[Message]) -> (r: Vec<MessageGroup>)
    requires
        sum_estimates(compact_forms(messages@)) <= usize::MAX,
    ensures
        models(r@) == grouped(compact_forms(messages@)),
{
    let mut compact: Vec<CompactMessage> = Vec::new();
    let mut i: usize = 0;
    while i < messages.len()
        invariant
            i <= messages@.len(),
            message_models(compact@) == compact_forms(messages@).take(i as int),
        decreases messages@.len() - i,
    {
        let ghost before = message_models(compact@);
        let c = CompactMessage::from_message(&messages[i]);
        compact.push(c);
        assert(message_models(compact@) =~= before.push(c@));
        assert(message_models(compact@) =~= compact_forms(messages@).take(i + 1));
        i += 1;
    }
    assert(message_models(compact@) =~= compact_forms(messages@));
    build_message_groups(compact.as_slice())
}

/// The compact forms of provider messages.
pub open spec fn compact_forms(msgs: Seq<Message>) -> Seq<CompactModel> {
    msgs.map_values(|m: Message| compact_form(m@))
}

/// A message is of the kind of who says it. What an assistant says is a tool call if it
/// begins with the sign of one, and what nobody known says counts as the user's.
pub proof fn law_kinds_follow_the_role(content: Seq<char>, role: Seq<char>)
    ensures
        kind_of_role("system"@, content) == MessageGroupKind::System,
        kind_of_role("user"@, content) == MessageGroupKind::User,
        kind_of_role("tool"@, content) == MessageGroupKind::ToolCall,
        kind_of_role("assistant"@, "<tool_call>"@ + content) == MessageGroupKind::ToolCall,
        !content.contains('<') ==> kind_of_role("assistant"@, content)
            == MessageGroupKind::AssistantText,
        role != "system"@ && role != "tool"@ && role != "assistant"@ ==> kind_of_role(role, content)
            == MessageGroupKind::User,
{
    reveal_strlit("system");
    reveal_strlit("user");
    reveal_strlit("tool");
    reveal_strlit("assistant");
    assert("system"@.len() == 6 && "user"@.len() == 4 && "tool"@.len() == 4);
    assert("assistant"@.len() == 9 && "user"@[0] == 'u' && "tool"@[0] == 't');
    reveal_strlit("<tool_call>");
    let s = "<tool_call>"@ + content;
    assert(s[0] == '<');
    assert(!is_space('<'));
    assert(trim_start(s) == s);
    lemma_starts_with_part("<tool_call>"@, content);
    if !content.contains('<') {
        let t = trim_start(content);
        law_trimming_takes_off_the_space(content);
        let a = choose|a: int|
            {
                &&& 0 <= a <= content.len()
                &&& t == #[trigger] content.skip(a)
                &&& forall|i: int| 0 <= i < a ==> is_space(#[trigger] content[i])
                &&& a < content.len() ==> !is_space(content[a])
            };
        if starts_with(t, "<tool_call>"@) {
            assert(t.subrange(0, 11)[0] == t[0]);
            assert(t[0] == content[a]);
            assert(content.contains(content[a]));
        }
    }
}

/// A message in short says what the message says, and costs what its text does; only an
/// assistant's names calls, and only a tool's names the call that it answers.
pub proof fn law_short_forms_keep_the_message(m: MessageModel)
    ensures
        compact_form(m).role == m.role,
        compact_form(m).content == m.content_text(),
        compact_form(m).token_estimate == text_tokens(m.content_text()),
        m.role == "assistant"@ ==> compact_form(m).tool_call_ids == use_ids(m.tool_calls)
            && compact_form(m).tool_use_id is None,
        m.role != "assistant"@ ==> compact_form(m).tool_call_ids.len() == 0,
        m.role == "tool"@ && m.tool_result is Some ==> compact_form(m).tool_use_id == opt_text(
            m.tool_result->0.tool_use_id,
        ),
        m.role != "tool"@ ==> compact_form(m).tool_use_id is None,
{
    reveal_strlit("tool");
    reveal_strlit("assistant");
    assert("assistant"@.len() == 9 && "tool"@.len() == 4);
}

} // verus!

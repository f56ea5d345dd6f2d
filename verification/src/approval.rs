//! Waiting for the user to approve a tool call.
//!
//! A reply may belong to an earlier question. Such a reply is thrown away, and
//! up to eight more that are already there are looked through for the right
//! one.

use crate::agent_run::request_id;
use crate::events::{
    event_models, lemma_events_empty, lemma_events_push, AgentEvent, EventModel, OutcomeModel,
    PermissionOutcome,
};
use crate::message::ToolUse;
use crate::text::same_text;
use vstd::prelude::*;
use vstd::string::*;

verus! {

broadcast use {lemma_events_push, lemma_events_empty};

/// How many replies are looked through after a stale one.
pub const DRAIN_LIMIT: u32 = 8;

/// What came of waiting for the first reply.
#[derive(Debug)]
pub enum FirstReply {
    /// None came in time.
    TimedOut,
    /// None can come, or nobody was asked.
    Closed,
    Reply { id: String, approved: bool },
}

/// Where the question stands.
#[derive(Debug)]
pub enum Approval {
    /// It is answered.
    Settled(PermissionOutcome),
    /// Another reply that is already there is to be looked at.
    Draining { expected: String, last_seen: String, left: u32 },
}

/// The model of an [`Approval`].
pub enum ApprovalModel {
    Settled(OutcomeModel),
    Draining { expected: Seq<char>, last_seen: Seq<char>, left: nat },
}

impl View for Approval {
    type V = ApprovalModel;

    open spec fn view(&self) -> ApprovalModel {
        match self {
            Approval::Settled(o) => ApprovalModel::Settled(o@),
            Approval::Draining { expected, last_seen, left } => ApprovalModel::Draining {
                expected: expected@,
                last_seen: last_seen@,
                left: *left as nat,
            },
        }
    }
}

/// What a yes or no means.
pub open spec fn answer(approved: bool) -> OutcomeModel {
    if approved {
        OutcomeModel::Approved
    } else {
        OutcomeModel::Denied
    }
}

/// What is told of a reply that was thrown away.
pub open spec fn thrown_away(expected: Seq<char>, id: Seq<char>) -> EventModel {
    EventModel::DrainedStaleApproval { expected, drained: id }
}

/// Where the question `expected` stands after the first reply, which was
/// waited for `secs` seconds.
pub open spec fn after_first(expected: Seq<char>, first: FirstReply, secs: u64) -> ApprovalModel {
    match first {
        FirstReply::TimedOut => ApprovalModel::Settled(
            OutcomeModel::TimedOut { waited_secs: secs },
        ),
        FirstReply::Closed => ApprovalModel::Settled(OutcomeModel::ChannelClosed),
        FirstReply::Reply { id, approved } => if id@ == expected {
            ApprovalModel::Settled(answer(approved))
        } else {
            ApprovalModel::Draining { expected, last_seen: id@, left: DRAIN_LIMIT as nat }
        },
    }
}

/// What is told of the first reply.
pub open spec fn first_events(expected: Seq<char>, first: FirstReply) -> Seq<EventModel> {
    match first {
        FirstReply::Reply { id, .. } => if id@ == expected {
            Seq::empty()
        } else {
            seq![thrown_away(expected, id@)]
        },
        _ => Seq::empty(),
    }
}

/// Where the question stands after another reply, or after there was none.
pub open spec fn after_next(
    expected: Seq<char>,
    last_seen: Seq<char>,
    left: nat,
    next: Option<(Seq<char>, bool)>,
) -> ApprovalModel {
    match next {
        Some((id, approved)) => if id == expected {
            ApprovalModel::Settled(answer(approved))
        } else if left > 1 {
            ApprovalModel::Draining { expected, last_seen: id, left: (left - 1) as nat }
        } else {
            ApprovalModel::Settled(OutcomeModel::MismatchedId { expected, got: id })
        },
        None => ApprovalModel::Settled(OutcomeModel::MismatchedId { expected, got: last_seen }),
    }
}

/// What is told of another reply.
pub open spec fn next_events(expected: Seq<char>, next: Option<(Seq<char>, bool)>) -> Seq<
    EventModel,
> {
    match next {
        Some((id, _)) => if id == expected {
            Seq::empty()
        } else {
            seq![thrown_away(expected, id)]
        },
        None => Seq::empty(),
    }
}

/// The model of a reply.
pub open spec fn reply_model(next: Option<(String, bool)>) -> Option<(Seq<char>, bool)> {
    match next {
        Some((id, approved)) => Some((id@, approved)),
        None => None,
    }
}

fn settle(approved: bool) -> (r: PermissionOutcome)
    ensures
        r@ == answer(approved),
{
    if approved {
        PermissionOutcome::Approved
    } else {
        PermissionOutcome::Denied
    }
}

/// What is told once the question whether `call` may be made is answered.
pub open spec fn decision_events(call: ToolUse, outcome: OutcomeModel, latency_ms: u64) -> Seq<
    EventModel,
> {
    seq![
        EventModel::PermissionDecision {
            id: "perm_"@ + call.id@,
            capability: call.name@,
            outcome,
        },
        EventModel::ApprovalDecided {
            tool: call.name@,
            outcome,
            latency_ms: if latency_ms <= u32::MAX {
                latency_ms as u32
            } else {
                u32::MAX
            },
        },
    ]
}

/// What is told once the question whether `call` may be made is answered, which
/// took `latency_ms` milliseconds.
pub fn decided(call: &ToolUse, outcome: &PermissionOutcome, latency_ms: u64) -> (r: Vec<AgentEvent>)
    ensures
        event_models(r@) == decision_events(*call, outcome@, latency_ms),
{
    let mut events: Vec<AgentEvent> = Vec::new();
    events.push(
        AgentEvent::PermissionDecision {
            id: request_id(call.id.as_str()),
            capability: call.name.clone(),
            outcome: outcome.clone(),
        },
    );
    events.push(
        AgentEvent::ApprovalDecided {
            tool: call.name.clone(),
            outcome: outcome.clone(),
            latency_ms: if latency_ms <= u32::MAX as u64 {
                latency_ms as u32
            } else {
                u32::MAX
            },
        },
    );
    assert(event_models(events@) =~= decision_events(*call, outcome@, latency_ms));
    events
}

/// The first reply to the question `expected` has come, or none has.
pub fn first_reply(expected: &str, first: FirstReply, waited_secs: u64) -> (r: (
    Approval,
    Vec<AgentEvent>,
))
    ensures
        r.0@ == after_first(expected@, first, waited_secs),
        event_models(r.1@) == first_events(expected@, first),
{
    let mut events: Vec<AgentEvent> = Vec::new();
    match first {
        FirstReply::TimedOut => (
            Approval::Settled(PermissionOutcome::TimedOut { waited_secs }),
            events,
        ),
        FirstReply::Closed => (Approval::Settled(PermissionOutcome::ChannelClosed), events),
        FirstReply::Reply { id, approved } => {
            if same_text(id.as_str(), expected) {
                return (Approval::Settled(settle(approved)), events);
            }
            events.push(
                AgentEvent::DrainedStaleApproval {
                    expected: expected.to_owned(),
                    drained: id.clone(),
                },
            );
            assert(event_models(events@) =~= first_events(expected@, first));
            (
                Approval::Draining {
                    expected: expected.to_owned(),
                    last_seen: id,
                    left: DRAIN_LIMIT,
                },
                events,
            )
        },
    }
}

/// Another reply was there, or none was.
pub fn next_reply(expected: &str, last_seen: &str, left: u32, next: Option<(String, bool)>) -> (r: (
    Approval,
    Vec<AgentEvent>,
))
    ensures
        r.0@ == after_next(expected@, last_seen@, left as nat, reply_model(next)),
        event_models(r.1@) == next_events(expected@, reply_model(next)),
{
    let mut events: Vec<AgentEvent> = Vec::new();
    match next {
        Some((id, approved)) => {
            if same_text(id.as_str(), expected) {
                return (Approval::Settled(settle(approved)), events);
            }
            events.push(
                AgentEvent::DrainedStaleApproval {
                    expected: expected.to_owned(),
                    drained: id.clone(),
                },
            );
            assert(event_models(events@) =~= next_events(expected@, reply_model(next)));
            if left > 1 {
                (
                    Approval::Draining {
                        expected: expected.to_owned(),
                        last_seen: id,
                        left: left - 1,
                    },
                    events,
                )
            } else {
                (
                    Approval::Settled(
                        PermissionOutcome::MismatchedId { expected: expected.to_owned(), got: id },
                    ),
                    events,
                )
            }
        },
        None => (
            Approval::Settled(
                PermissionOutcome::MismatchedId {
                    expected: expected.to_owned(),
                    got: last_seen.to_owned(),
                },
            ),
            events,
        ),
    }
}

/// What comes of a question once the replies that are there have been looked
/// through, from `left` tries on.
pub open spec fn drained(
    expected: Seq<char>,
    last_seen: Seq<char>,
    left: nat,
    later: Seq<(Seq<char>, bool)>,
) -> OutcomeModel
    decreases left,
{
    let next = if later.len() == 0 {
        None
    } else {
        Some(later[0])
    };
    match after_next(expected, last_seen, left, next) {
        ApprovalModel::Settled(o) => o,
        ApprovalModel::Draining { last_seen: seen, left: rest, .. } => if rest < left {
            drained(expected, seen, rest, later.subrange(1, later.len() as int))
        } else {
            OutcomeModel::ChannelClosed
        },
    }
}

/// A tool call is approved only by a reply with its own id that says so: the
/// first reply or one of the eight that follow. A stale reply never approves
/// it.
pub proof fn law_only_its_own_reply_approves(
    expected: Seq<char>,
    last_seen: Seq<char>,
    left: nat,
    later: Seq<(Seq<char>, bool)>,
)
    requires
        drained(expected, last_seen, left, later) is Approved,
        left >= 1,
    ensures
        exists|k: int| 0 <= k < left && k < later.len() && later[k] == (expected, true),
    decreases left,
{
    if later.len() > 0 {
        if later[0].0 == expected {
            assert(later[0] == (expected, true));
        } else if left > 1 {
            let rest = later.subrange(1, later.len() as int);
            law_only_its_own_reply_approves(expected, later[0].0, (left - 1) as nat, rest);
            let k = choose|k: int| 0 <= k < left - 1 && k < rest.len() && rest[k] == (expected, true);
            assert(later[k + 1] == rest[k]);
        }
    }
}

/// A first reply with another id approves nothing by itself.
pub proof fn law_stale_first_reply_is_not_an_answer(expected: Seq<char>, first: FirstReply, secs: u64)
    requires
        first matches FirstReply::Reply { id, .. } && id@ != expected,
    ensures
        after_first(expected, first, secs) is Draining,
{
}

/// The first reply with the id of the question decides it as that reply says, if it is
/// among those that are looked at.
pub proof fn law_its_own_reply_decides(
    expected: Seq<char>,
    last_seen: Seq<char>,
    left: nat,
    later: Seq<(Seq<char>, bool)>,
    k: int,
)
    requires
        0 <= k < left,
        k < later.len(),
        later[k].0 == expected,
        forall|j: int| 0 <= j < k ==> (#[trigger] later[j]).0 != expected,
    ensures
        drained(expected, last_seen, left, later) == (if later[k].1 {
            OutcomeModel::Approved
        } else {
            OutcomeModel::Denied
        }),
    decreases left,
{
    if k > 0 {
        assert(later[0].0 != expected);
        let rest = later.subrange(1, later.len() as int);
        assert forall|j: int| 0 <= j < k - 1 implies (#[trigger] rest[j]).0 != expected by {
            assert(rest[j] == later[j + 1]);
        }
        assert(rest[k - 1] == later[k]);
        law_its_own_reply_decides(expected, later[0].0, (left - 1) as nat, rest, k - 1);
    }
}

/// Without a reply of its own a question ends with the last id that was seen.
pub proof fn law_others_replies_do_not_decide(
    expected: Seq<char>,
    last_seen: Seq<char>,
    left: nat,
    later: Seq<(Seq<char>, bool)>,
)
    requires
        left >= 1,
        forall|j: int| 0 <= j < left && j < later.len() ==> (#[trigger] later[j]).0 != expected,
    ensures
        drained(expected, last_seen, left, later) == (OutcomeModel::MismatchedId {
            expected,
            got: if later.len() == 0 {
                last_seen
            } else if later.len() < left {
                later.last().0
            } else {
                later[left - 1].0
            },
        }),
    decreases left,
{
    if later.len() > 0 {
        assert(later[0].0 != expected);
        if left > 1 {
            let rest = later.subrange(1, later.len() as int);
            assert forall|j: int| 0 <= j < left - 1 && j < rest.len() implies (
            #[trigger] rest[j]).0 != expected by {
                assert(rest[j] == later[j + 1]);
            }
            law_others_replies_do_not_decide(expected, later[0].0, (left - 1) as nat, rest);
        }
    }
}

/// Silence approves nothing: a question that nobody answers in time, or that nobody can
/// answer any more, ends without approval, and a first reply of its own decides it.
pub proof fn law_silence_approves_nothing(expected: Seq<char>, first: FirstReply, secs: u64)
    ensures
        after_first(expected, first, secs) == ApprovalModel::Settled(OutcomeModel::Approved) <==> (
        first matches FirstReply::Reply { id, approved } && id@ == expected && approved),
        after_first(expected, first, secs) == ApprovalModel::Settled(OutcomeModel::Denied) <==> (
        first matches FirstReply::Reply { id, approved } && id@ == expected && !approved),
        first is TimedOut ==> after_first(expected, first, secs) == ApprovalModel::Settled(
            OutcomeModel::TimedOut { waited_secs: secs },
        ),
        first is Closed ==> after_first(expected, first, secs) == ApprovalModel::Settled(
            OutcomeModel::ChannelClosed,
        ),
        first is Reply && first->id@ != expected ==> after_first(expected, first, secs) == (
        ApprovalModel::Draining { expected, last_seen: first->id@, left: 8 }),
{
}

} // verus!

//! The tool calls of one answer, from the request to the results.
//!
//! Calls that the user does not approve are skipped, calls that the envelope
//! does not allow are settled without being made, and the others are made side
//! by side. Whatever becomes of a call, the model is handed exactly one result
//! for it, in the order of the calls.

use crate::agent_run::{is_result_message, result_message};
use crate::assembler::message_links;
use crate::events::{event_models, AgentEvent, EventModel};
use crate::groups::compact_form;
use crate::message::{use_ids, Message, MessageModel, ToolUse};
use crate::pairing::{answers, run_end, unit_end, Link};
use crate::preflight::{PreflightModel, PreflightOutcome};
use vstd::prelude::*;
use vstd::string::*;

verus! {

/// What a call gave.
#[derive(Debug)]
pub struct ToolOutput {
    pub content: String,
    pub is_error: bool,
}

/// The model of a [`ToolOutput`].
pub struct OutputModel {
    pub content: Seq<char>,
    pub is_error: bool,
}

impl View for ToolOutput {
    type V = OutputModel;

    open spec fn view(&self) -> OutputModel {
        OutputModel { content: self.content@, is_error: self.is_error }
    }
}

/// A call on its way to its result.
#[derive(Debug)]
pub struct ToolTask {
    pub id: String,
    pub name: String,
    /// What the model is told of a call that the user did not approve.
    pub skipped: Option<String>,
    /// What the call gave, once it has.
    pub output: Option<ToolOutput>,
}

/// The model of a [`ToolTask`].
pub struct TaskModel {
    pub id: Seq<char>,
    pub name: Seq<char>,
    pub skipped: Option<Seq<char>>,
    pub output: Option<OutputModel>,
}

impl View for ToolTask {
    type V = TaskModel;

    open spec fn view(&self) -> TaskModel {
        TaskModel {
            id: self.id@,
            name: self.name@,
            skipped: match self.skipped {
                Some(s) => Some(s@),
                None => None,
            },
            output: match self.output {
                Some(o) => Some(o@),
                None => None,
            },
        }
    }
}

impl TaskModel {
    /// What the model is told of the call, before it is cleaned and shortened:
    /// why it was skipped, what it gave, or that it failed if nothing came back.
    pub open spec fn result(self) -> OutputModel {
        match self.skipped {
            Some(s) => OutputModel { content: s, is_error: true },
            None => match self.output {
                Some(o) => o,
                None => OutputModel { content: "Tool execution failed"@, is_error: true },
            },
        }
    }
}

/// The calls of one answer.
#[derive(Debug)]
pub struct ToolBatch {
    pub tasks: Vec<ToolTask>,
}

/// The models of calls.
pub open spec fn task_models(v: Seq<ToolTask>) -> Seq<TaskModel> {
    v.map_values(|t: ToolTask| t@)
}

impl View for ToolBatch {
    type V = Seq<TaskModel>;

    open spec fn view(&self) -> Seq<TaskModel> {
        task_models(self.tasks@)
    }
}

/// How many of the first `n` calls are to be made.
pub open spec fn approved_count(tasks: Seq<TaskModel>, n: nat) -> nat
    decreases n,
{
    if n == 0 {
        0
    } else {
        approved_count(tasks, (n - 1) as nat) + (if tasks[n - 1].skipped is None {
            1nat
        } else {
            0nat
        })
    }
}

/// Of the first `n` calls, whether those that gave something gave an error.
pub open spec fn errors_of(tasks: Seq<TaskModel>, n: nat) -> Seq<bool>
    decreases n,
{
    if n == 0 {
        Seq::empty()
    } else {
        let before = errors_of(tasks, (n - 1) as nat);
        match tasks[n - 1].output {
            Some(o) => before.push(o.is_error),
            None => before,
        }
    }
}

/// What the envelope says settles a call, if it does.
pub open spec fn settled_by(outcome: PreflightModel) -> Option<OutputModel> {
    match outcome {
        PreflightModel::Allow => None,
        PreflightModel::Intercept(content) => Some(OutputModel { content, is_error: false }),
        PreflightModel::Deny { content, .. } => Some(OutputModel { content, is_error: true }),
    }
}

/// What is told when the envelope denies a call.
pub open spec fn denied_events(name: Seq<char>, outcome: PreflightModel) -> Seq<EventModel> {
    match outcome {
        PreflightModel::Deny { capability, resource, reason, .. } => seq![
            EventModel::ScopeExpansionRequested { capability, resource, reason, tool: name },
        ],
        _ => Seq::empty(),
    }
}

impl ToolBatch {
    /// No calls.
    pub fn new() -> (r: ToolBatch)
        ensures
            r@ == Seq::<TaskModel>::empty(),
    {
        let r = ToolBatch { tasks: Vec::new() };
        assert(r@ =~= Seq::<TaskModel>::empty());
        r
    }

    /// Adds a call. `skipped` is what the model is told if the user did not
    /// approve it.
    pub fn add(&mut self, call: &ToolUse, skipped: Option<String>)
        ensures
            final(self)@ == old(self)@.push(
                TaskModel {
                    id: call.id@,
                    name: call.name@,
                    skipped: match skipped {
                        Some(s) => Some(s@),
                        None => None,
                    },
                    output: None,
                },
            ),
    {
        let ghost before = self@;
        let task = ToolTask {
            id: call.id.clone(),
            name: call.name.clone(),
            skipped,
            output: None,
        };
        self.tasks.push(task);
        assert(self@ =~= before.push(task@));
    }

    /// How many calls are to be made.
    pub fn approved(&self) -> (r: usize)
        ensures
            r == approved_count(self@, self@.len()),
            r <= self@.len(),
    {
        let n: usize = self.tasks.len();
        let mut count: usize = 0;
        let mut i: usize = 0;
        while i < n
            invariant
                n == self.tasks@.len(),
                i <= n,
                count <= i,
                count == approved_count(self@, i as nat),
            decreases n - i,
        {
            assert(self@[i as int] == self.tasks@[i as int]@);
            if self.tasks[i].skipped.is_none() {
                count += 1;
            }
            i += 1;
        }
        count
    }

    /// Whether call `i` was skipped.
    pub fn is_skipped(&self, i: usize) -> (r: bool)
        requires
            i < self@.len(),
        ensures
            r == (self@[i as int].skipped is Some),
    {
        assert(self@[i as int] == self.tasks@[i as int]@);
        self.tasks[i].skipped.is_some()
    }

    /// The envelope was asked about call `i`. Returns whether the call is to be
    /// made, and what is told.
    pub fn dispatch(&mut self, i: usize, outcome: PreflightOutcome) -> (r: (bool, Vec<AgentEvent>))
        requires
            i < old(self)@.len(),
        ensures
            r.0 == (outcome@ is Allow),
            event_models(r.1@) == denied_events(old(self)@[i as int].name, outcome@),
            final(self)@ == (match settled_by(outcome@) {
                Some(o) => old(self)@.update(
                    i as int,
                    TaskModel { output: Some(o), ..old(self)@[i as int] },
                ),
                None => old(self)@,
            }),
    {
        assert(self@[i as int] == self.tasks@[i as int]@);
        let ghost model = outcome@;
        let ghost name = self@[i as int].name;
        let mut told: Vec<AgentEvent> = Vec::new();
        match outcome {
            PreflightOutcome::Allow => {
                assert(event_models(told@) =~= denied_events(name, model));
                (true, told)
            },
            PreflightOutcome::Intercept(content) => {
                self.settled(i, ToolOutput { content, is_error: false });
                assert(event_models(told@) =~= denied_events(name, model));
                (false, told)
            },
            PreflightOutcome::Deny { content, capability, resource, reason } => {
                told.push(
                    AgentEvent::ScopeExpansionRequested {
                        capability,
                        resource,
                        reason,
                        tool: self.tasks[i].name.clone(),
                    },
                );
                assert(event_models(told@) =~= denied_events(name, model));
                self.settled(i, ToolOutput { content, is_error: true });
                (false, told)
            },
        }
    }

    /// Call `i` gave something.
    pub fn settled(&mut self, i: usize, output: ToolOutput)
        requires
            i < old(self)@.len(),
        ensures
            final(self)@ == old(self)@.update(
                i as int,
                TaskModel { output: Some(output@), ..old(self)@[i as int] },
            ),
    {
        let ghost before = self@;
        assert(self@[i as int] == self.tasks@[i as int]@);
        self.tasks[i].output = Some(output);
        assert(self@ =~= before.update(
            i as int,
            TaskModel { output: Some(output@), ..before[i as int] },
        ));
    }

    /// Of the calls that gave something, whether it is an error.
    pub fn errors(&self) -> (r: Vec<bool>)
        ensures
            r@ == errors_of(self@, self@.len()),
    {
        let n: usize = self.tasks.len();
        let mut out: Vec<bool> = Vec::new();
        let mut i: usize = 0;
        assert(out@ =~= errors_of(self@, 0));
        while i < n
            invariant
                n == self.tasks@.len(),
                i <= n,
                out@ == errors_of(self@, i as nat),
            decreases n - i,
        {
            assert(self@[i as int] == self.tasks@[i as int]@);
            match &self.tasks[i].output {
                Some(o) => {
                    out.push(o.is_error);
                },
                None => {},
            }
            i += 1;
        }
        out
    }

    /// What the model is told of call `i`, before it is cleaned and shortened.
    pub fn result(&self, i: usize) -> (r: ToolOutput)
        requires
            i < self@.len(),
        ensures
            r@ == self@[i as int].result(),
    {
        assert(self@[i as int] == self.tasks@[i as int]@);
        match &self.tasks[i].skipped {
            Some(s) => ToolOutput { content: s.clone(), is_error: true },
            None => match &self.tasks[i].output {
                Some(o) => ToolOutput { content: o.content.clone(), is_error: o.is_error },
                None => ToolOutput {
                    content: "Tool execution failed".to_owned(),
                    is_error: true,
                },
            },
        }
    }

    /// The messages that hand the results to the model: one for each call, in
    /// the order of the calls. `contents` are the results as the model is to see
    /// them.
    pub fn messages(&self, contents: &[String]) -> (r: Vec<Message>)
        requires
            contents@.len() == self@.len(),
        ensures
            r@.len() == self@.len(),
            forall|i: int|
                0 <= i < r@.len() ==> is_result_message(
                    #[trigger] r@[i],
                    self@[i].id,
                    contents@[i]@,
                    self@[i].result().is_error,
                ),
    {
        let n: usize = self.tasks.len();
        let mut out: Vec<Message> = Vec::new();
        let mut i: usize = 0;
        while i < n
            invariant
                n == self.tasks@.len() == contents@.len(),
                i <= n,
                out@.len() == i,
                forall|k: int|
                    0 <= k < i ==> is_result_message(
                        #[trigger] out@[k],
                        self@[k].id,
                        contents@[k]@,
                        self@[k].result().is_error,
                    ),
            decreases n - i,
        {
            assert(self@[i as int] == self.tasks@[i as int]@);
            let is_error = self.result(i).is_error;
            out.push(result_message(self.tasks[i].id.as_str(), contents[i].as_str(), is_error));
            i += 1;
        }
        out
    }
}

/// What a call gave, with its id.
#[derive(Debug)]
pub struct CallResult {
    pub id: String,
    pub output: ToolOutput,
}

/// What a call gave: its output, or an error in words.
pub open spec fn output_of(r: Result<ToolOutput, String>) -> OutputModel {
    match r {
        Ok(o) => o@,
        Err(e) => OutputModel { content: e@, is_error: true },
    }
}

/// Puts what calls gave with their ids, as far as there are both.
pub fn paired_results(calls: &[ToolUse], results: Vec<Result<ToolOutput, String>>) -> (r: Vec<
    CallResult,
>)
    ensures
        r@.len() == (if calls@.len() < results@.len() {
            calls@.len()
        } else {
            results@.len()
        }),
        forall|i: int|
            0 <= i < r@.len() ==> (#[trigger] r@[i]).id@ == calls@[i].id@ && r@[i].output@
                == output_of(results@[i]),
{
    let n: usize = calls.len();
    let m: usize = results.len();
    let mut out: Vec<CallResult> = Vec::new();
    let mut i: usize = 0;
    while i < n && i < m
        invariant
            n == calls@.len(),
            m == results@.len(),
            i <= n,
            i <= m,
            out@.len() == i,
            forall|k: int|
                0 <= k < i ==> (#[trigger] out@[k]).id@ == calls@[k].id@ && out@[k].output@
                    == output_of(results@[k]),
        decreases n - i,
    {
        let output = match &results[i] {
            Ok(o) => ToolOutput { content: o.content.clone(), is_error: o.is_error },
            Err(e) => ToolOutput { content: e.clone(), is_error: true },
        };
        out.push(CallResult { id: calls[i].id.clone(), output });
        i += 1;
    }
    out
}

/// Skipped calls and calls of which nothing came back have a result too, and it
/// is an error.
pub proof fn law_every_call_has_a_result(t: TaskModel)
    ensures
        t.skipped is Some || t.output is None ==> t.result().is_error,
        t.skipped is Some ==> t.result().content == t.skipped->0,
        t.skipped is None && t.output is Some ==> t.result() == t.output->0,
{
}

/// A request for tool calls and the results of its batch are one unit of the
/// conversation: whatever keeps or drops units keeps or drops them together.
pub proof fn law_a_batch_is_one_unit(msgs: Seq<MessageModel>, at: int)
    requires
        0 <= at < msgs.len(),
        msgs[at].role == "assistant"@,
        msgs[at].tool_calls.len() > 0,
        msgs.len() == at + 1 + msgs[at].tool_calls.len(),
        forall|k: int|
            #![trigger msgs[at + 1 + k]]
            0 <= k < msgs[at].tool_calls.len() ==> {
                let m = msgs[at + 1 + k];
                &&& m.role == "tool"@
                &&& m.tool_result is Some
                &&& m.tool_result->0.tool_use_id is Some
                &&& m.tool_result->0.tool_use_id->0@ == msgs[at].tool_calls[k].id@
            },
    ensures
        unit_end(message_links(msgs), at) == msgs.len(),
{
    let joints = message_links(msgs);
    let ids = use_ids(msgs[at].tool_calls);
    assert(joints[at] == compact_form(msgs[at]).link());
    reveal_strlit("assistant");
    reveal_strlit("tool");
    assert(joints[at].requests == Some(ids));
    assert forall|i: int| at + 1 <= i < joints.len() implies answers(#[trigger] joints[i], ids) by {
        let k = i - at - 1;
        let m = msgs[at + 1 + k];
        assert(joints[i] == compact_form(m).link());
        assert(ids[k] == msgs[at].tool_calls[k].id@);
        assert(ids.contains(ids[k]));
    }
    lemma_run_reaches_the_end(joints, ids, at + 1);
}

proof fn lemma_run_reaches_the_end(joints: Seq<Link>, ids: Seq<Seq<char>>, i: int)
    requires
        0 <= i <= joints.len(),
        forall|j: int| i <= j < joints.len() ==> answers(#[trigger] joints[j], ids),
    ensures
        run_end(joints, ids, i) == joints.len(),
    decreases joints.len() - i,
{
    if i < joints.len() {
        lemma_run_reaches_the_end(joints, ids, i + 1);
    }
}

// ── Caching ────────────────────────────────────────────────────────────────
/// Marks the message before the last one: what stands up to it stays the same in
/// the next request, and need not be read again.
pub fn mark_cache_prefix(messages: &mut Vec<Message>)
    ensures
        final(messages)@.len() == old(messages)@.len(),
        forall|i: int|
            0 <= i < old(messages)@.len() ==> #[trigger] final(messages)@[i] == (if i
                == old(messages)@.len() - 2 {
                Message { cache_breakpoint: true, ..old(messages)@[i] }
            } else {
                old(messages)@[i]
            }),
{
    let n: usize = messages.len();
    if n >= 2 {
        messages[n - 2].cache_breakpoint = true;
    }
}

/// The calls that are to be made are those that are not skipped, and the errors are those
/// of the calls that gave something, in their order.
pub proof fn law_batches_are_counted(tasks: Seq<TaskModel>)
    ensures
        approved_count(tasks, tasks.len()) == tasks.filter(
            |t: TaskModel| t.skipped is None,
        ).len(),
        errors_of(tasks, tasks.len()) == tasks.filter(
            |t: TaskModel| t.output is Some,
        ).map_values(|t: TaskModel| t.output->0.is_error),
{
    lemma_counted(tasks, tasks.len());
    assert(tasks.take(tasks.len() as int) =~= tasks);
}

proof fn lemma_counted(tasks: Seq<TaskModel>, n: nat)
    requires
        n <= tasks.len(),
    ensures
        approved_count(tasks, n) == tasks.take(n as int).filter(
            |t: TaskModel| t.skipped is None,
        ).len(),
        errors_of(tasks, n) == tasks.take(n as int).filter(
            |t: TaskModel| t.output is Some,
        ).map_values(|t: TaskModel| t.output->0.is_error),
    decreases n,
{
    reveal(Seq::filter);
    let some = |t: TaskModel| t.output is Some;
    let error = |t: TaskModel| t.output->0.is_error;
    let part = tasks.take(n as int);
    if n > 0 {
        lemma_counted(tasks, (n - 1) as nat);
        let before = tasks.take(n - 1);
        assert(part.drop_last() =~= before);
        assert(part.last() == tasks[n - 1]);
        if tasks[n - 1].output is Some {
            assert(before.filter(some).push(tasks[n - 1]).map_values(error)
                =~= before.filter(some).map_values(error).push(tasks[n - 1].output->0.is_error));
        }
    } else {
        assert(part.filter(some).map_values(error) =~= Seq::<bool>::empty());
    }
}

/// What the model is told of a call is why it was skipped or what it gave; a call that was
/// skipped, gave nothing or failed is an error.
pub proof fn law_results_are_what_came_of_the_call(t: TaskModel, r: Result<ToolOutput, String>)
    ensures
        t.skipped is Some ==> t.result().content == t.skipped->0 && t.result().is_error,
        t.skipped is None && t.output is Some ==> t.result() == t.output->0,
        t.skipped is None && t.output is None ==> t.result().is_error,
        r is Ok ==> output_of(r).content == r->Ok_0.content@ && output_of(r).is_error
            == r->Ok_0.is_error,
        r is Err ==> output_of(r).content == r->Err_0@ && output_of(r).is_error,
{
}

/// A call that the envelope does not allow is settled without being made: denied with an
/// error and a request for more scope, or simulated with neither.
pub proof fn law_what_is_not_allowed_is_settled(name: Seq<char>, o: PreflightModel)
    ensures
        settled_by(o) is None <==> o is Allow,
        o is Intercept ==> settled_by(o)->0.content == o->Intercept_0 && !settled_by(o)->0.is_error,
        o is Deny ==> settled_by(o)->0.content == o->content && settled_by(o)->0.is_error,
        denied_events(name, o).len() == (if o is Deny {
            1nat
        } else {
            0nat
        }),
        o is Deny ==> denied_events(name, o)[0] == (EventModel::ScopeExpansionRequested {
            capability: o->capability,
            resource: o->resource,
            reason: o->reason,
            tool: name,
        }),
{
}

} // verus!

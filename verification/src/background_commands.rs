//! The commands on agents in the background.

use crate::background::{
    agent_models, agent_of, has_agent, has_signals, not_paused, started, status_text, AgentModel,
    BackgroundAgent, BackgroundAgentManager, BackgroundError, BackgroundModel, FaultModel,
};
use crate::clock::{moment_text, show_moment, Timestamp};
use crate::split::{join, join_texts, words, words_of};
use crate::text::{contains_text, lemma_contains_part, occurs_at, same_text, texts};
use vstd::prelude::*;
use vstd::string::*;

verus! {

/// A command on agents in the background.
#[derive(Debug, PartialEq, Eq)]
pub enum BackgroundCommand {
    /// Nothing to do but to answer.
    Say(String),
    Start(String),
    List,
    Status(String),
    Cancel(String),
    Pause(String),
    Resume(String),
}

/// A command on agents in the background.
pub enum CommandForm {
    Say(Seq<char>),
    Start(Seq<char>),
    List,
    Status(Seq<char>),
    Cancel(Seq<char>),
    Pause(Seq<char>),
    Resume(Seq<char>),
}

impl View for BackgroundCommand {
    type V = CommandForm;

    open spec fn view(&self) -> CommandForm {
        match *self {
            BackgroundCommand::Say(s) => CommandForm::Say(s@),
            BackgroundCommand::Start(s) => CommandForm::Start(s@),
            BackgroundCommand::List => CommandForm::List,
            BackgroundCommand::Status(s) => CommandForm::Status(s@),
            BackgroundCommand::Cancel(s) => CommandForm::Cancel(s@),
            BackgroundCommand::Pause(s) => CommandForm::Pause(s@),
            BackgroundCommand::Resume(s) => CommandForm::Resume(s@),
        }
    }
}

/// What the words of a command line ask for.
pub open spec fn background_command(ws: Seq<Seq<char>>) -> CommandForm {
    if ws.len() == 0 {
        CommandForm::Say("Usage: /background [start|list|status|cancel] ..."@)
    } else if ws[0] == "start"@ {
        if ws.len() > 1 {
            CommandForm::Start(join(ws.skip(1), " "@))
        } else {
            CommandForm::Say("Usage: /background start <task description>"@)
        }
    } else if ws[0] == "list"@ {
        CommandForm::List
    } else if ws[0] == "status"@ {
        if ws.len() < 2 {
            CommandForm::Say("Usage: /background status <id>"@)
        } else {
            CommandForm::Status(ws[1])
        }
    } else if ws[0] == "cancel"@ {
        if ws.len() < 2 {
            CommandForm::Say("Usage: /background cancel <id>"@)
        } else {
            CommandForm::Cancel(ws[1])
        }
    } else if ws[0] == "pause"@ {
        if ws.len() < 2 {
            CommandForm::Say("Usage: /background pause <id>"@)
        } else {
            CommandForm::Pause(ws[1])
        }
    } else if ws[0] == "resume"@ {
        if ws.len() < 2 {
            CommandForm::Say("Usage: /background resume <id>"@)
        } else {
            CommandForm::Resume(ws[1])
        }
    } else {
        CommandForm::Say("Unknown sub-command: "@ + ws[0])
    }
}

fn say(text: &str) -> (r: BackgroundCommand)
    ensures
        r@ == CommandForm::Say(text@),
{
    BackgroundCommand::Say(text.to_owned())
}

impl BackgroundCommand {
    /// What a command line asks for.
    pub fn parse(args: &str) -> (r: BackgroundCommand)
        ensures
            r@ == background_command(words(args@)),
    {
        let parts = words_of(args);
        let n: usize = parts.len();
        let ghost ws = words(args@);
        assert(ws.len() == n);
        if n == 0 {
            return say("Usage: /background [start|list|status|cancel] ...");
        }
        assert(ws[0] == parts@[0]@);
        assert(n > 1 ==> ws[1] == parts@[1]@);
        let verb = parts[0].as_str();
        if same_text(verb, "start") {
            if n > 1 {
                let rest = vstd::slice::slice_subrange(parts.as_slice(), 1, n);
                assert(texts(rest@) =~= ws.skip(1));
                BackgroundCommand::Start(join_texts(rest, " "))
            } else {
                say("Usage: /background start <task description>")
            }
        } else if same_text(verb, "list") {
            BackgroundCommand::List
        } else if same_text(verb, "status") {
            if n < 2 {
                say("Usage: /background status <id>")
            } else {
                BackgroundCommand::Status(parts[1].clone())
            }
        } else if same_text(verb, "cancel") {
            if n < 2 {
                say("Usage: /background cancel <id>")
            } else {
                BackgroundCommand::Cancel(parts[1].clone())
            }
        } else if same_text(verb, "pause") {
            if n < 2 {
                say("Usage: /background pause <id>")
            } else {
                BackgroundCommand::Pause(parts[1].clone())
            }
        } else if same_text(verb, "resume") {
            if n < 2 {
                say("Usage: /background resume <id>")
            } else {
                BackgroundCommand::Resume(parts[1].clone())
            }
        } else {
            let mut text = "Unknown sub-command: ".to_owned();
            text.append(verb);
            BackgroundCommand::Say(text)
        }
    }
}

// ── Answers ────────────────────────────────────────────────────────────────
/// The line of an agent in a list.
pub open spec fn agent_line(a: AgentModel) -> Seq<char> {
    "  ["@ + status_text(a.status) + "] "@ + a.id + " — "@ + a.task + "\n"@
}

/// The lines of the first `n` agents.
pub open spec fn agent_lines(agents: Seq<AgentModel>, n: nat) -> Seq<char>
    decreases n,
{
    if n == 0 {
        "Background agents:\n"@
    } else {
        agent_lines(agents, (n - 1) as nat) + agent_line(agents[n - 1])
    }
}

/// The list of agents.
pub open spec fn agent_list(agents: Seq<AgentModel>) -> Seq<char> {
    if agents.len() == 0 {
        "No background agents."@
    } else {
        agent_lines(agents, agents.len())
    }
}

/// The list of agents.
pub fn format_agents(agents: &[BackgroundAgent]) -> (r: String)
    ensures
        r@ == agent_list(agent_models(agents@)),
{
    let ghost all = agent_models(agents@);
    if agents.len() == 0 {
        return "No background agents.".to_owned();
    }
    let mut out = "Background agents:\n".to_owned();
    let mut i: usize = 0;
    while i < agents.len()
        invariant
            i <= agents@.len(),
            all == agent_models(agents@),
            out@ == agent_lines(all, i as nat),
        decreases agents@.len() - i,
    {
        let ghost before = out@;
        assert(all[i as int] == agents@[i as int]@);
        let status = agents[i].status.text();
        let mut line = "  [".to_owned();
        line.append(status.as_str());
        line.append("] ");
        line.append(agents[i].id.as_str());
        line.append(" — ");
        line.append(agents[i].task_description.as_str());
        line.append("\n");
        out.append(line.as_str());
        i += 1;
    }
    out
}

/// What is told of one agent.
pub open spec fn agent_report(a: AgentModel) -> Seq<char> {
    "Agent: "@ + a.id + "\nStatus: "@ + status_text(a.status) + "\nTask: "@ + a.task
        + "\nStarted: "@ + moment_text(a.started_at.secs, a.started_at.nanos)
}

/// What is told of one agent.
pub fn format_agent(a: &BackgroundAgent) -> (r: String)
    ensures
        r@ == agent_report(a@),
{
    let status = a.status.text();
    let at = show_moment(a.started_at);
    let mut out = "Agent: ".to_owned();
    out.append(a.id.as_str());
    out.append("\nStatus: ");
    out.append(status.as_str());
    out.append("\nTask: ");
    out.append(a.task_description.as_str());
    out.append("\nStarted: ");
    out.append(at.as_str());
    out
}

/// What is told of an agent after a command on it.
pub open spec fn agent_told(id: Seq<char>, what: Seq<char>) -> Seq<char> {
    "Agent "@ + id + what
}

fn told(id: &str, what: &str) -> (r: CommandReply)
    ensures
        r.text@ == agent_told(id@, what@),
        r.started is None,
{
    let mut out = "Agent ".to_owned();
    out.append(id);
    out.append(what);
    CommandReply { text: out, started: None }
}

/// The answer to a command, and the id of the agent that it started.
#[derive(Debug)]
pub struct CommandReply {
    pub text: String,
    pub started: Option<String>,
}

/// `r` answers the command `c` on the agents `old`, which are `new` after it.
pub open spec fn answers(
    c: CommandForm,
    old_m: BackgroundModel,
    new_m: BackgroundModel,
    r: Result<CommandReply, BackgroundError>,
) -> bool {
    match c {
        CommandForm::Say(text) => new_m == old_m && r is Ok && r->Ok_0.text@ == text
            && r->Ok_0.started is None,
        CommandForm::Start(task) => r is Ok && r->Ok_0.started is Some && r->Ok_0.text@
            == "Background agent started: "@ + r->Ok_0.started->0@ + "\nTask: "@ + task
            && exists|session: Seq<char>, at: Timestamp|
            new_m == #[trigger] started(old_m, r->Ok_0.started->0@, session, at, task),
        CommandForm::List => new_m == old_m && r is Ok && r->Ok_0.text@ == agent_list(
            old_m.agents,
        ) && r->Ok_0.started is None,
        CommandForm::Status(id) => new_m == old_m && if has_agent(old_m.agents, id) {
            r is Ok && r->Ok_0.text@ == agent_report(agent_of(old_m.agents, id))
                && r->Ok_0.started is None
        } else {
            r is Err && r->Err_0@ == FaultModel::NotFound(id)
        },
        CommandForm::Cancel(id) => if has_signals(old_m.signals, id) {
            r is Ok && r->Ok_0.text@ == agent_told(id, " cancelled."@) && r->Ok_0.started is None
                && new_m == old_m.cancelled(id)
        } else {
            r is Err && r->Err_0@ == FaultModel::NotFound(id) && new_m == old_m
        },
        CommandForm::Pause(id) => if has_signals(old_m.signals, id) {
            r is Ok && r->Ok_0.text@ == agent_told(id, " paused."@) && r->Ok_0.started is None
                && new_m == old_m.paused(id)
        } else {
            r is Err && r->Err_0@ == FaultModel::NotFound(id) && new_m == old_m
        },
        CommandForm::Resume(id) => if !has_agent(old_m.agents, id) {
            r is Err && r->Err_0@ == FaultModel::NotFound(id) && new_m == old_m
        } else if agent_of(old_m.agents, id).status is Paused {
            r is Ok && r->Ok_0.text@ == agent_told(id, " resumed."@) && r->Ok_0.started is None
                && new_m == old_m.resumed(id)
        } else {
            r is Err && r->Err_0@ == not_paused(id) && new_m == old_m
        },
    }
}

/// Does what a command line asks for, and answers.
pub fn handle_background_command(manager: &mut BackgroundAgentManager, args: &str) -> (r: Result<
    CommandReply,
    BackgroundError,
>)
    ensures
        answers(background_command(words(args@)), old(manager)@, final(manager)@, r),
        old(manager)@.wf() ==> final(manager)@.wf(),
{
    match BackgroundCommand::parse(args) {
        BackgroundCommand::Say(text) => Ok(CommandReply { text, started: None }),
        BackgroundCommand::Start(task) => {
            let id = manager.start(task.clone());
            let mut text = "Background agent started: ".to_owned();
            text.append(id.as_str());
            text.append("\nTask: ");
            text.append(task.as_str());
            Ok(CommandReply { text, started: Some(id) })
        },
        BackgroundCommand::List => Ok(
            CommandReply { text: format_agents(manager.list()), started: None },
        ),
        BackgroundCommand::Status(id) => match manager.status(id.as_str()) {
            Ok(a) => Ok(CommandReply { text: format_agent(&a), started: None }),
            Err(e) => Err(e),
        },
        BackgroundCommand::Cancel(id) => match manager.cancel(id.as_str()) {
            Ok(()) => Ok(told(id.as_str(), " cancelled.")),
            Err(e) => Err(e),
        },
        BackgroundCommand::Pause(id) => match manager.pause(id.as_str()) {
            Ok(()) => Ok(told(id.as_str(), " paused.")),
            Err(e) => Err(e),
        },
        BackgroundCommand::Resume(id) => match manager.resume(id.as_str()) {
            Ok(()) => Ok(told(id.as_str(), " resumed.")),
            Err(e) => Err(e),
        },
    }
}

// ── Laws ───────────────────────────────────────────────────────────────────
/// A command names the agent that it is about: each word asks for its own thing, and the
/// task of a new agent is all that follows.
pub proof fn law_commands_are_read(id: Seq<char>, more: Seq<Seq<char>>)
    ensures
        background_command(seq!["start"@, id] + more) == CommandForm::Start(
            join(seq![id] + more, " "@),
        ),
        background_command(seq!["status"@, id] + more) == CommandForm::Status(id),
        background_command(seq!["cancel"@, id] + more) == CommandForm::Cancel(id),
        background_command(seq!["pause"@, id] + more) == CommandForm::Pause(id),
        background_command(seq!["resume"@, id] + more) == CommandForm::Resume(id),
        background_command(seq!["list"@] + more) is List,
        background_command(Seq::empty()) is Say,
{
    reveal_strlit("start");
    reveal_strlit("list");
    reveal_strlit("status");
    reveal_strlit("cancel");
    reveal_strlit("pause");
    reveal_strlit("resume");
    assert("status"@.len() == 6 && "cancel"@.len() == 6 && "resume"@.len() == 6);
    assert("status"@[0] == 's' && "cancel"@[0] == 'c' && "resume"@[0] == 'r');
    assert("start"@[0] == 's' && "pause"@[0] == 'p');
    assert((seq!["start"@, id] + more).skip(1) =~= seq![id] + more);
}

/// A list of agents shows each of them: how it stands, its id and its task.
pub proof fn law_lists_show_every_agent(agents: Seq<AgentModel>, k: int)
    requires
        0 <= k < agents.len(),
    ensures
        contains_text(
            agent_list(agents),
            "["@ + status_text(agents[k].status) + "] "@ + agents[k].id + " — "@ + agents[k].task,
        ),
{
    let a = agents[k];
    let shown = "["@ + status_text(a.status) + "] "@ + a.id + " — "@ + a.task;
    reveal_strlit("  [");
    reveal_strlit("  ");
    reveal_strlit("[");
    assert("  ["@ =~= "  "@ + "["@);
    assert("  "@ + shown + "\n"@ =~= agent_line(a));
    lemma_agent_shown(agents, agents.len(), k, shown);
}

proof fn lemma_agent_shown(agents: Seq<AgentModel>, n: nat, k: int, shown: Seq<char>)
    requires
        0 <= k < n <= agents.len(),
        "  "@ + shown + "\n"@ == agent_line(agents[k]),
    ensures
        contains_text(agent_lines(agents, n), shown),
    decreases n,
{
    let before = agent_lines(agents, (n - 1) as nat);
    let last = agent_line(agents[n - 1]);
    if k == n - 1 {
        lemma_contains_part(before + "  "@, shown, "\n"@);
        assert(before + "  "@ + shown + "\n"@ =~= before + last);
    } else {
        lemma_agent_shown(agents, (n - 1) as nat, k, shown);
        let i = choose|i: int| occurs_at(before, shown, i);
        assert((before + last).subrange(i, i + shown.len()) =~= before.subrange(
            i,
            i + shown.len(),
        ));
        assert(occurs_at(before + last, shown, i));
    }
}

} // verus!

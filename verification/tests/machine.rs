use caduceus::agent_run::{ModelReply, RunConfig, WarningLevel, BREAKER_FAILURES};
use caduceus::critic::Verdict;
use caduceus::events::{zero_usage, AgentEvent, SessionPhase, StopReason, TokenUsage};
use caduceus::message::ToolUse;
use caduceus::prompt::TokenBudget;
use caduceus::run_machine::{Action, Input, MachineStep, RunError, RunMachine, Stage};

/// A machine with what has been told and added so far.
struct Script {
    machine: RunMachine,
    told: Vec<String>,
    added: Vec<String>,
}

impl Script {
    fn new(max_tool_rounds: usize, critic_max_iters: u32, verifies: bool) -> Script {
        let config =
            RunConfig { max_tool_rounds, critic_max_iters, has_critic: critic_max_iters > 0 };
        let budget =
            TokenBudget { context_limit: 100, reserved_output: 10, used_input: 0, used_output: 0 };
        let machine = RunMachine::new(config, budget, 0, 0, "I prefer short answers.", verifies);
        Script { machine, told: vec![], added: vec![] }
    }

    fn advance(self, input: Input) -> (Script, Action) {
        let Script { machine, mut told, mut added } = self;
        let (machine, step) = machine.advance(input);
        let MachineStep { events, append, action } = step;
        told.extend(events.iter().map(|e: &AgentEvent| format!("{e:?}")));
        added.extend(append.map(|m| format!("{}: {}", m.role, m.content)));
        (Script { machine, told, added }, action)
    }

    fn go(self) -> Script {
        let (s, action) = self.advance(Input::Go {
            warning: WarningLevel::Clear,
            cancelled: false,
            routing: None,
        });
        assert!(matches!(action, Action::CheckRound));
        s
    }

    /// Begins a round and asks the model.
    fn asks(self) -> Script {
        let (s, action) = self.advance(round(false, None));
        assert!(matches!(action, Action::AskModel), "{action:?}");
        s
    }
}

fn round(cancelled: bool, breach: Option<&str>) -> Input {
    Input::Round {
        cancelled,
        breach: breach.map(str::to_string),
        model: "m".to_string(),
        context_limit: 100,
        reserved_output: 10,
    }
}

fn reply(content: &str, stop_reason: StopReason, calls: &[&str], tokens: u32) -> Input {
    let tool_calls = calls
        .iter()
        .map(|id| ToolUse { id: id.to_string(), name: "grep".into(), input: "{}".into() })
        .collect();
    let usage = TokenUsage { input_tokens: tokens, ..zero_usage() };
    let content = content.to_string();
    let reply = ModelReply { content, tool_calls, stop_reason, usage, logprobs: None };
    Input::Reply { reply, history_len: 11, reasoning_ms: 7 }
}

#[test]
fn answers_finish_runs() {
    let s = Script::new(5, 0, false).go().asks();
    let (s, action) = s.advance(reply("the answer", StopReason::EndTurn, &[], 1));
    match action {
        Action::Finish { answer, memories } => {
            assert_eq!(answer, "the answer");
            assert_eq!(memories, vec!["I prefer short answers"]);
        }
        other => panic!("{other:?}"),
    }
    assert_eq!(s.added, vec!["user: I prefer short answers.", "assistant: the answer"]);
    assert_eq!(s.machine.run.phase, SessionPhase::Idle);
    assert!(matches!(s.machine.stage, Stage::Over));
    let kinds: Vec<&str> = s.told.iter().map(|e| e.split(' ').next().unwrap()).collect();
    assert_eq!(
        kinds,
        vec![
            "SessionPhaseChanged",
            "StepStarted",
            "ThinkingStarted",
            "ExecutionTreeNode",
            "TextDelta",
            "TurnComplete",
            "ExecutionTreeUpdate",
            "StepCompleted",
            "SessionPhaseChanged",
        ]
    );
}

#[test]
fn tools_lead_to_another_round() {
    let s = Script::new(2, 0, false).go().asks();
    let (s, action) = s.advance(reply("", StopReason::ToolUse, &["a", "b"], 1));
    match action {
        Action::RunTools { calls } => assert_eq!(calls.len(), 2),
        other => panic!("{other:?}"),
    }
    let (s, action) = s.advance(Input::ToolsDone);
    assert!(matches!(action, Action::CheckRound));
    let s = s.asks();
    let (s, _) = s.advance(reply("", StopReason::ToolUse, &["c"], 1));
    let (s, _) = s.advance(Input::ToolsDone);
    let (s, action) = s.advance(round(false, None));
    assert!(matches!(action, Action::AskSummary));
    let (_, action) = s.advance(Input::Summary { text: None });
    match action {
        Action::Finish { answer, .. } => {
            assert!(answer.starts_with("⚠️ Agent used all 2 tool iterations"));
        }
        other => panic!("{other:?}"),
    }
}

#[test]
fn every_run_ends() {
    // Whatever the model says, a run with three rounds asks it three times.
    let mut s = Script::new(3, 2, true).go();
    let mut asked = 0;
    let mut input = round(false, None);
    for _ in 0..100 {
        let (next, action) = s.advance(input);
        s = next;
        input = match action {
            Action::CheckRound => round(false, None),
            Action::AskModel => {
                asked += 1;
                if asked % 2 == 0 {
                    reply("x", StopReason::ToolUse, &["t"], 40)
                } else {
                    reply("x", StopReason::EndTurn, &[], 40)
                }
            }
            Action::Shrink => Input::Shrunk,
            Action::AskCritic => {
                Input::Judged { verdict: Verdict::Reject { feedback: "again".to_string() } }
            }
            Action::RunTools { .. } => Input::ToolsDone,
            Action::AskSummary => Input::Summary { text: Some("sum".to_string()) },
            Action::CheckCancelled => Input::Checked { cancelled: false },
            Action::Verify => Input::Voted { winner: Some("voted".to_string()) },
            Action::Finish { answer, .. } => {
                assert_eq!(answer, "voted");
                assert_eq!(asked, 3);
                return;
            }
            Action::Fail { error } => panic!("{error:?}"),
        };
    }
    panic!("the run goes on");
}

#[test]
fn full_contexts_are_shrunk_before_the_answer_counts() {
    let s = Script::new(5, 0, false).go().asks();
    let (s, action) = s.advance(reply("long", StopReason::EndTurn, &[], 86));
    assert!(matches!(action, Action::Shrink));
    assert_eq!(s.added.len(), 1);
    let (s, action) = s.advance(Input::Shrunk);
    assert!(matches!(action, Action::Finish { .. }));
    assert_eq!(s.added[1], "assistant: long");
}

#[test]
fn runs_give_up() {
    let s = Script::new(5, 0, false).go();
    let (_, action) = s.advance(round(true, None));
    assert!(matches!(action, Action::Fail { error: RunError::Cancelled }));

    let s = Script::new(5, 0, false).go().asks();
    let (s, action) = s.advance(Input::Failed { error: "offline".to_string() });
    assert!(matches!(action, Action::Fail { error: RunError::Provider(e) } if e == "offline"));
    assert_eq!(s.machine.run.phase, SessionPhase::Idle);

    let s = Script::new(5, 0, false).go().asks();
    let (_, action) = s.advance(reply("x", StopReason::Error, &[], 1));
    assert!(matches!(action, Action::Fail { error: RunError::Stopped(_) }));
}

#[test]
fn cancelled_runs_do_not_begin() {
    let s = Script::new(5, 0, false);
    let (s, action) = s.advance(Input::Go {
        warning: WarningLevel::Clear,
        cancelled: true,
        routing: None,
    });
    assert!(matches!(action, Action::Fail { error: RunError::Cancelled }));
    assert!(s.told.is_empty() && s.added.is_empty());
    assert_eq!(s.machine.run.phase, SessionPhase::Idle);
    assert!(matches!(s.machine.stage, Stage::Over));
}

#[test]
fn reasoning_comes_with_its_time() {
    let told = "ReasoningComplete { content: \"why\", duration_ms: 7 }";
    let s = Script::new(5, 0, false).go().asks();
    let (s, _) = s.advance(reply("<thinking>why</thinking>so", StopReason::EndTurn, &[], 1));
    assert!(s.told.iter().any(|e| e == told), "{:?}", s.told);

    let s = Script::new(5, 0, false).go().asks();
    let (s, action) = s.advance(reply("<thinking>why</thinking>so", StopReason::EndTurn, &[], 86));
    assert!(matches!(action, Action::Shrink));
    assert!(!s.told.iter().any(|e| e == told));
    let (s, _) = s.advance(Input::Shrunk);
    assert!(s.told.iter().any(|e| e == told));
}

#[test]
fn breaches_are_the_answer() {
    let s = Script::new(5, 0, true).go();
    let (s, action) = s.advance(round(false, Some("too many tool calls")));
    match action {
        Action::Finish { answer, memories } => {
            assert_eq!(answer, "too many tool calls");
            assert!(memories.is_empty());
        }
        other => panic!("{other:?}"),
    }
    assert_eq!(s.added[1], "assistant: too many tool calls");
}

#[test]
fn tripped_breakers_are_not_verified_once_cancelled() {
    let s = Script::new(5, 0, true).go().asks();
    let (mut s, _) = s.advance(reply("", StopReason::ToolUse, &["a"], 1));
    for _ in 0..BREAKER_FAILURES {
        s.machine.run.call_settled("a", "boom", true, false);
    }
    let (s, _) = s.advance(Input::ToolsDone);
    let (s, action) = s.advance(round(false, None));
    assert!(matches!(action, Action::CheckCancelled));
    let (_, action) = s.advance(Input::Checked { cancelled: true });
    match action {
        Action::Finish { answer, .. } => assert!(answer.starts_with("🛑 Circuit breaker")),
        other => panic!("{other:?}"),
    }
}

#[test]
fn other_models_have_other_limits() {
    let s = Script::new(5, 0, false).go();
    let input = Input::Round {
        cancelled: false,
        breach: None,
        model: "large".to_string(),
        context_limit: 500,
        reserved_output: 10,
    };
    let (s, _) = s.advance(input);
    assert!(s.told.last().unwrap().starts_with("BudgetUpdated { model_id: \"large\""));
    assert_eq!(s.machine.run.budget.context_limit, 500);
}

use caduceus::background::{
    restored, restored_now, stored_form, AgentStep, BackgroundAgentManager, BackgroundError,
    BackgroundStatus, WORK_STEPS,
};
use caduceus::background_commands::{
    format_agent, handle_background_command, BackgroundCommand, CommandReply,
};
use caduceus::clock::Timestamp;

/// Runs an agent until it stops, at most so many steps.
fn run(mgr: &mut BackgroundAgentManager, id: &str, steps: usize) -> u64 {
    let mut ticks = 0;
    for _ in 0..steps {
        match mgr.next_step(id, ticks) {
            AgentStep::Stop => {
                mgr.stopped(id);
                return ticks;
            }
            AgentStep::Wait(_) => {}
            AgentStep::Work(_) => ticks += 1,
            AgentStep::Finish => {
                mgr.finished(id, ticks);
                return ticks;
            }
        }
    }
    ticks
}

fn handle(mgr: &mut BackgroundAgentManager, args: &str) -> Result<CommandReply, BackgroundError> {
    handle_background_command(mgr, args)
}

#[test]
fn start_and_list() {
    let mut mgr = BackgroundAgentManager::in_memory();
    let id = mgr.start("test task".to_string());
    let list = mgr.list();
    assert_eq!(list.len(), 1);
    assert_eq!(list[0].id, id);
    assert_eq!(list[0].status, BackgroundStatus::Running);
}

#[test]
fn cancel_agent() {
    let mut mgr = BackgroundAgentManager::in_memory();
    let id = mgr.start("cancel me".to_string());

    mgr.cancel(&id).unwrap();
    run(&mut mgr, &id, 1);

    let agent = mgr.status(&id).unwrap();
    assert_eq!(agent.status, BackgroundStatus::Cancelled);
}

#[test]
fn pause_and_resume() {
    let mut mgr = BackgroundAgentManager::in_memory();
    let id = mgr.start("pause me".to_string());

    mgr.pause(&id).unwrap();
    let agent = mgr.status(&id).unwrap();
    assert_eq!(agent.status, BackgroundStatus::Paused);

    mgr.resume(&id).unwrap();
    let agent = mgr.status(&id).unwrap();
    assert_eq!(agent.status, BackgroundStatus::Running);
}

#[test]
fn status_not_found() {
    let mgr = BackgroundAgentManager::in_memory();
    let err = mgr.status("nope").unwrap_err();
    assert!(matches!(err, BackgroundError::NotFound(_)));
    assert_eq!(err.message(), "Agent not found: nope");
}

#[test]
fn sqlite_persistence() {
    let mut mgr = BackgroundAgentManager::in_memory();
    let id = mgr.start("persistent task".to_string());
    let agent = mgr.status(&id).unwrap();
    let started = agent.started_at;
    let row = stored_form(&agent);
    let back = restored_now(row, Some(agent.status));

    let mgr = BackgroundAgentManager::from_agents(vec![back]);
    let agent = mgr.status(&id).unwrap();
    assert!(matches!(agent.status, BackgroundStatus::Failed(_)));
    assert_eq!(agent.started_at, started);
    assert_eq!(agent.task_description, "persistent task");
}

#[test]
fn handle_background_start() {
    let mut mgr = BackgroundAgentManager::in_memory();
    let out = handle(&mut mgr, "start do something cool").unwrap();
    assert!(out.text.contains("Background agent started"));
    let id = out.started.unwrap();
    assert_eq!(mgr.status(&id).unwrap().task_description, "do something cool");
}

#[test]
fn handle_background_list_empty() {
    let mut mgr = BackgroundAgentManager::in_memory();
    let out = handle(&mut mgr, "list").unwrap();
    assert!(out.text.contains("No background agents"));
}

#[test]
fn resume_non_paused_errors() {
    let mut mgr = BackgroundAgentManager::in_memory();
    let id = mgr.start("not paused".to_string());
    let err = mgr.resume(&id).unwrap_err();
    assert!(matches!(err, BackgroundError::InvalidState(_)));
    assert_eq!(err.message(), format!("Invalid state: Agent {id} is not paused"));
}

#[test]
fn resume_actually_unblocks_loop() {
    let mut mgr = BackgroundAgentManager::in_memory();
    let id = mgr.start("complete after resume".to_string());
    mgr.pause(&id).unwrap();
    run(&mut mgr, &id, 3);
    let paused = mgr.status(&id).unwrap();
    assert_eq!(paused.status, BackgroundStatus::Paused);
    mgr.resume(&id).unwrap();
    assert_eq!(run(&mut mgr, &id, 100), WORK_STEPS);
    let done = mgr.status(&id).unwrap();
    assert_eq!(
        done.status,
        BackgroundStatus::Completed("Task completed after 50 ticks".to_string())
    );
}

#[test]
fn pause_actually_blocks_progress() {
    let mut mgr = BackgroundAgentManager::in_memory();
    let id = mgr.start("pause blocks".to_string());
    assert_eq!(mgr.next_step(&id, 0), AgentStep::Work(100));
    mgr.pause(&id).unwrap();
    assert_eq!(run(&mut mgr, &id, 500), 0);
    assert_eq!(mgr.next_step(&id, 1), AgentStep::Wait(50));
    assert_eq!(mgr.status(&id).unwrap().status, BackgroundStatus::Paused);
}

#[test]
fn pause_is_idempotent() {
    let mut mgr = BackgroundAgentManager::in_memory();
    let id = mgr.start("double pause".to_string());
    mgr.pause(&id).unwrap();
    mgr.pause(&id).unwrap();
    assert_eq!(mgr.status(&id).unwrap().status, BackgroundStatus::Paused);
    mgr.resume(&id).unwrap();
    assert_eq!(mgr.status(&id).unwrap().status, BackgroundStatus::Running);
}

#[test]
fn pause_then_cancel_completes_with_cancelled() {
    let mut mgr = BackgroundAgentManager::in_memory();
    let id = mgr.start("pause then cancel".to_string());
    mgr.pause(&id).unwrap();
    mgr.cancel(&id).unwrap();
    assert_eq!(mgr.next_step(&id, 0), AgentStep::Stop);
    run(&mut mgr, &id, 10);
    assert_eq!(mgr.status(&id).unwrap().status, BackgroundStatus::Cancelled);
}

#[test]
fn agents_keep_to_themselves() {
    let mut mgr = BackgroundAgentManager::in_memory();
    let ids: Vec<String> = (0..10).map(|i| mgr.start(format!("agent-{i}"))).collect();
    for id in &ids[..5] {
        mgr.pause(id).unwrap();
    }
    for (i, id) in ids.iter().enumerate() {
        let expected = if i < 5 { BackgroundStatus::Paused } else { BackgroundStatus::Running };
        assert_eq!(mgr.status(id).unwrap().status, expected);
    }
    assert!(matches!(mgr.pause("other"), Err(BackgroundError::NotFound(_))));
    assert!(matches!(mgr.cancel("other"), Err(BackgroundError::NotFound(_))));
    assert!(matches!(mgr.resume("other"), Err(BackgroundError::NotFound(_))));
}

#[test]
fn commands_are_answered() {
    let mut mgr = BackgroundAgentManager::in_memory();
    mgr.start_with("id1".into(), "s1".into(), Timestamp { secs: 0, nanos: 0 }, "sweep".into());
    let say = |mgr: &mut BackgroundAgentManager, args: &str| handle(mgr, args).unwrap().text;
    assert_eq!(say(&mut mgr, ""), "Usage: /background [start|list|status|cancel] ...");
    assert_eq!(say(&mut mgr, "start"), "Usage: /background start <task description>");
    assert_eq!(say(&mut mgr, "status"), "Usage: /background status <id>");
    assert_eq!(say(&mut mgr, "dance"), "Unknown sub-command: dance");
    assert_eq!(say(&mut mgr, "list"), "Background agents:\n  [Running] id1 — sweep\n");
    assert_eq!(
        say(&mut mgr, "status id1"),
        "Agent: id1\nStatus: Running\nTask: sweep\nStarted: 1970-01-01 00:00:00 UTC"
    );
    assert_eq!(say(&mut mgr, "pause id1"), "Agent id1 paused.");
    assert_eq!(say(&mut mgr, "resume id1"), "Agent id1 resumed.");
    assert_eq!(say(&mut mgr, "cancel id1"), "Agent id1 cancelled.");
    assert!(handle(&mut mgr, "cancel id2").is_err());
    assert_eq!(BackgroundCommand::parse(" resume x y "), BackgroundCommand::Resume("x".into()));
}

#[test]
fn rows_come_back_with_their_times() {
    let mut mgr = BackgroundAgentManager::in_memory();
    let at = Timestamp { secs: 1_700_000_000, nanos: 123_000_000 };
    mgr.start_with("a".into(), "s".into(), at, "t".into());
    let agent = mgr.status("a").unwrap();
    let row = stored_form(&agent);
    assert_eq!(row.started_at, "2023-11-14T22:13:20.123+00:00");
    assert!(format_agent(&agent).ends_with("2023-11-14 22:13:20.123 UTC"));
    let otherwise = Timestamp { secs: 5, nanos: 0 };
    let back = restored(row, Some(BackgroundStatus::Cancelled), otherwise);
    assert_eq!(back.started_at, at);
    assert_eq!(back.status, BackgroundStatus::Cancelled);
    let mut bad = stored_form(&agent);
    bad.started_at = "yesterday".to_string();
    let back = restored(bad, None, otherwise);
    assert_eq!(back.started_at, otherwise);
    assert_eq!(back.status.text(), "Failed: Failed to deserialize status");
}

#[test]
fn starts_survive_the_store() {
    for (secs, nanos) in [
        (0, 0),
        (-1, 999_999_999),
        (1_700_000_000, 1),
        (1_700_000_000, 120_000),
        (-62_167_219_200, 0),
        (253_402_300_799, 999_999_999),
    ] {
        let at = Timestamp { secs, nanos };
        let mut mgr = BackgroundAgentManager::in_memory();
        mgr.start_with("a".into(), "s".into(), at, "t".into());
        let row = stored_form(&mgr.status("a").unwrap());
        let otherwise = Timestamp { secs: 5, nanos: 5 };
        assert_eq!(restored(row, None, otherwise).started_at, at);
    }
}

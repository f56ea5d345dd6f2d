use caduceus::automation_commands::{handle_automate_command, template_files};
use caduceus::automations::{
    Automation, AutomationAgentConfig, AutomationError, AutomationRegistry, AutomationRunner,
    AutomationTrigger, CronScheduler, WebhookListener,
};
use caduceus::clock::Timestamp;

fn make_test_automation(name: &str, trigger: AutomationTrigger) -> Automation {
    Automation {
        id: format!("test-{name}"),
        name: name.to_string(),
        trigger,
        agent_config: AutomationAgentConfig {
            mode: "Autopilot".to_string(),
            model: "test-model".to_string(),
            prompt_template: "Do something with {{event}}".to_string(),
            tools: vec!["Read".to_string()],
            max_turns: 5,
            auto_commit: false,
            auto_pr: false,
        },
        enabled: true,
        created_at: Timestamp { secs: 0, nanos: 0 },
        last_run: None,
        run_count: 0,
    }
}

#[test]
fn registry_register_and_list() {
    let mut registry = AutomationRegistry::empty();

    let auto = make_test_automation("test-auto", AutomationTrigger::Manual);
    registry.register(auto).unwrap();

    let list = registry.list();
    assert_eq!(list.len(), 1);
    assert_eq!(list[0].name, "test-auto");
}

#[test]
fn registry_duplicate_rejected() {
    let mut registry = AutomationRegistry::empty();

    let auto = make_test_automation("dup", AutomationTrigger::Manual);
    registry.register(auto.clone()).unwrap();
    let err = registry.register(auto).unwrap_err();
    assert!(matches!(err, AutomationError::AlreadyExists(_)));
    assert_eq!(err.message(), "Automation already exists: dup");
}

#[test]
fn registry_remove() {
    let mut registry = AutomationRegistry::empty();

    let auto = make_test_automation("removable", AutomationTrigger::Manual);
    registry.register(auto).unwrap();
    assert_eq!(registry.list().len(), 1);

    registry.remove("removable").unwrap();
    assert_eq!(registry.list().len(), 0);
    assert!(matches!(registry.remove("removable"), Err(AutomationError::NotFound(_))));
}

#[test]
fn registry_enable_disable() {
    let mut registry = AutomationRegistry::empty();

    let auto = make_test_automation("toggle", AutomationTrigger::Manual);
    registry.register(auto).unwrap();

    registry.set_enabled("toggle", false).unwrap();
    assert!(!registry.get("toggle").unwrap().enabled);

    registry.set_enabled("toggle", true).unwrap();
    assert!(registry.get("toggle").unwrap().enabled);
}

#[test]
fn registry_persistence() {
    let mut registry = AutomationRegistry::empty();
    let auto = make_test_automation("persist", AutomationTrigger::Manual);
    registry.register(auto).unwrap();
    // Re-open and verify
    let registry = AutomationRegistry::new(registry.list().to_vec());
    let list = registry.list();
    assert_eq!(list.len(), 1);
    assert_eq!(list[0].name, "persist");
}

#[test]
fn runner_prepare_prompt() {
    let config = AutomationAgentConfig {
        mode: "Autopilot".to_string(),
        model: "m".to_string(),
        prompt_template: "Fix: {{event}}".to_string(),
        tools: vec![],
        max_turns: 1,
        auto_commit: false,
        auto_pr: false,
    };
    let prompt = AutomationRunner::prepare_prompt(&config, "test failure in foo.rs");
    assert_eq!(prompt, "Fix: test failure in foo.rs");
}

#[test]
fn runner_run_succeeds() {
    let auto = make_test_automation("run-test", AutomationTrigger::Manual);
    let result = AutomationRunner::run(&auto, "manual trigger").unwrap();
    assert!(result.success);
    assert_eq!(result.automation_id, "test-run-test");
    assert_eq!(result.output, "Automation 'run-test' completed");
    assert_eq!(result.cost_micro_usd, 0);
}

#[test]
fn cron_parse_every_n_minutes() {
    assert_eq!(CronScheduler::parse_interval("*/5 * * * *").unwrap(), 300);
    assert_eq!(CronScheduler::parse_interval("*/30 * * * *").unwrap(), 1800);
}

#[test]
fn cron_parse_every_n_hours() {
    assert_eq!(CronScheduler::parse_interval("0 */6 * * *").unwrap(), 21600);
    assert_eq!(CronScheduler::parse_interval("0 */1 * * *").unwrap(), 3600);
}

#[test]
fn cron_parse_daily() {
    assert_eq!(CronScheduler::parse_interval("0 0 * * *").unwrap(), 86400);
}

#[test]
fn cron_parse_invalid() {
    assert!(CronScheduler::parse_interval("bad").is_err());
    assert!(CronScheduler::parse_interval("*/0 * * * *").is_err());
    let too_long = "*/18446744073709551615 * * * *";
    let err = CronScheduler::parse_interval(too_long).unwrap_err();
    assert_eq!(err.message(), format!("Invalid cron expression: {too_long}"));
    assert!(CronScheduler::parse_interval("0 0 1 * *").is_err());
    assert!(CronScheduler::parse_interval("5 0 * * *").is_err());
}

#[test]
fn webhook_listener_routes() {
    let mut registry = AutomationRegistry::empty();

    let auto = make_test_automation(
        "wh-test",
        AutomationTrigger::Webhook {
            path: "deploy".to_string(),
        },
    );
    registry.register(auto).unwrap();

    let mut listener = WebhookListener::new(registry);
    let result = listener.handle("deploy", r#"{"action":"push"}"#).unwrap();
    assert!(result.success);
    assert_eq!(result.trigger_event, r#"{"action":"push"}"#);
    assert_eq!(listener.registry.get("wh-test").unwrap().run_count, 1);
}

#[test]
fn webhook_listener_not_found() {
    let registry = AutomationRegistry::empty();
    let mut listener = WebhookListener::new(registry);
    let err = listener.handle("missing", "{}").unwrap_err();
    assert!(matches!(err, AutomationError::NotFound(_)));
    assert_eq!(err.message(), "Automation not found: webhook path: missing");
}

#[test]
fn handle_automate_list_empty() {
    let mut registry = AutomationRegistry::empty();
    let out = handle_automate_command(&mut registry, "list", "m").unwrap();
    assert!(out.contains("No automations"));
}

#[test]
fn handle_automate_add_and_list() {
    let mut registry = AutomationRegistry::empty();
    let out = handle_automate_command(
        &mut registry,
        "add my-auto --trigger manual --prompt do stuff",
        "m",
    )
    .unwrap();
    assert!(out.contains("created"));

    let out = handle_automate_command(&mut registry, "list", "m").unwrap();
    assert!(out.contains("my-auto"));
}

#[test]
fn create_template_files_creates_three() {
    let files = template_files("some-model");
    let names: Vec<&str> = files.iter().map(|t| t.filename.as_str()).collect();
    assert!(names.contains(&"nightly-tests.json"));
    assert!(names.contains(&"pr-review.json"));
    assert!(names.contains(&"dependency-update.json"));
    assert!(files.iter().all(|t| !t.automation.enabled));
    assert_eq!(files[1].automation.agent_config.mode, "Review");
    assert_eq!(files[2].automation.agent_config.model, "some-model");
}

#[test]
fn record_run_increments_count() {
    let mut registry = AutomationRegistry::empty();
    let auto = make_test_automation("counter", AutomationTrigger::Manual);
    registry.register(auto).unwrap();

    registry.record_run("counter").unwrap();
    registry.record_run("counter").unwrap();

    let a = registry.get("counter").unwrap();
    assert_eq!(a.run_count, 2);
    assert!(a.last_run.is_some());
}

#[test]
fn flags_describe_automations() {
    let mut registry = AutomationRegistry::empty();
    let mut add = |args: &str| handle_automate_command(&mut registry, args, "m").unwrap();
    assert_eq!(
        add("add a --trigger cron:@daily --prompt look at {{event}} --other x"),
        "Automation 'a' created."
    );
    add("add b --trigger webhook:deploy");
    add("add c --trigger pr:me/repo --prompt");
    add("add d --trigger push:main");
    add("add e --trigger file:*.rs");
    add("add f --trigger");
    add("add g --trigger nonsense");
    let list = add("list");
    assert_eq!(
        list,
        "Automations:\n  [✓] a — Cron(\"@daily\") (runs: 0)\n  [✓] b — Webhook { path: \"deploy\" } (runs: 0)\n  [✓] c — GitHubPR { repo: \"me/repo\" } (runs: 0)\n  [✓] d — GitHubPush { branch: \"main\" } (runs: 0)\n  [✓] e — FileChange { pattern: \"*.rs\" } (runs: 0)\n  [✓] f — Manual (runs: 0)\n  [✓] g — Manual (runs: 0)\n"
    );
    let a = registry.get("a").unwrap();
    assert_eq!(a.agent_config.prompt_template, "look at {{event}}");
    assert_eq!(a.agent_config.max_turns, 25);
    assert_eq!(registry.get("c").unwrap().agent_config.prompt_template, "{{event}}");
    assert_ne!(a.id, registry.get("b").unwrap().id);
}

#[test]
fn automations_run_and_switch_by_command() {
    let mut registry = AutomationRegistry::empty();
    let mut say =
        |args: &str| handle_automate_command(&mut registry, args, "m").map_err(|e| e.message());
    say("add job").unwrap();
    assert_eq!(say("add job"), Err("Automation already exists: job".to_string()));
    assert_eq!(
        say("run job").unwrap(),
        "Ran 'job': success=true, output=Automation 'job' completed"
    );
    assert_eq!(say("disable job").unwrap(), "Automation 'job' disabled.");
    assert_eq!(say("list").unwrap(), "Automations:\n  [✗] job — Manual (runs: 1)\n");
    assert_eq!(say("enable job").unwrap(), "Automation 'job' enabled.");
    assert_eq!(say("enable none"), Err("Automation not found: none".to_string()));
    assert_eq!(say("run"), Ok("Usage: /automate run <name>".to_string()));
    assert_eq!(say("").unwrap(), "Usage: /automate [list|add|run|enable|disable] ...");
    assert_eq!(say("hop").unwrap(), "Unknown sub-command: hop");
}

#[test]
fn schedules_run_what_is_enabled() {
    let mut registry = AutomationRegistry::empty();
    let auto = make_test_automation("tick", AutomationTrigger::Cron("*/5 * * * *".to_string()));
    registry.register(auto).unwrap();
    let mut cron = CronScheduler::default();
    assert_eq!(cron.schedule("tick", "*/5 * * * *").unwrap(), 300);
    assert!(cron.schedule("other", "bad").is_err());
    assert_eq!(cron.scheduled(), ["tick".to_string()]);
    let run = CronScheduler::tick(&mut registry, "tick").unwrap();
    assert!(run.trigger_event.starts_with("cron:20"), "{}", run.trigger_event);
    assert!(run.trigger_event.contains('T'));
    registry.set_enabled("tick", false).unwrap();
    assert!(CronScheduler::tick(&mut registry, "tick").is_none());
    assert_eq!(registry.get("tick").unwrap().run_count, 1);
    assert!(cron.cancel("tick"));
    assert!(!cron.cancel("tick"));
}

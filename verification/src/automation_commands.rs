//! The commands on automations, and the automations that come ready-made.

use crate::automations::{
    after_run, after_switch, auto_of, automation_models, has_auto, names_differ, names_of,
    Automation, AutomationAgentConfig, AutomationError, AutomationFault, AutomationModel,
    AutomationRegistry, AutomationRunner, AutomationTrigger, ConfigModel, TriggerModel,
};
use crate::clock::{fresh_id, present, Timestamp};
use crate::keyed::{key_place, lemma_key_place, lemma_key_place_is};
use crate::numeral::{decimal, decimal_text};
use crate::split::{join, join_texts, words, words_of};
use crate::text::{
    chars_of, chars_strip_front, contains_text, lemma_contains_part, lemma_other_start,
    lemma_starts_with_part, lemma_texts_push, occurs_at, same_text, starts_with, str_starts_with,
    strip_front, text_of, texts,
};
use vstd::prelude::*;
use vstd::string::*;

verus! {

broadcast use lemma_texts_push;

// ── Flags ──────────────────────────────────────────────────────────────────
/// What the value of `--trigger` means. What is not understood means the user.
pub open spec fn trigger_of(v: Seq<char>) -> TriggerModel {
    match strip_front(v, "cron:"@) {
        Some(s) => TriggerModel::Cron(s),
        None => match strip_front(v, "webhook:"@) {
            Some(path) => TriggerModel::Webhook { path },
            None => match strip_front(v, "pr:"@) {
                Some(repo) => TriggerModel::GitHubPR { repo },
                None => match strip_front(v, "push:"@) {
                    Some(branch) => TriggerModel::GitHubPush { branch },
                    None => match strip_front(v, "file:"@) {
                        Some(pattern) => TriggerModel::FileChange { pattern },
                        None => TriggerModel::Manual,
                    },
                },
            },
        },
    }
}

fn after(s: &str, head: &str) -> (r: Option<String>)
    ensures
        match r {
            Some(t) => strip_front(s@, head@) == Some(t@),
            None => strip_front(s@, head@) is None,
        },
{
    let chars = chars_of(s);
    match chars_strip_front(chars.as_slice(), head) {
        Some(rest) => Some(text_of(rest)),
        None => None,
    }
}

/// What the value of `--trigger` means.
pub fn parse_trigger(v: &str) -> (r: AutomationTrigger)
    ensures
        r@ == trigger_of(v@),
{
    if let Some(s) = after(v, "cron:") {
        return AutomationTrigger::Cron(s);
    }
    if let Some(path) = after(v, "webhook:") {
        return AutomationTrigger::Webhook { path };
    }
    if let Some(repo) = after(v, "pr:") {
        return AutomationTrigger::GitHubPR { repo };
    }
    if let Some(branch) = after(v, "push:") {
        return AutomationTrigger::GitHubPush { branch };
    }
    if let Some(pattern) = after(v, "file:") {
        return AutomationTrigger::FileChange { pattern };
    }
    AutomationTrigger::Manual
}

/// What starts the automation that a command line describes.
pub open spec fn trigger_flag(ws: Seq<Seq<char>>) -> TriggerModel {
    let at = key_place(ws, "--trigger"@);
    if at + 1 < ws.len() {
        trigger_of(ws[at + 1])
    } else {
        TriggerModel::Manual
    }
}

fn flag_place(parts: &[String], flag: &str) -> (r: usize)
    ensures
        r == key_place(texts(parts@), flag@),
        r <= parts@.len(),
{
    let ghost all = texts(parts@);
    let mut i: usize = 0;
    assert(all.skip(0) =~= all);
    while i < parts.len()
        invariant
            i <= parts@.len(),
            all == texts(parts@),
            key_place(all, flag@) == i + key_place(all.skip(i as int), flag@),
        decreases parts@.len() - i,
    {
        proof {
            assert(all.skip(i as int)[0] == parts@[i as int]@);
            assert(all.skip(i as int).skip(1) =~= all.skip(i + 1));
        }
        if same_text(parts[i].as_str(), flag) {
            return i;
        }
        i += 1;
    }
    i
}

/// What starts the automation that the words of a command line describe.
pub fn parse_trigger_flag(parts: &[String]) -> (r: AutomationTrigger)
    ensures
        r@ == trigger_flag(texts(parts@)),
{
    let at: usize = flag_place(parts, "--trigger");
    if at < parts.len() && at + 1 < parts.len() {
        assert(texts(parts@)[at + 1] == parts@[at + 1]@);
        parse_trigger(parts[at + 1].as_str())
    } else {
        AutomationTrigger::Manual
    }
}

/// The words up to the next flag.
pub open spec fn until_flag(ws: Seq<Seq<char>>) -> Seq<Seq<char>>
    decreases ws.len(),
{
    if ws.len() == 0 || starts_with(ws[0], "--"@) {
        Seq::empty()
    } else {
        seq![ws[0]] + until_flag(ws.skip(1))
    }
}

/// The prompt of the automation that a command line describes.
pub open spec fn prompt_flag(ws: Seq<Seq<char>>) -> Seq<char> {
    let at = key_place(ws, "--prompt"@);
    let given = until_flag(ws.skip(at + 1));
    if at < ws.len() && given.len() > 0 {
        join(given, " "@)
    } else {
        "{{event}}"@
    }
}

/// The prompt of the automation that the words of a command line describe.
pub fn parse_prompt_flag(parts: &[String]) -> (r: String)
    ensures
        r@ == prompt_flag(texts(parts@)),
{
    let ghost ws = texts(parts@);
    let at: usize = flag_place(parts, "--prompt");
    if at < parts.len() {
        let ghost rest = ws.skip(at + 1);
        let mut given: Vec<String> = Vec::new();
        let mut i: usize = at + 1;
        assert(texts(given@) + until_flag(rest) =~= until_flag(rest));
        assert(ws.skip(i as int) =~= rest);
        while i < parts.len() && !str_starts_with(parts[i].as_str(), "--")
            invariant
                at < i <= parts@.len(),
                ws == texts(parts@),
                texts(given@) + until_flag(ws.skip(i as int)) == until_flag(rest),
            decreases parts@.len() - i,
        {
            let ghost before = texts(given@);
            let ghost part = ws.skip(i as int);
            given.push(parts[i].clone());
            proof {
                assert(part[0] == parts@[i as int]@);
                assert(part.skip(1) =~= ws.skip(i + 1));
                assert(before + (seq![part[0]] + until_flag(part.skip(1))) =~= before.push(part[0])
                    + until_flag(part.skip(1)));
            }
            i += 1;
        }
        proof {
            if i < parts@.len() {
                assert(ws.skip(i as int)[0] == parts@[i as int]@);
            }
            assert(until_flag(ws.skip(i as int)) =~= Seq::empty());
            assert(texts(given@) + Seq::<Seq<char>>::empty() =~= texts(given@));
        }
        if given.len() > 0 {
            return join_texts(given.as_slice(), " ");
        }
    }
    "{{event}}".to_owned()
}

// ── Lists ──────────────────────────────────────────────────────────────────
/// How `{:?}` shows a text.
pub uninterp spec fn debug_text(s: Seq<char>) -> Seq<char>;

/// Shows a text as `{:?}` of the standard library does, in quotes and with
/// escapes. What comes out depends on the text alone.
#[verifier::external_body]
fn show_debug(s: &str) -> (r: String)
    ensures
        r@ == debug_text(s@),
{
    format!("{:?}", s)
}

/// A trigger in words, with its text as it is shown in quotes.
pub open spec fn trigger_text(t: TriggerModel) -> Seq<char> {
    match t {
        TriggerModel::Cron(s) => "Cron("@ + debug_text(s) + ")"@,
        TriggerModel::GitHubPR { repo } => "GitHubPR { repo: "@ + debug_text(repo) + " }"@,
        TriggerModel::GitHubPush { branch } => "GitHubPush { branch: "@ + debug_text(branch)
            + " }"@,
        TriggerModel::Webhook { path } => "Webhook { path: "@ + debug_text(path) + " }"@,
        TriggerModel::FileChange { pattern } => "FileChange { pattern: "@ + debug_text(pattern)
            + " }"@,
        TriggerModel::Manual => "Manual"@,
    }
}

fn between(head: &str, text: &str, tail: &str) -> (r: String)
    ensures
        r@ == head@ + text@ + tail@,
{
    let mut out = head.to_owned();
    out.append(text);
    out.append(tail);
    out
}

/// A trigger in words.
pub fn format_trigger(t: &AutomationTrigger) -> (r: String)
    ensures
        r@ == trigger_text(t@),
{
    match t {
        AutomationTrigger::Cron(s) => between("Cron(", show_debug(s.as_str()).as_str(), ")"),
        AutomationTrigger::GitHubPR { repo } => between(
            "GitHubPR { repo: ",
            show_debug(repo.as_str()).as_str(),
            " }",
        ),
        AutomationTrigger::GitHubPush { branch } => between(
            "GitHubPush { branch: ",
            show_debug(branch.as_str()).as_str(),
            " }",
        ),
        AutomationTrigger::Webhook { path } => between(
            "Webhook { path: ",
            show_debug(path.as_str()).as_str(),
            " }",
        ),
        AutomationTrigger::FileChange { pattern } => between(
            "FileChange { pattern: ",
            show_debug(pattern.as_str()).as_str(),
            " }",
        ),
        AutomationTrigger::Manual => "Manual".to_owned(),
    }
}

/// The line of an automation in a list, with its trigger in words.
pub open spec fn auto_line(a: AutomationModel, trigger: Seq<char>) -> Seq<char> {
    "  ["@ + (if a.enabled {
        "✓"@
    } else {
        "✗"@
    }) + "] "@ + a.name + " — "@ + trigger + " (runs: "@ + decimal(a.run_count as nat) + ")\n"@
}

/// The line of an automation in a list, with its trigger in words.
pub fn format_automation(a: &Automation, trigger: &str) -> (r: String)
    ensures
        r@ == auto_line(a@, trigger@),
{
    let runs = decimal_text(a.run_count);
    let mut line = "  [".to_owned();
    line.append(
        if a.enabled {
            "✓"
        } else {
            "✗"
        },
    );
    line.append("] ");
    line.append(a.name.as_str());
    line.append(" — ");
    line.append(trigger);
    line.append(" (runs: ");
    line.append(runs.as_str());
    line.append(")\n");
    line
}

/// The lines of the first `n` automations.
pub open spec fn auto_lines(autos: Seq<AutomationModel>, n: nat) -> Seq<char>
    decreases n,
{
    if n == 0 {
        "Automations:\n"@
    } else {
        auto_lines(autos, (n - 1) as nat) + auto_line(
            autos[n - 1],
            trigger_text(autos[n - 1].trigger),
        )
    }
}

/// The list of automations.
pub open spec fn auto_list(autos: Seq<AutomationModel>) -> Seq<char> {
    if autos.len() == 0 {
        "No automations registered."@
    } else {
        auto_lines(autos, autos.len())
    }
}

/// The list of automations.
pub fn format_automations(autos: &[Automation]) -> (r: String)
    ensures
        r@ == auto_list(automation_models(autos@)),
{
    let ghost all = automation_models(autos@);
    if autos.len() == 0 {
        return "No automations registered.".to_owned();
    }
    let mut out = "Automations:\n".to_owned();
    let mut i: usize = 0;
    while i < autos.len()
        invariant
            i <= autos@.len(),
            all == automation_models(autos@),
            out@ == auto_lines(all, i as nat),
        decreases autos@.len() - i,
    {
        assert(all[i as int] == autos@[i as int]@);
        let trigger = format_trigger(&autos[i].trigger);
        let line = format_automation(&autos[i], trigger.as_str());
        out.append(line.as_str());
        i += 1;
    }
    out
}

// ── New automations ────────────────────────────────────────────────────────
/// A new automation.
pub open spec fn new_model(
    id: Seq<char>,
    name: Seq<char>,
    trigger: TriggerModel,
    config: ConfigModel,
    enabled: bool,
    at: Timestamp,
) -> AutomationModel {
    AutomationModel {
        id,
        name,
        trigger,
        config,
        enabled,
        created_at: at,
        last_run: None,
        run_count: 0,
    }
}

fn owned_texts(v: &[&str]) -> (r: Vec<String>)
    ensures
        texts(r@) == crate::text::str_views(v@),
{
    let ghost all = crate::text::str_views(v@);
    let mut out: Vec<String> = Vec::new();
    let mut i: usize = 0;
    assert(texts(out@) =~= all.take(0));
    while i < v.len()
        invariant
            i <= v@.len(),
            all == crate::text::str_views(v@),
            texts(out@) == all.take(i as int),
        decreases v@.len() - i,
    {
        out.push(v[i].to_owned());
        assert(texts(out@) =~= all.take(i + 1));
        i += 1;
    }
    assert(all.take(i as int) =~= all);
    out
}

/// The agent of an automation that a command line describes.
pub open spec fn added_config(prompt: Seq<char>, model: Seq<char>) -> ConfigModel {
    ConfigModel {
        mode: "Autopilot"@,
        model,
        prompt_template: prompt,
        tools: seq!["Read"@, "Write"@, "Bash"@],
        max_turns: 25,
        auto_commit: false,
        auto_pr: false,
    }
}

/// The automation that a command line describes.
pub open spec fn added(
    ws: Seq<Seq<char>>,
    model: Seq<char>,
    id: Seq<char>,
    at: Timestamp,
) -> AutomationModel {
    new_model(id, ws[1], trigger_flag(ws), added_config(prompt_flag(ws), model), true, at)
}

/// The automation that the words of a command line describe.
pub fn described(parts: &[String], model: &str, id: String, at: Timestamp) -> (r: Automation)
    requires
        parts@.len() >= 2,
    ensures
        r@ == added(texts(parts@), model@, id@, at),
{
    let tools: [&str; 3] = ["Read", "Write", "Bash"];
    assert(crate::text::str_views(tools@) =~= seq!["Read"@, "Write"@, "Bash"@]);
    assert(texts(parts@)[1] == parts@[1]@);
    Automation {
        id,
        name: parts[1].clone(),
        trigger: parse_trigger_flag(parts),
        agent_config: AutomationAgentConfig {
            mode: "Autopilot".to_owned(),
            model: model.to_owned(),
            prompt_template: parse_prompt_flag(parts),
            tools: owned_texts(tools.as_slice()),
            max_turns: 25,
            auto_commit: false,
            auto_pr: false,
        },
        enabled: true,
        created_at: at,
        last_run: None,
        run_count: 0,
    }
}

// ── Commands ───────────────────────────────────────────────────────────────
/// What is told of an automation after a command on it.
pub open spec fn auto_told(name: Seq<char>, what: Seq<char>) -> Seq<char> {
    "Automation '"@ + name + what
}

/// `r` answers the words of a command line on the automations `before`, which
/// are `after` then. New automations use `model`.
pub open spec fn automate_answers(
    ws: Seq<Seq<char>>,
    model: Seq<char>,
    before: Seq<AutomationModel>,
    after: Seq<AutomationModel>,
    r: Result<String, AutomationError>,
) -> bool {
    if ws.len() == 0 {
        after == before && r is Ok && r->Ok_0@
            == "Usage: /automate [list|add|run|enable|disable] ..."@
    } else if ws[0] == "list"@ {
        after == before && r is Ok && r->Ok_0@ == auto_list(before)
    } else if ws[0] == "add"@ {
        if ws.len() < 2 {
            after == before && r is Ok && r->Ok_0@
                == "Usage: /automate add <name> --trigger <type> --prompt <template>"@
        } else if has_auto(before, ws[1]) {
            after == before && r is Err && r->Err_0@ == AutomationFault::AlreadyExists(ws[1])
        } else {
            r is Ok && r->Ok_0@ == auto_told(ws[1], "' created."@) && exists|
                id: Seq<char>,
                at: Timestamp,
            |
                after == before.push(#[trigger] added(ws, model, id, at))
        }
    } else if ws[0] == "run"@ {
        if ws.len() < 2 {
            after == before && r is Ok && r->Ok_0@ == "Usage: /automate run <name>"@
        } else if !has_auto(before, ws[1]) {
            after == before && r is Err && r->Err_0@ == AutomationFault::NotFound(ws[1])
        } else {
            r is Ok && r->Ok_0@ == "Ran '"@ + ws[1] + "': success="@ + "true"@ + ", output="@ + (
            "Automation '"@ + auto_of(before, ws[1]).name + "' completed"@) && exists|
                at: Timestamp,
            |
                after == #[trigger] after_run(before, ws[1], at)
        }
    } else if ws[0] == "enable"@ || ws[0] == "disable"@ {
        let on = ws[0] == "enable"@;
        if ws.len() < 2 {
            after == before && r is Ok && r->Ok_0@ == (if on {
                "Usage: /automate enable <name>"@
            } else {
                "Usage: /automate disable <name>"@
            })
        } else if !has_auto(before, ws[1]) {
            after == before && r is Err && r->Err_0@ == AutomationFault::NotFound(ws[1])
        } else {
            r is Ok && after == after_switch(before, ws[1], on) && r->Ok_0@ == auto_told(
                ws[1],
                if on {
                    "' enabled."@
                } else {
                    "' disabled."@
                },
            )
        }
    } else {
        after == before && r is Ok && r->Ok_0@ == "Unknown sub-command: "@ + ws[0]
    }
}

fn told(name: &str, what: &str) -> (r: String)
    ensures
        r@ == auto_told(name@, what@),
{
    between("Automation '", name, what)
}

fn switch(registry: &mut AutomationRegistry, name: &str, on: bool) -> (r: Result<
    String,
    AutomationError,
>)
    ensures
        if has_auto(old(registry)@, name@) {
            r is Ok && final(registry)@ == after_switch(old(registry)@, name@, on) && r->Ok_0@
                == auto_told(
                name@,
                if on {
                    "' enabled."@
                } else {
                    "' disabled."@
                },
            )
        } else {
            final(registry)@ == old(registry)@ && r is Err && r->Err_0@
                == AutomationFault::NotFound(name@)
        },
        names_of(final(registry)@) == names_of(old(registry)@),
{
    match registry.set_enabled(name, on) {
        Ok(()) => Ok(
            told(
                name,
                if on {
                    "' enabled."
                } else {
                    "' disabled."
                },
            ),
        ),
        Err(e) => Err(e),
    }
}

fn run_by_hand(registry: &mut AutomationRegistry, name: &str) -> (r: Result<
    String,
    AutomationError,
>)
    requires
        has_auto(old(registry)@, name@) ==> auto_of(old(registry)@, name@).run_count < u64::MAX,
    ensures
        if has_auto(old(registry)@, name@) {
            r is Ok && r->Ok_0@ == "Ran '"@ + name@ + "': success="@ + "true"@ + ", output="@ + (
            "Automation '"@ + auto_of(old(registry)@, name@).name + "' completed"@) && exists|
                at: Timestamp,
            |
                final(registry)@ == #[trigger] after_run(old(registry)@, name@, at)
        } else {
            final(registry)@ == old(registry)@ && r is Err && r->Err_0@
                == AutomationFault::NotFound(name@)
        },
        names_of(final(registry)@) == names_of(old(registry)@),
{
    let auto = match registry.get(name) {
        Some(a) => a,
        None => {
            return Err(AutomationError::NotFound(name.to_owned()));
        },
    };
    match AutomationRunner::run(&auto, "manual") {
        Ok(run) => match registry.record_run(name) {
            Ok(()) => {
                let mut out = "Ran '".to_owned();
                out.append(name);
                out.append("': success=");
                out.append(
                    if run.success {
                        "true"
                    } else {
                        "false"
                    },
                );
                out.append(", output=");
                out.append(run.output.as_str());
                Ok(out)
            },
            Err(e) => Err(e),
        },
        Err(e) => Err(e),
    }
}

/// Does what a command line asks for, and answers. The id of a new automation
/// and the time of a run are up to chance and the clock. It uses `model`.
pub fn handle_automate_command(
    registry: &mut AutomationRegistry,
    args: &str,
    model: &str,
) -> (r: Result<String, AutomationError>)
    requires
        forall|i: int|
            0 <= i < old(registry)@.len() ==> (#[trigger] old(registry)@[i]).run_count < u64::MAX,
    ensures
        automate_answers(words(args@), model@, old(registry)@, final(registry)@, r),
        names_differ(old(registry)@) ==> names_differ(final(registry)@),
{
    let parts = words_of(args);
    let n: usize = parts.len();
    let ghost ws = words(args@);
    assert(ws.len() == n);
    if n == 0 {
        return Ok("Usage: /automate [list|add|run|enable|disable] ...".to_owned());
    }
    proof {
        assert(ws[0] == parts@[0]@);
        assert(n > 1 ==> ws[1] == parts@[1]@);
        if n > 1 {
            lemma_key_place(names_of(registry@), ws[1]);
        }
    }
    let verb = parts[0].as_str();
    if same_text(verb, "list") {
        Ok(format_automations(registry.list()))
    } else if same_text(verb, "add") {
        if n < 2 {
            return Ok(
                "Usage: /automate add <name> --trigger <type> --prompt <template>".to_owned(),
            );
        }
        let id = fresh_id();
        let at = present();
        let ghost key = id@;
        let ghost before = registry@;
        let automation = described(parts.as_slice(), model, id, at);
        match registry.register(automation) {
            Ok(()) => {
                assert(registry@ == before.push(added(ws, model@, key, at)));
                Ok(told(parts[1].as_str(), "' created."))
            },
            Err(e) => Err(e),
        }
    } else if same_text(verb, "run") {
        if n < 2 {
            return Ok("Usage: /automate run <name>".to_owned());
        }
        run_by_hand(registry, parts[1].as_str())
    } else if same_text(verb, "enable") {
        if n < 2 {
            return Ok("Usage: /automate enable <name>".to_owned());
        }
        switch(registry, parts[1].as_str(), true)
    } else if same_text(verb, "disable") {
        if n < 2 {
            return Ok("Usage: /automate disable <name>".to_owned());
        }
        switch(registry, parts[1].as_str(), false)
    } else {
        let mut out = "Unknown sub-command: ".to_owned();
        out.append(verb);
        Ok(out)
    }
}

// ── Templates ──────────────────────────────────────────────────────────────
/// The automation that runs the tests each night.
pub open spec fn nightly_tests_model(model: Seq<char>, at: Timestamp) -> AutomationModel {
    new_model(
        "template-nightly-tests"@,
        "nightly-tests"@,
        TriggerModel::Cron("0 0 * * *"@),
        ConfigModel {
            mode: "Autopilot"@,
            model,
            prompt_template:
                "Run the full test suite. If any tests fail, analyze the failures, fix the code, and commit the fixes. Event: {{event}}"@,
            tools: seq!["Read"@, "Write"@, "Bash"@, "Grep"@],
            max_turns: 30,
            auto_commit: true,
            auto_pr: false,
        },
        false,
        at,
    )
}

/// The automation that runs the tests each night.
pub fn nightly_tests(model: &str, at: Timestamp) -> (r: Automation)
    ensures
        r@ == nightly_tests_model(model@, at),
{
    let tools: [&str; 4] = ["Read", "Write", "Bash", "Grep"];
    assert(crate::text::str_views(tools@) =~= seq!["Read"@, "Write"@, "Bash"@, "Grep"@]);
    Automation {
        id: "template-nightly-tests".to_owned(),
        name: "nightly-tests".to_owned(),
        trigger: AutomationTrigger::Cron("0 0 * * *".to_owned()),
        agent_config: AutomationAgentConfig {
            mode: "Autopilot".to_owned(),
            model: model.to_owned(),
            prompt_template:
                "Run the full test suite. If any tests fail, analyze the failures, fix the code, and commit the fixes. Event: {{event}}".to_owned(),
            tools: owned_texts(tools.as_slice()),
            max_turns: 30,
            auto_commit: true,
            auto_pr: false,
        },
        enabled: false,
        created_at: at,
        last_run: None,
        run_count: 0,
    }
}

/// The automation that reviews pull requests.
pub open spec fn pr_review_model(model: Seq<char>, at: Timestamp) -> AutomationModel {
    new_model(
        "template-pr-review"@,
        "pr-review"@,
        TriggerModel::GitHubPR { repo: "owner/repo"@ },
        ConfigModel {
            mode: "Review"@,
            model,
            prompt_template:
                "Review this pull request for bugs, security issues, and code quality. Provide actionable feedback. PR details: {{event}}"@,
            tools: seq!["Read"@, "Grep"@, "Glob"@],
            max_turns: 15,
            auto_commit: false,
            auto_pr: false,
        },
        false,
        at,
    )
}

/// The automation that reviews pull requests.
pub fn pr_review(model: &str, at: Timestamp) -> (r: Automation)
    ensures
        r@ == pr_review_model(model@, at),
{
    let tools: [&str; 3] = ["Read", "Grep", "Glob"];
    assert(crate::text::str_views(tools@) =~= seq!["Read"@, "Grep"@, "Glob"@]);
    Automation {
        id: "template-pr-review".to_owned(),
        name: "pr-review".to_owned(),
        trigger: AutomationTrigger::GitHubPR { repo: "owner/repo".to_owned() },
        agent_config: AutomationAgentConfig {
            mode: "Review".to_owned(),
            model: model.to_owned(),
            prompt_template:
                "Review this pull request for bugs, security issues, and code quality. Provide actionable feedback. PR details: {{event}}".to_owned(),
            tools: owned_texts(tools.as_slice()),
            max_turns: 15,
            auto_commit: false,
            auto_pr: false,
        },
        enabled: false,
        created_at: at,
        last_run: None,
        run_count: 0,
    }
}

/// The automation that updates dependencies each week.
pub open spec fn dependency_update_model(model: Seq<char>, at: Timestamp) -> AutomationModel {
    new_model(
        "template-dependency-update"@,
        "dependency-update"@,
        TriggerModel::Cron("0 0 * * 0"@),
        ConfigModel {
            mode: "Autopilot"@,
            model,
            prompt_template:
                "Audit project dependencies for security vulnerabilities and available updates. Update safe patches, run tests to verify, and create a PR with changes. Event: {{event}}"@,
            tools: seq!["Read"@, "Write"@, "Bash"@, "Grep"@],
            max_turns: 25,
            auto_commit: true,
            auto_pr: true,
        },
        false,
        at,
    )
}

/// The automation that updates dependencies each week.
pub fn dependency_update(model: &str, at: Timestamp) -> (r: Automation)
    ensures
        r@ == dependency_update_model(model@, at),
{
    let tools: [&str; 4] = ["Read", "Write", "Bash", "Grep"];
    assert(crate::text::str_views(tools@) =~= seq!["Read"@, "Write"@, "Bash"@, "Grep"@]);
    Automation {
        id: "template-dependency-update".to_owned(),
        name: "dependency-update".to_owned(),
        trigger: AutomationTrigger::Cron("0 0 * * 0".to_owned()),
        agent_config: AutomationAgentConfig {
            mode: "Autopilot".to_owned(),
            model: model.to_owned(),
            prompt_template:
                "Audit project dependencies for security vulnerabilities and available updates. Update safe patches, run tests to verify, and create a PR with changes. Event: {{event}}".to_owned(),
            tools: owned_texts(tools.as_slice()),
            max_turns: 25,
            auto_commit: true,
            auto_pr: true,
        },
        enabled: false,
        created_at: at,
        last_run: None,
        run_count: 0,
    }
}

/// An automation that comes ready-made, and the file that it goes to.
#[derive(Debug)]
pub struct Template {
    pub filename: String,
    pub automation: Automation,
}

/// The automations that come ready-made, as of now. They use `model`.
pub fn template_files(model: &str) -> (r: Vec<Template>)
    ensures
        r@.len() == 3,
        r@[0].filename@ == "nightly-tests.json"@,
        r@[0].automation@ == nightly_tests_model(model@, r@[0].automation.created_at),
        r@[1].filename@ == "pr-review.json"@,
        r@[1].automation@ == pr_review_model(model@, r@[1].automation.created_at),
        r@[2].filename@ == "dependency-update.json"@,
        r@[2].automation@ == dependency_update_model(model@, r@[2].automation.created_at),
{
    let mut out: Vec<Template> = Vec::new();
    out.push(
        Template {
            filename: "nightly-tests.json".to_owned(),
            automation: nightly_tests(model, present()),
        },
    );
    out.push(
        Template { filename: "pr-review.json".to_owned(), automation: pr_review(model, present()) },
    );
    out.push(
        Template {
            filename: "dependency-update.json".to_owned(),
            automation: dependency_update(model, present()),
        },
    );
    out
}

// ── Laws ───────────────────────────────────────────────────────────────────
/// What stands behind the name of a trigger is what it waits for.
pub proof fn law_triggers_are_read(v: Seq<char>)
    ensures
        trigger_of("cron:"@ + v) == TriggerModel::Cron(v),
        trigger_of("webhook:"@ + v) == (TriggerModel::Webhook { path: v }),
        trigger_of("pr:"@ + v) == (TriggerModel::GitHubPR { repo: v }),
        trigger_of("push:"@ + v) == (TriggerModel::GitHubPush { branch: v }),
        trigger_of("file:"@ + v) == (TriggerModel::FileChange { pattern: v }),
        !v.contains(':') ==> trigger_of(v) is Manual,
{
    reveal_strlit("cron:");
    reveal_strlit("webhook:");
    reveal_strlit("pr:");
    reveal_strlit("push:");
    reveal_strlit("file:");
    lemma_starts_with_part("cron:"@, v);
    lemma_starts_with_part("webhook:"@, v);
    lemma_starts_with_part("pr:"@, v);
    lemma_starts_with_part("push:"@, v);
    lemma_starts_with_part("file:"@, v);
    lemma_other_start("webhook:"@ + v, "cron:"@, 0);
    lemma_other_start("pr:"@ + v, "cron:"@, 0);
    lemma_other_start("push:"@ + v, "cron:"@, 0);
    lemma_other_start("file:"@ + v, "cron:"@, 0);
    lemma_other_start("pr:"@ + v, "webhook:"@, 0);
    lemma_other_start("push:"@ + v, "webhook:"@, 0);
    lemma_other_start("file:"@ + v, "webhook:"@, 0);
    lemma_other_start("push:"@ + v, "pr:"@, 1);
    lemma_other_start("file:"@ + v, "pr:"@, 0);
    lemma_other_start("file:"@ + v, "push:"@, 0);
    if !v.contains(':') {
        let all = seq!["cron:"@, "webhook:"@, "pr:"@, "push:"@, "file:"@];
        assert forall|k: int| 0 <= k < 5 implies !starts_with(v, #[trigger] all[k]) by {
            let p = all[k];
            if starts_with(v, p) {
                assert(v.subrange(0, p.len() as int)[p.len() - 1] == v[p.len() - 1]);
                assert(p[p.len() - 1] == ':');
                assert(v.contains(v[p.len() - 1]));
            }
        }
        assert(all[0] == "cron:"@ && all[1] == "webhook:"@ && all[2] == "pr:"@ && all[3]
            == "push:"@ && all[4] == "file:"@);
    }
}

/// The word behind `--trigger` tells the trigger, wherever it stands; without it the user
/// starts the automation.
pub proof fn law_the_word_behind_the_flag_is_the_trigger(
    before: Seq<Seq<char>>,
    v: Seq<char>,
    after: Seq<Seq<char>>,
)
    requires
        !before.contains("--trigger"@),
    ensures
        trigger_flag(before + seq!["--trigger"@, v] + after) == trigger_of(v),
        trigger_flag(before) is Manual,
        trigger_flag(before.push("--trigger"@)) is Manual,
{
    let ws = before + seq!["--trigger"@, v] + after;
    assert forall|i: int| 0 <= i < before.len() implies #[trigger] before[i] != "--trigger"@ by {
        assert(before.contains(before[i]));
    }
    assert forall|i: int| 0 <= i < before.len() implies #[trigger] ws[i] != "--trigger"@ by {
        assert(ws[i] == before[i]);
    }
    lemma_key_place_is(ws, "--trigger"@, before.len() as int);
    assert(ws[before.len() as int + 1] == v);
    lemma_key_place(before, "--trigger"@);
    let last = before.push("--trigger"@);
    assert forall|i: int| 0 <= i < before.len() implies #[trigger] last[i] != "--trigger"@ by {
        assert(last[i] == before[i]);
    }
    lemma_key_place_is(last, "--trigger"@, before.len() as int);
}

/// The words behind `--prompt` up to the next flag are the prompt.
pub proof fn law_the_words_behind_the_flag_are_the_prompt(
    before: Seq<Seq<char>>,
    given: Seq<Seq<char>>,
    after: Seq<Seq<char>>,
)
    requires
        !before.contains("--prompt"@),
        given.len() > 0,
        forall|i: int| 0 <= i < given.len() ==> !starts_with(#[trigger] given[i], "--"@),
        after.len() > 0 ==> starts_with(after[0], "--"@),
    ensures
        prompt_flag(before + seq!["--prompt"@] + given + after) == join(given, " "@),
        prompt_flag(before) == "{{event}}"@,
{
    let ws = before + seq!["--prompt"@] + given + after;
    let at = before.len() as int;
    assert forall|i: int| 0 <= i < before.len() implies #[trigger] ws[i] != "--prompt"@ by {
        assert(before.contains(before[i]));
        assert(ws[i] == before[i]);
    }
    lemma_key_place_is(ws, "--prompt"@, at);
    assert(ws.skip(at + 1) =~= given + after);
    lemma_until_flag(given, after);
    lemma_key_place(before, "--prompt"@);
}

proof fn lemma_until_flag(given: Seq<Seq<char>>, after: Seq<Seq<char>>)
    requires
        forall|i: int| 0 <= i < given.len() ==> !starts_with(#[trigger] given[i], "--"@),
        after.len() > 0 ==> starts_with(after[0], "--"@),
    ensures
        until_flag(given + after) == given,
    decreases given.len(),
{
    let ws = given + after;
    if given.len() > 0 {
        let rest = given.skip(1);
        assert(ws.skip(1) =~= rest + after);
        assert(!starts_with(given[0], "--"@));
        assert forall|i: int| 0 <= i < rest.len() implies !starts_with(
            #[trigger] rest[i],
            "--"@,
        ) by {
            assert(rest[i] == given[i + 1]);
        }
        lemma_until_flag(rest, after);
        assert(seq![given[0]] + rest =~= given);
    } else {
        assert(ws =~= after);
    }
}

/// An automation is added as the command line describes it: switched on, not run yet, with
/// the name behind `add`.
pub proof fn law_automations_are_added_as_described(
    name: Seq<char>,
    rest: Seq<Seq<char>>,
    model: Seq<char>,
    id: Seq<char>,
    at: Timestamp,
)
    ensures
        ({
            let a = added(seq!["add"@, name] + rest, model, id, at);
            &&& a.name == name
            &&& a.id == id
            &&& a.config.model == model
            &&& a.enabled
            &&& a.run_count == 0
            &&& a.last_run is None
            &&& a.created_at == at
            &&& !a.config.auto_commit
            &&& !a.config.auto_pr
        }),
{
    assert((seq!["add"@, name] + rest)[1] == name);
}

/// A list of automations shows each of them: its name, what starts it, and how often it ran.
pub proof fn law_lists_show_every_automation(autos: Seq<AutomationModel>, k: int)
    requires
        0 <= k < autos.len(),
    ensures
        contains_text(auto_list(autos), auto_line(autos[k], trigger_text(autos[k].trigger))),
        contains_text(auto_line(autos[k], trigger_text(autos[k].trigger)), autos[k].name),
        contains_text(
            auto_line(autos[k], trigger_text(autos[k].trigger)),
            decimal(autos[k].run_count as nat),
        ),
{
    lemma_line_shown(autos, autos.len(), k);
    let a = autos[k];
    let line = auto_line(a, trigger_text(a.trigger));
    let sign = if a.enabled {
        "✓"@
    } else {
        "✗"@
    };
    let front = "  ["@ + sign + "] "@;
    let rest = " — "@ + trigger_text(a.trigger) + " (runs: "@ + decimal(a.run_count as nat)
        + ")\n"@;
    lemma_contains_part(front, a.name, rest);
    assert(front + a.name + rest =~= line);
    lemma_contains_part(
        front + a.name + " — "@ + trigger_text(a.trigger) + " (runs: "@,
        decimal(a.run_count as nat),
        ")\n"@,
    );
}

proof fn lemma_line_shown(autos: Seq<AutomationModel>, n: nat, k: int)
    requires
        0 <= k < n <= autos.len(),
    ensures
        contains_text(auto_lines(autos, n), auto_line(autos[k], trigger_text(autos[k].trigger))),
    decreases n,
{
    let line = auto_line(autos[k], trigger_text(autos[k].trigger));
    let before = auto_lines(autos, (n - 1) as nat);
    let last = auto_line(autos[n - 1], trigger_text(autos[n - 1].trigger));
    if k == n - 1 {
        lemma_contains_part(before, last, Seq::empty());
        assert(before + last + Seq::<char>::empty() =~= before + last);
    } else {
        lemma_line_shown(autos, (n - 1) as nat, k);
        let i = choose|i: int| occurs_at(before, line, i);
        assert((before + last).subrange(i, i + line.len()) =~= before.subrange(
            i,
            i + line.len(),
        ));
        assert(occurs_at(before + last, line, i));
    }
}

} // verus!

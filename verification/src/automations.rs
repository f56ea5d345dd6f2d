//! Automations: agent sessions that a schedule, an event or a user starts.

use crate::clock::{present, rfc3339_text, write_rfc3339, Timestamp};
use crate::events::{no_usage, zero_usage, TokenUsage};
use crate::keyed::{key_place, lemma_key_place, lemma_key_place_is};
use crate::numeral::{
    decimal, law_numerals_read_back, lemma_decimal_digits, number_of, parse_number, strip_plus,
};
use crate::split::{law_occurrences_are_replaced, replace_all, replaced, words, words_of};
use crate::text::{
    chars_of, chars_strip_front, contains_text, is_digit, occurs_at, same_text, starts_with,
    strip_front, text_of, texts,
};
use vstd::prelude::*;
use vstd::string::*;

verus! {

// ── Definitions ────────────────────────────────────────────────────────────
/// What starts an automation.
#[derive(Debug)]
pub enum AutomationTrigger {
    /// A schedule, such as `0 */6 * * *`.
    Cron(String),
    /// A pull request in a repository.
    GitHubPR { repo: String },
    /// A push to a branch.
    GitHubPush { branch: String },
    /// A request to a path.
    Webhook { path: String },
    /// A change of a file that matches a pattern.
    FileChange { pattern: String },
    /// The user.
    Manual,
}

/// What starts an automation.
pub enum TriggerModel {
    Cron(Seq<char>),
    GitHubPR { repo: Seq<char> },
    GitHubPush { branch: Seq<char> },
    Webhook { path: Seq<char> },
    FileChange { pattern: Seq<char> },
    Manual,
}

impl View for AutomationTrigger {
    type V = TriggerModel;

    open spec fn view(&self) -> TriggerModel {
        match *self {
            AutomationTrigger::Cron(s) => TriggerModel::Cron(s@),
            AutomationTrigger::GitHubPR { repo } => TriggerModel::GitHubPR { repo: repo@ },
            AutomationTrigger::GitHubPush { branch } => TriggerModel::GitHubPush {
                branch: branch@,
            },
            AutomationTrigger::Webhook { path } => TriggerModel::Webhook { path: path@ },
            AutomationTrigger::FileChange { pattern } => TriggerModel::FileChange {
                pattern: pattern@,
            },
            AutomationTrigger::Manual => TriggerModel::Manual,
        }
    }
}

impl Clone for AutomationTrigger {
    fn clone(&self) -> (r: AutomationTrigger)
        ensures
            r == *self,
    {
        match self {
            AutomationTrigger::Cron(s) => AutomationTrigger::Cron(s.clone()),
            AutomationTrigger::GitHubPR { repo } => AutomationTrigger::GitHubPR {
                repo: repo.clone(),
            },
            AutomationTrigger::GitHubPush { branch } => AutomationTrigger::GitHubPush {
                branch: branch.clone(),
            },
            AutomationTrigger::Webhook { path } => AutomationTrigger::Webhook {
                path: path.clone(),
            },
            AutomationTrigger::FileChange { pattern } => AutomationTrigger::FileChange {
                pattern: pattern.clone(),
            },
            AutomationTrigger::Manual => AutomationTrigger::Manual,
        }
    }
}

/// The agent that an automation starts. The name `{{event}}` in the prompt
/// stands for what started it.
#[derive(Debug)]
pub struct AutomationAgentConfig {
    pub mode: String,
    pub model: String,
    pub prompt_template: String,
    pub tools: Vec<String>,
    pub max_turns: usize,
    pub auto_commit: bool,
    pub auto_pr: bool,
}

/// The agent that an automation starts.
pub struct ConfigModel {
    pub mode: Seq<char>,
    pub model: Seq<char>,
    pub prompt_template: Seq<char>,
    pub tools: Seq<Seq<char>>,
    pub max_turns: usize,
    pub auto_commit: bool,
    pub auto_pr: bool,
}

impl View for AutomationAgentConfig {
    type V = ConfigModel;

    open spec fn view(&self) -> ConfigModel {
        ConfigModel {
            mode: self.mode@,
            model: self.model@,
            prompt_template: self.prompt_template@,
            tools: texts(self.tools@),
            max_turns: self.max_turns,
            auto_commit: self.auto_commit,
            auto_pr: self.auto_pr,
        }
    }
}

impl Clone for AutomationAgentConfig {
    fn clone(&self) -> (r: AutomationAgentConfig)
        ensures
            r@ == self@,
    {
        let tools: Vec<String> = self.tools.clone();
        assert(texts(tools@) =~= texts(self.tools@));
        AutomationAgentConfig {
            mode: self.mode.clone(),
            model: self.model.clone(),
            prompt_template: self.prompt_template.clone(),
            tools,
            max_turns: self.max_turns,
            auto_commit: self.auto_commit,
            auto_pr: self.auto_pr,
        }
    }
}

/// An automation.
#[derive(Debug)]
pub struct Automation {
    pub id: String,
    pub name: String,
    pub trigger: AutomationTrigger,
    pub agent_config: AutomationAgentConfig,
    pub enabled: bool,
    pub created_at: Timestamp,
    pub last_run: Option<Timestamp>,
    pub run_count: u64,
}

/// An automation.
pub struct AutomationModel {
    pub id: Seq<char>,
    pub name: Seq<char>,
    pub trigger: TriggerModel,
    pub config: ConfigModel,
    pub enabled: bool,
    pub created_at: Timestamp,
    pub last_run: Option<Timestamp>,
    pub run_count: u64,
}

impl View for Automation {
    type V = AutomationModel;

    open spec fn view(&self) -> AutomationModel {
        AutomationModel {
            id: self.id@,
            name: self.name@,
            trigger: self.trigger@,
            config: self.agent_config@,
            enabled: self.enabled,
            created_at: self.created_at,
            last_run: self.last_run,
            run_count: self.run_count,
        }
    }
}

impl Clone for Automation {
    fn clone(&self) -> (r: Automation)
        ensures
            r@ == self@,
    {
        Automation {
            id: self.id.clone(),
            name: self.name.clone(),
            trigger: self.trigger.clone(),
            agent_config: self.agent_config.clone(),
            enabled: self.enabled,
            created_at: self.created_at,
            last_run: self.last_run,
            run_count: self.run_count,
        }
    }
}

/// The automations.
pub open spec fn automation_models(v: Seq<Automation>) -> Seq<AutomationModel> {
    v.map_values(|a: Automation| a@)
}

/// The names of automations.
pub open spec fn names_of(autos: Seq<AutomationModel>) -> Seq<Seq<char>> {
    autos.map_values(|a: AutomationModel| a.name)
}

/// What came of a run. `cost_micro_usd` is in millionths of a dollar.
#[derive(Debug)]
pub struct AutomationResult {
    pub automation_id: String,
    pub trigger_event: String,
    pub started_at: Timestamp,
    pub completed_at: Timestamp,
    pub success: bool,
    pub output: String,
    pub tokens_used: TokenUsage,
    pub cost_micro_usd: u64,
    pub commit_sha: Option<String>,
    pub pr_url: Option<String>,
}

// ── Errors ─────────────────────────────────────────────────────────────────
/// Why something failed.
#[derive(Debug, PartialEq, Eq)]
pub enum AutomationError {
    AlreadyExists(String),
    NotFound(String),
    InvalidCron(String),
}

/// Why something failed.
pub enum AutomationFault {
    AlreadyExists(Seq<char>),
    NotFound(Seq<char>),
    InvalidCron(Seq<char>),
}

impl View for AutomationError {
    type V = AutomationFault;

    open spec fn view(&self) -> AutomationFault {
        match *self {
            AutomationError::AlreadyExists(s) => AutomationFault::AlreadyExists(s@),
            AutomationError::NotFound(s) => AutomationFault::NotFound(s@),
            AutomationError::InvalidCron(s) => AutomationFault::InvalidCron(s@),
        }
    }
}

fn prefixed(head: &str, text: &str) -> (r: String)
    ensures
        r@ == head@ + text@,
{
    let mut out = head.to_owned();
    out.append(text);
    out
}

impl AutomationError {
    /// The error in words.
    pub fn message(&self) -> (r: String)
        ensures
            r@ == (match self@ {
                AutomationFault::AlreadyExists(s) => "Automation already exists: "@ + s,
                AutomationFault::NotFound(s) => "Automation not found: "@ + s,
                AutomationFault::InvalidCron(s) => "Invalid cron expression: "@ + s,
            }),
    {
        match self {
            AutomationError::AlreadyExists(s) => prefixed(
                "Automation already exists: ",
                s.as_str(),
            ),
            AutomationError::NotFound(s) => prefixed("Automation not found: ", s.as_str()),
            AutomationError::InvalidCron(s) => prefixed("Invalid cron expression: ", s.as_str()),
        }
    }
}

// ── Registry ───────────────────────────────────────────────────────────────
/// Where an automation stands, or how many there are if there is none of that
/// name.
pub open spec fn auto_place(autos: Seq<AutomationModel>, name: Seq<char>) -> int {
    key_place(names_of(autos), name)
}

/// There is an automation of that name.
pub open spec fn has_auto(autos: Seq<AutomationModel>, name: Seq<char>) -> bool {
    auto_place(autos, name) < autos.len()
}

/// The automation of that name.
pub open spec fn auto_of(autos: Seq<AutomationModel>, name: Seq<char>) -> AutomationModel {
    autos[auto_place(autos, name)]
}

/// No two automations have one name.
pub open spec fn names_differ(autos: Seq<AutomationModel>) -> bool {
    names_of(autos).no_duplicates()
}

/// The automations after one of them was run.
pub open spec fn after_run(
    autos: Seq<AutomationModel>,
    name: Seq<char>,
    at: Timestamp,
) -> Seq<AutomationModel> {
    let a = auto_of(autos, name);
    autos.update(
        auto_place(autos, name),
        AutomationModel { last_run: Some(at), run_count: (a.run_count + 1) as u64, ..a },
    )
}

/// The automations after one of them was switched on or off.
pub open spec fn after_switch(
    autos: Seq<AutomationModel>,
    name: Seq<char>,
    enabled: bool,
) -> Seq<AutomationModel> {
    autos.update(
        auto_place(autos, name),
        AutomationModel { enabled, ..auto_of(autos, name) },
    )
}

/// The first `n` automations, of two with one name the later.
pub open spec fn loaded(stored: Seq<AutomationModel>, n: nat) -> Seq<AutomationModel>
    decreases n,
{
    if n == 0 {
        Seq::empty()
    } else {
        let before = loaded(stored, (n - 1) as nat);
        let a = stored[n - 1];
        if has_auto(before, a.name) {
            before.update(auto_place(before, a.name), a)
        } else {
            before.push(a)
        }
    }
}

proof fn lemma_update_names(autos: Seq<AutomationModel>, i: int, a: AutomationModel)
    requires
        0 <= i < autos.len(),
        a.name == autos[i].name,
    ensures
        names_of(autos.update(i, a)) == names_of(autos),
{
    assert(names_of(autos.update(i, a)) =~= names_of(autos));
}

proof fn lemma_push_names(autos: Seq<AutomationModel>, a: AutomationModel)
    requires
        names_differ(autos),
        !has_auto(autos, a.name),
    ensures
        names_differ(autos.push(a)),
{
    lemma_key_place(names_of(autos), a.name);
    let all = names_of(autos.push(a));
    assert(all =~= names_of(autos).push(a.name));
}

proof fn lemma_remove_names(autos: Seq<AutomationModel>, i: int)
    requires
        names_differ(autos),
        0 <= i < autos.len(),
    ensures
        names_differ(autos.remove(i)),
{
    let before = names_of(autos);
    let all = names_of(autos.remove(i));
    assert(all =~= before.remove(i));
    assert forall|a: int, b: int| 0 <= a < all.len() && 0 <= b < all.len() && a != b implies all[a]
        != all[b] by {
        let x = if a < i {
            a
        } else {
            a + 1
        };
        let y = if b < i {
            b
        } else {
            b + 1
        };
        assert(all[a] == before[x] && all[b] == before[y]);
    }
}

/// An automation that was registered is found, as it was registered, and only
/// until it is removed.
pub proof fn law_registered_is_found(autos: Seq<AutomationModel>, a: AutomationModel)
    requires
        names_differ(autos),
        !has_auto(autos, a.name),
    ensures
        has_auto(autos.push(a), a.name),
        auto_of(autos.push(a), a.name) == a,
        names_differ(autos.push(a)),
        autos.push(a).remove(auto_place(autos.push(a), a.name)) == autos,
{
    let next = autos.push(a);
    lemma_push_names(autos, a);
    lemma_key_place(names_of(autos), a.name);
    assert(names_of(next) =~= names_of(autos).push(a.name));
    assert forall|i: int| 0 <= i < autos.len() implies #[trigger] names_of(next)[i] != a.name by {
        assert(names_of(autos)[i] != a.name);
    }
    lemma_key_place_is(names_of(next), a.name, autos.len() as int);
    assert(next.remove(autos.len() as int) =~= autos);
}

/// A run is counted, and nothing else changes but when the last run was.
pub proof fn law_runs_are_counted(autos: Seq<AutomationModel>, name: Seq<char>, at: Timestamp)
    requires
        has_auto(autos, name),
        auto_of(autos, name).run_count < u64::MAX,
    ensures
        has_auto(after_run(autos, name, at), name),
        auto_of(after_run(autos, name, at), name).run_count == auto_of(autos, name).run_count + 1,
        auto_of(after_run(autos, name, at), name).last_run == Some(at),
        names_of(after_run(autos, name, at)) == names_of(autos),
{
    lemma_key_place(names_of(autos), name);
    let i = auto_place(autos, name);
    lemma_update_names(autos, i, after_run(autos, name, at)[i]);
}

/// An automation is as enabled as it was set last.
pub proof fn law_switch_is_read_back(autos: Seq<AutomationModel>, name: Seq<char>, enabled: bool)
    requires
        has_auto(autos, name),
    ensures
        has_auto(after_switch(autos, name, enabled), name),
        auto_of(after_switch(autos, name, enabled), name).enabled == enabled,
        names_of(after_switch(autos, name, enabled)) == names_of(autos),
{
    lemma_key_place(names_of(autos), name);
    let i = auto_place(autos, name);
    lemma_update_names(autos, i, after_switch(autos, name, enabled)[i]);
}

/// The automations that are known.
#[derive(Debug)]
pub struct AutomationRegistry {
    automations: Vec<Automation>,
}

impl View for AutomationRegistry {
    type V = Seq<AutomationModel>;

    closed spec fn view(&self) -> Seq<AutomationModel> {
        automation_models(self.automations@)
    }
}

impl AutomationRegistry {
    fn place(&self, name: &str) -> (r: usize)
        ensures
            r == auto_place(self@, name@),
            r <= self@.len() == self.automations@.len(),
    {
        let ghost all = names_of(self@);
        let mut i: usize = 0;
        assert(all.skip(0) =~= all);
        while i < self.automations.len()
            invariant
                i <= self.automations@.len(),
                self@.len() == self.automations@.len(),
                all == names_of(automation_models(self.automations@)),
                key_place(all, name@) == i + key_place(all.skip(i as int), name@),
            decreases self.automations@.len() - i,
        {
            proof {
                assert(all.skip(i as int)[0] == self.automations@[i as int]@.name);
                assert(all.skip(i as int).skip(1) =~= all.skip(i + 1));
            }
            if same_text(self.automations[i].name.as_str(), name) {
                return i;
            }
            i += 1;
        }
        i
    }

    /// No automations.
    pub fn empty() -> (r: AutomationRegistry)
        ensures
            r@.len() == 0,
            names_differ(r@),
    {
        AutomationRegistry { automations: Vec::new() }
    }

    /// The automations that were stored. Of two with one name the later counts.
    pub fn new(stored: Vec<Automation>) -> (r: AutomationRegistry)
        ensures
            r@ == loaded(automation_models(stored@), stored@.len()),
            names_differ(r@),
    {
        let ghost all = automation_models(stored@);
        let mut m = AutomationRegistry::empty();
        let mut i: usize = 0;
        assert(m@ =~= loaded(all, 0));
        while i < stored.len()
            invariant
                i <= stored@.len(),
                all == automation_models(stored@),
                m@ == loaded(all, i as nat),
                names_differ(m@),
            decreases stored@.len() - i,
        {
            let ghost before = m@;
            let a = stored[i].clone();
            let ghost b = a@;
            assert(all[i as int] == b);
            let at: usize = m.place(a.name.as_str());
            proof {
                lemma_key_place(names_of(before), b.name);
                if at < before.len() {
                    lemma_update_names(before, at as int, b);
                } else {
                    lemma_push_names(before, b);
                }
            }
            if at < m.automations.len() {
                m.automations.set(at, a);
                assert(m@ =~= before.update(at as int, b));
            } else {
                m.automations.push(a);
                assert(m@ =~= before.push(b));
            }
            i += 1;
        }
        m
    }

    /// Registers an automation, if there is none of its name.
    pub fn register(&mut self, automation: Automation) -> (r: Result<(), AutomationError>)
        ensures
            r is Ok <==> !has_auto(old(self)@, automation@.name),
            r is Ok ==> final(self)@ == old(self)@.push(automation@),
            r matches Err(e) ==> e@ == AutomationFault::AlreadyExists(automation@.name)
                && final(self)@ == old(self)@,
            names_differ(old(self)@) ==> names_differ(final(self)@),
    {
        let ghost before = self@;
        let ghost a = automation@;
        if self.place(automation.name.as_str()) < self.automations.len() {
            return Err(AutomationError::AlreadyExists(automation.name));
        }
        proof {
            if names_differ(before) {
                lemma_push_names(before, a);
            }
        }
        self.automations.push(automation);
        assert(self@ =~= before.push(a));
        Ok(())
    }

    /// Removes an automation, and returns it.
    pub fn remove(&mut self, name: &str) -> (r: Result<Automation, AutomationError>)
        ensures
            r is Ok <==> has_auto(old(self)@, name@),
            r matches Ok(a) ==> a@ == auto_of(old(self)@, name@) && final(self)@
                == old(self)@.remove(auto_place(old(self)@, name@)),
            r matches Err(e) ==> e@ == AutomationFault::NotFound(name@) && final(self)@
                == old(self)@,
            names_differ(old(self)@) ==> names_differ(final(self)@),
    {
        let ghost before = self@;
        let i: usize = self.place(name);
        if i >= self.automations.len() {
            return Err(AutomationError::NotFound(name.to_owned()));
        }
        proof {
            if names_differ(before) {
                lemma_remove_names(before, i as int);
            }
        }
        let a = self.automations.remove(i);
        assert(self@ =~= before.remove(i as int));
        Ok(a)
    }

    fn put(&mut self, i: usize, a: Automation)
        requires
            i < old(self)@.len(),
            a@.name == old(self)@[i as int].name,
        ensures
            final(self)@ == old(self)@.update(i as int, a@),
            names_of(final(self)@) == names_of(old(self)@),
    {
        let ghost before = self@;
        let ghost b = a@;
        self.automations.set(i, a);
        proof {
            assert(self@ =~= before.update(i as int, b));
            lemma_update_names(before, i as int, b);
        }
    }

    /// Switches an automation on or off.
    pub fn set_enabled(&mut self, name: &str, enabled: bool) -> (r: Result<(), AutomationError>)
        ensures
            r is Ok <==> has_auto(old(self)@, name@),
            r is Ok ==> final(self)@ == after_switch(old(self)@, name@, enabled),
            r matches Err(e) ==> e@ == AutomationFault::NotFound(name@) && final(self)@
                == old(self)@,
            names_of(final(self)@) == names_of(old(self)@),
    {
        let i: usize = self.place(name);
        if i >= self.automations.len() {
            return Err(AutomationError::NotFound(name.to_owned()));
        }
        let mut a = self.automations[i].clone();
        a.enabled = enabled;
        self.put(i, a);
        Ok(())
    }

    /// The automation of a name.
    pub fn get(&self, name: &str) -> (r: Option<Automation>)
        ensures
            r is Some <==> has_auto(self@, name@),
            r matches Some(a) ==> a@ == auto_of(self@, name@),
    {
        let i: usize = self.place(name);
        if i < self.automations.len() {
            Some(self.automations[i].clone())
        } else {
            None
        }
    }

    /// All automations.
    pub fn list(&self) -> (r: &[Automation])
        ensures
            automation_models(r@) == self@,
    {
        self.automations.as_slice()
    }

    /// Notes that an automation was run, at a time.
    pub fn record_run_at(&mut self, name: &str, at: Timestamp) -> (r: Result<(), AutomationError>)
        requires
            has_auto(old(self)@, name@) ==> auto_of(old(self)@, name@).run_count < u64::MAX,
        ensures
            r is Ok <==> has_auto(old(self)@, name@),
            r is Ok ==> final(self)@ == after_run(old(self)@, name@, at),
            r matches Err(e) ==> e@ == AutomationFault::NotFound(name@) && final(self)@
                == old(self)@,
            names_of(final(self)@) == names_of(old(self)@),
    {
        let i: usize = self.place(name);
        if i >= self.automations.len() {
            return Err(AutomationError::NotFound(name.to_owned()));
        }
        let mut a = self.automations[i].clone();
        a.last_run = Some(at);
        a.run_count = a.run_count + 1;
        self.put(i, a);
        Ok(())
    }

    /// Notes that an automation was run now.
    pub fn record_run(&mut self, name: &str) -> (r: Result<(), AutomationError>)
        requires
            has_auto(old(self)@, name@) ==> auto_of(old(self)@, name@).run_count < u64::MAX,
        ensures
            r is Ok <==> has_auto(old(self)@, name@),
            r is Ok ==> exists|at: Timestamp|
                final(self)@ == #[trigger] after_run(old(self)@, name@, at),
            r matches Err(e) ==> e@ == AutomationFault::NotFound(name@) && final(self)@
                == old(self)@,
            names_of(final(self)@) == names_of(old(self)@),
    {
        let at = present();
        self.record_run_at(name, at)
    }
}

// ── Runs ───────────────────────────────────────────────────────────────────
/// Runs automations.
pub struct AutomationRunner;

/// The prompt of a run.
pub open spec fn prompt_for(template: Seq<char>, event: Seq<char>) -> Seq<char> {
    replace_all(template, "{{event}}"@, event)
}

/// What came of a run of `a`.
pub open spec fn is_run_of(r: AutomationResult, a: AutomationModel, event: Seq<char>) -> bool {
    &&& r.automation_id@ == a.id
    &&& r.trigger_event@ == event
    &&& r.success
    &&& r.output@ == "Automation '"@ + a.name + "' completed"@
    &&& r.tokens_used == no_usage()
    &&& r.cost_micro_usd == 0
    &&& r.commit_sha is None
    &&& r.pr_url is None
}

impl AutomationRunner {
    /// The prompt of a run: the template with the event in it.
    pub fn prepare_prompt(config: &AutomationAgentConfig, event: &str) -> (r: String)
        ensures
            r@ == prompt_for(config@.prompt_template, event@),
    {
        proof {
            reveal_strlit("{{event}}");
        }
        replaced(config.prompt_template.as_str(), "{{event}}", event)
    }

    /// Runs an automation, between two moments.
    pub fn run_between(
        automation: &Automation,
        trigger_event: &str,
        started_at: Timestamp,
        completed_at: Timestamp,
    ) -> (r: AutomationResult)
        ensures
            is_run_of(r, automation@, trigger_event@),
            r.started_at == started_at,
            r.completed_at == completed_at,
    {
        let mut output = "Automation '".to_owned();
        output.append(automation.name.as_str());
        output.append("' completed");
        AutomationResult {
            automation_id: automation.id.clone(),
            trigger_event: trigger_event.to_owned(),
            started_at,
            completed_at,
            success: true,
            output,
            tokens_used: zero_usage(),
            cost_micro_usd: 0,
            commit_sha: None,
            pr_url: None,
        }
    }

    /// Runs an automation now. When it started and ended is up to the clock.
    pub fn run(automation: &Automation, trigger_event: &str) -> (r: Result<
        AutomationResult,
        AutomationError,
    >)
        ensures
            r is Ok,
            is_run_of(r->Ok_0, automation@, trigger_event@),
    {
        let started_at = present();
        let completed_at = present();
        Ok(AutomationRunner::run_between(automation, trigger_event, started_at, completed_at))
    }
}

// ── Schedules ──────────────────────────────────────────────────────────────
/// A positive number after `*/`, times a number of seconds.
pub open spec fn every(s: Seq<char>, seconds: nat) -> Option<nat> {
    match strip_front(s, "*/"@) {
        Some(n) => match parse_number(n) {
            Some(k) => if k > 0 && k * seconds <= u64::MAX {
                Some(k * seconds)
            } else {
                None
            },
            None => None,
        },
        None => None,
    }
}

/// How many seconds lie between two runs: minutes, hours or a day.
pub open spec fn interval_of(ws: Seq<Seq<char>>) -> Option<nat> {
    if ws.len() != 5 {
        None
    } else if strip_front(ws[0], "*/"@) is Some {
        every(ws[0], 60)
    } else if ws[0] == "0"@ && strip_front(ws[1], "*/"@) is Some {
        every(ws[1], 3600)
    } else if ws[0] == "0"@ && ws[2] == "*"@ && ws[3] == "*"@ && ws[4] == "*"@ && parse_number(
        ws[1],
    ) is Some {
        Some(86400)
    } else {
        None
    }
}

/// The automations that run by a schedule.
#[derive(Debug)]
pub struct CronScheduler {
    names: Vec<String>,
}

impl View for CronScheduler {
    type V = Seq<Seq<char>>;

    closed spec fn view(&self) -> Seq<Seq<char>> {
        texts(self.names@)
    }
}

/// What comes after `*/`, if it does.
fn after_star(s: &str) -> (r: Option<String>)
    ensures
        match r {
            Some(t) => strip_front(s@, "*/"@) == Some(t@),
            None => strip_front(s@, "*/"@) is None,
        },
{
    let chars = chars_of(s);
    match chars_strip_front(chars.as_slice(), "*/") {
        Some(rest) => Some(text_of(rest)),
        None => None,
    }
}

fn seconds_every(n: &str, seconds: u64) -> (r: Option<u64>)
    ensures
        match parse_number(n@) {
            Some(k) => if k > 0 && k * seconds <= u64::MAX {
                r == Some((k * seconds) as u64)
            } else {
                r is None
            },
            None => r is None,
        },
{
    match number_of(n) {
        Some(k) => if k == 0 {
            None
        } else {
            k.checked_mul(seconds)
        },
        None => None,
    }
}

impl CronScheduler {
    /// Nothing runs by a schedule.
    pub fn new() -> (r: CronScheduler)
        ensures
            r@.len() == 0,
    {
        CronScheduler { names: Vec::new() }
    }

    /// How many seconds lie between two runs. A schedule is understood if it
    /// names every so many minutes, every so many hours, or an hour of each
    /// day, and if the seconds fit a `u64`.
    pub fn parse_interval(cron_expr: &str) -> (r: Result<u64, AutomationError>)
        ensures
            match interval_of(words(cron_expr@)) {
                Some(n) => r is Ok && r->Ok_0 == n,
                None => r is Err && r->Err_0@ == AutomationFault::InvalidCron(cron_expr@),
            },
    {
        let parts = words_of(cron_expr);
        let ghost ws = words(cron_expr@);
        if parts.len() != 5 {
            return Err(AutomationError::InvalidCron(cron_expr.to_owned()));
        }
        assert(forall|i: int| 0 <= i < 5 ==> ws[i] == #[trigger] parts@[i]@);
        if let Some(n) = after_star(parts[0].as_str()) {
            return match seconds_every(n.as_str(), 60) {
                Some(s) => Ok(s),
                None => Err(AutomationError::InvalidCron(cron_expr.to_owned())),
            };
        }
        if same_text(parts[0].as_str(), "0") {
            if let Some(n) = after_star(parts[1].as_str()) {
                return match seconds_every(n.as_str(), 3600) {
                    Some(s) => Ok(s),
                    None => Err(AutomationError::InvalidCron(cron_expr.to_owned())),
                };
            }
            if same_text(parts[2].as_str(), "*") && same_text(parts[3].as_str(), "*") && same_text(
                parts[4].as_str(),
                "*",
            ) && number_of(parts[1].as_str()).is_some() {
                return Ok(86400);
            }
        }
        Err(AutomationError::InvalidCron(cron_expr.to_owned()))
    }

    fn place(&self, name: &str) -> (r: usize)
        ensures
            r == key_place(self@, name@),
            r <= self@.len() == self.names@.len(),
    {
        let ghost all = self@;
        let mut i: usize = 0;
        assert(all.skip(0) =~= all);
        while i < self.names.len()
            invariant
                i <= self.names@.len(),
                all == texts(self.names@),
                key_place(all, name@) == i + key_place(all.skip(i as int), name@),
            decreases self.names@.len() - i,
        {
            proof {
                assert(all.skip(i as int)[0] == self.names@[i as int]@);
                assert(all.skip(i as int).skip(1) =~= all.skip(i + 1));
            }
            if same_text(self.names[i].as_str(), name) {
                return i;
            }
            i += 1;
        }
        i
    }

    /// Schedules an automation. Returns how many seconds lie between two runs.
    pub fn schedule(&mut self, name: &str, cron_expr: &str) -> (r: Result<u64, AutomationError>)
        ensures
            match interval_of(words(cron_expr@)) {
                Some(n) => r is Ok && r->Ok_0 == n && final(self)@ == (if old(self)@.contains(
                    name@,
                ) {
                    old(self)@
                } else {
                    old(self)@.push(name@)
                }),
                None => r is Err && r->Err_0@ == AutomationFault::InvalidCron(cron_expr@)
                    && final(self)@ == old(self)@,
            },
    {
        let ghost before = self@;
        let seconds: u64 = match CronScheduler::parse_interval(cron_expr) {
            Ok(s) => s,
            Err(e) => {
                return Err(e);
            },
        };
        proof {
            lemma_key_place(before, name@);
        }
        if self.place(name) >= self.names.len() {
            self.names.push(name.to_owned());
            assert(self@ =~= before.push(name@));
        }
        Ok(seconds)
    }

    /// Takes an automation off its schedule. Returns whether it had one.
    pub fn cancel(&mut self, name: &str) -> (r: bool)
        ensures
            r == old(self)@.contains(name@),
            final(self)@ == (if r {
                old(self)@.remove(key_place(old(self)@, name@))
            } else {
                old(self)@
            }),
    {
        let ghost before = self@;
        let i: usize = self.place(name);
        proof {
            lemma_key_place(before, name@);
        }
        if i < self.names.len() {
            self.names.remove(i);
            assert(self@ =~= before.remove(i as int));
            true
        } else {
            false
        }
    }

    /// The automations that run by a schedule.
    pub fn scheduled(&self) -> (r: &[String])
        ensures
            texts(r@) == self@,
    {
        self.names.as_slice()
    }

    /// It is time for an automation: runs it, if it is known and enabled.
    pub fn tick(registry: &mut AutomationRegistry, name: &str) -> (r: Option<AutomationResult>)
        requires
            has_auto(old(registry)@, name@) ==> auto_of(old(registry)@, name@).run_count
                < u64::MAX,
        ensures
            r is Some <==> has_auto(old(registry)@, name@) && auto_of(
                old(registry)@,
                name@,
            ).enabled,
            r matches Some(run) ==> exists|t: Timestamp|
                is_run_of(
                    run,
                    auto_of(old(registry)@, name@),
                    "cron:"@ + #[trigger] rfc3339_text(t.secs, t.nanos),
                ),
            r is Some ==> exists|at: Timestamp|
                final(registry)@ == #[trigger] after_run(old(registry)@, name@, at),
            r is None ==> final(registry)@ == old(registry)@,
            names_of(final(registry)@) == names_of(old(registry)@),
    {
        match registry.get(name) {
            Some(auto) => {
                if !auto.enabled {
                    return None;
                }
                let t = present();
                let at = write_rfc3339(t);
                let event = prefixed("cron:", at.as_str());
                match AutomationRunner::run(&auto, event.as_str()) {
                    Ok(run) => {
                        assert(is_run_of(
                            run,
                            auto_of(registry@, name@),
                            "cron:"@ + rfc3339_text(t.secs, t.nanos),
                        ));
                        let _ = registry.record_run(name);
                        Some(run)
                    },
                    Err(_) => None,
                }
            },
            None => None,
        }
    }
}

impl Default for CronScheduler {
    fn default() -> (r: CronScheduler)
        ensures
            r@.len() == 0,
    {
        CronScheduler::new()
    }
}

// ── Webhooks ───────────────────────────────────────────────────────────────
/// Runs automations on requests.
#[derive(Debug)]
pub struct WebhookListener {
    pub registry: AutomationRegistry,
}

/// The automation answers requests to `path`.
pub open spec fn listens_to(a: AutomationModel, path: Seq<char>) -> bool {
    a.enabled && a.trigger == (TriggerModel::Webhook { path })
}

/// The first automation that answers requests to `path`, or how many there are
/// if none does.
pub open spec fn listener_place(autos: Seq<AutomationModel>, path: Seq<char>) -> int
    decreases autos.len(),
{
    if autos.len() == 0 {
        0
    } else if listens_to(autos[0], path) {
        0
    } else {
        1 + listener_place(autos.skip(1), path)
    }
}

proof fn lemma_listener_place(autos: Seq<AutomationModel>, path: Seq<char>)
    ensures
        0 <= listener_place(autos, path) <= autos.len(),
    decreases autos.len(),
{
    if autos.len() > 0 && !listens_to(autos[0], path) {
        lemma_listener_place(autos.skip(1), path);
    }
}

fn is_listening(a: &Automation, path: &str) -> (r: bool)
    ensures
        r == listens_to(a@, path@),
{
    match &a.trigger {
        AutomationTrigger::Webhook { path: p } => a.enabled && same_text(p.as_str(), path),
        _ => false,
    }
}

impl WebhookListener {
    /// Answers requests with these automations.
    pub fn new(registry: AutomationRegistry) -> (r: WebhookListener)
        ensures
            r.registry == registry,
    {
        WebhookListener { registry }
    }

    /// Runs the automation that answers requests to `path`.
    pub fn handle(&mut self, path: &str, payload: &str) -> (r: Result<
        AutomationResult,
        AutomationError,
    >)
        requires
            names_differ(old(self).registry@),
            forall|i: int|
                0 <= i < old(self).registry@.len() ==> (#[trigger] old(
                    self,
                ).registry@[i]).run_count < u64::MAX,
        ensures
            ({
                let autos = old(self).registry@;
                let k = listener_place(autos, path@);
                if k < autos.len() {
                    &&& r is Ok
                    &&& is_run_of(r->Ok_0, autos[k], payload@)
                    &&& exists|at: Timestamp|
                        final(self).registry@ == #[trigger] after_run(autos, autos[k].name, at)
                } else {
                    &&& r is Err
                    &&& r->Err_0@ == AutomationFault::NotFound("webhook path: "@ + path@)
                    &&& final(self).registry@ == autos
                }
            }),
            names_differ(final(self).registry@),
    {
        let ghost autos = self.registry@;
        let mut k: usize = 0;
        assert(autos.skip(0) =~= autos);
        while k < self.registry.automations.len() && !is_listening(
            &self.registry.automations[k],
            path,
        )
            invariant
                k <= self.registry.automations@.len(),
                *self == *old(self),
                autos == automation_models(self.registry.automations@),
                listener_place(autos, path@) == k + listener_place(autos.skip(k as int), path@),
            decreases self.registry.automations@.len() - k,
        {
            proof {
                assert(autos.skip(k as int)[0] == self.registry.automations@[k as int]@);
                assert(autos.skip(k as int).skip(1) =~= autos.skip(k + 1));
            }
            k += 1;
        }
        proof {
            if k < autos.len() {
                assert(autos.skip(k as int)[0] == self.registry.automations@[k as int]@);
            }
        }
        if k >= self.registry.automations.len() {
            return Err(AutomationError::NotFound(prefixed("webhook path: ", path)));
        }
        let name = self.registry.automations[k].name.clone();
        proof {
            lemma_key_place(names_of(autos), name@);
            assert(names_of(autos)[k as int] == name@);
            let p = auto_place(autos, name@);
            assert(names_of(autos)[p] == name@);
            assert(p == k);
        }
        match AutomationRunner::run(&self.registry.automations[k], payload) {
            Ok(run) => match self.registry.record_run(name.as_str()) {
                Ok(()) => Ok(run),
                Err(e) => Err(e),
            },
            Err(e) => Err(e),
        }
    }
}

/// A schedule that names every so many minutes or hours, or an hour of each day, in
/// five words.
pub proof fn law_schedules_say_how_often(n: u64, a: Seq<char>, b: Seq<char>, c: Seq<char>, d: Seq<char>)
    ensures
        n > 0 && n * 60 <= u64::MAX ==> interval_of(seq!["*/"@ + decimal(n as nat), a, b, c, d])
            == Some((n * 60) as nat),
        n > 0 && n * 3600 <= u64::MAX ==> interval_of(
            seq!["0"@, "*/"@ + decimal(n as nat), a, b, c],
        ) == Some((n * 3600) as nat),
        interval_of(seq!["0"@, decimal(n as nat), "*"@, "*"@, "*"@]) == Some(86400nat),
        interval_of(seq!["*/0"@, a, b, c, d]) is None,
        interval_of(seq!["0"@, "*/0"@, a, b, c]) is None,
{
    reveal_strlit("*/");
    reveal_strlit("0");
    reveal_strlit("*");
    reveal_strlit("*/0");
    law_numerals_read_back(n);
    law_numerals_read_back(0);
    lemma_decimal_digits(n as nat);
    let hours = decimal(n as nat);
    let stars = "*/"@ + hours;
    assert(stars.subrange(0, 2) =~= "*/"@);
    assert(stars.subrange(2, stars.len() as int) =~= hours);
    assert(is_digit(hours[0]));
    if starts_with(hours, "*/"@) {
        assert(hours.subrange(0, 2)[0] == hours[0]);
    }
    if starts_with("0"@, "*/"@) {
        assert("0"@.len() >= 2);
    }
    let zero = "*/0"@;
    assert(zero.subrange(0, 2) =~= "*/"@);
    assert(zero.subrange(2, 3) =~= decimal(0));
}

/// An hour of each day is once a day, whatever the hour.
pub proof fn law_daily_schedules_run_once_a_day(ws: Seq<Seq<char>>)
    requires
        ws.len() == 5,
        ws[0] == "0"@,
        parse_number(ws[1]) is Some,
        ws[2] == "*"@,
        ws[3] == "*"@,
        ws[4] == "*"@,
    ensures
        interval_of(ws) == Some(86400nat),
{
    reveal_strlit("*/");
    reveal_strlit("0");
    if starts_with("0"@, "*/"@) {
        assert("0"@.len() >= 2);
    }
    let t = strip_plus(ws[1]);
    if starts_with(ws[1], "*/"@) {
        assert(ws[1].subrange(0, 2)[0] == ws[1][0]);
        assert(is_digit(t[0]));
    }
}

/// A schedule is refused unless it has five words and begins with every so many
/// minutes, or with the full hour.
pub proof fn law_other_schedules_are_refused(ws: Seq<Seq<char>>)
    ensures
        ws.len() != 5 ==> interval_of(ws) is None,
        ws.len() == 5 && !starts_with(ws[0], "*/"@) && ws[0] != "0"@ ==> interval_of(ws) is None,
        ws.len() == 5 && ws[0] == "0"@ && !starts_with(ws[1], "*/"@) && (ws[2] != "*"@ || ws[3]
            != "*"@ || ws[4] != "*"@ || parse_number(ws[1]) is None) ==> interval_of(ws) is None,
        interval_of(ws) matches Some(n) ==> n > 0,
{
    reveal_strlit("*/");
    reveal_strlit("0");
    if ws.len() == 5 && ws[0] == "0"@ && starts_with(ws[0], "*/"@) {
        assert("0"@.len() >= 2);
    }
}

/// A request is answered by the first automation that is switched on and waits for its path,
/// and by none only if there is no such automation.
pub proof fn law_the_first_listener_answers(autos: Seq<AutomationModel>, path: Seq<char>)
    ensures
        ({
            let k = listener_place(autos, path);
            &&& 0 <= k <= autos.len()
            &&& k < autos.len() ==> autos[k].enabled && autos[k].trigger == (
            TriggerModel::Webhook { path })
            &&& forall|i: int|
                0 <= i < k ==> !((#[trigger] autos[i]).enabled && autos[i].trigger == (
                TriggerModel::Webhook { path }))
        }),
    decreases autos.len(),
{
    if autos.len() > 0 && !listens_to(autos[0], path) {
        let rest = autos.skip(1);
        law_the_first_listener_answers(rest, path);
        let k = listener_place(autos, path);
        assert forall|i: int| 0 <= i < k implies !((#[trigger] autos[i]).enabled && autos[i].trigger
            == (TriggerModel::Webhook { path })) by {
            if i > 0 {
                assert(rest[i - 1] == autos[i]);
            }
        }
    }
}

/// A run and a switch change one automation alone, and of it nothing but what they are for.
pub proof fn law_runs_and_switches_leave_the_rest(
    autos: Seq<AutomationModel>,
    name: Seq<char>,
    at: Timestamp,
    enabled: bool,
    i: int,
)
    requires
        has_auto(autos, name),
        0 <= i < autos.len(),
        autos[i].name != name,
    ensures
        after_run(autos, name, at).len() == autos.len(),
        after_switch(autos, name, enabled).len() == autos.len(),
        after_run(autos, name, at)[i] == autos[i],
        after_switch(autos, name, enabled)[i] == autos[i],
        ({
            let a = auto_of(autos, name);
            let ran = after_run(autos, name, at)[auto_place(autos, name)];
            let switched = after_switch(autos, name, enabled)[auto_place(autos, name)];
            &&& ran.enabled == a.enabled && ran.config == a.config && ran.trigger == a.trigger
                && ran.id == a.id
            &&& switched.run_count == a.run_count && switched.last_run == a.last_run
                && switched.config == a.config && switched.trigger == a.trigger && switched.id
                == a.id
        }),
{
    lemma_key_place(names_of(autos), name);
    let k = auto_place(autos, name);
    assert(names_of(autos)[k] == autos[k].name);
}

/// The event stands in the prompt in the place that the template keeps for it.
pub proof fn law_events_stand_in_the_prompt(
    before: Seq<char>,
    after: Seq<char>,
    event: Seq<char>,
)
    requires
        !before.contains('{'),
        !after.contains('{'),
    ensures
        prompt_for(before + "{{event}}"@ + after, event) == before + event + after,
        prompt_for(before, event) == before,
{
    reveal_strlit("{{event}}");
    let p = "{{event}}"@;
    let s = before + p + after;
    assert forall|i: int| 0 <= i < before.len() implies !#[trigger] occurs_at(s, p, i) by {
        if occurs_at(s, p, i) {
            assert(s.subrange(i, i + p.len())[0] == s[i]);
            assert(before.contains(before[i]));
        }
    }
    lemma_no_place(after);
    lemma_no_place(before);
    law_occurrences_are_replaced(before, p, after, event);
    let none = Seq::<char>::empty();
    assert forall|i: int| 0 <= i < none.len() implies !#[trigger] occurs_at(
        none + p + before,
        p,
        i,
    ) by {}
    law_occurrences_are_replaced(none, p, before, event);
}

proof fn lemma_no_place(s: Seq<char>)
    requires
        !s.contains('{'),
    ensures
        !contains_text(s, "{{event}}"@),
{
    reveal_strlit("{{event}}");
    let p = "{{event}}"@;
    assert forall|i: int| !occurs_at(s, p, i) by {
        if occurs_at(s, p, i) {
            assert(s.subrange(i, i + p.len())[0] == s[i]);
            assert(s.contains(s[i]));
        }
    }
}

} // verus!

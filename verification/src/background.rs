//! Agents that work in the background: what each of them is doing, and how it
//! is paused, resumed and cancelled.

use crate::clock::{
    fresh_id, has_four_digit_year, present, read_rfc3339, rfc3339_moment, rfc3339_text,
    write_rfc3339, Timestamp,
};
use crate::numeral::{decimal, decimal_text};
use crate::text::same_text;
use vstd::prelude::*;
use vstd::string::*;

verus! {

// ── Agents ─────────────────────────────────────────────────────────────────
/// What an agent is doing.
#[derive(Debug, PartialEq, Eq)]
pub enum BackgroundStatus {
    Running,
    Paused,
    Completed(String),
    Failed(String),
    Cancelled,
}

/// What an agent is doing.
pub enum StatusModel {
    Running,
    Paused,
    Completed(Seq<char>),
    Failed(Seq<char>),
    Cancelled,
}

impl View for BackgroundStatus {
    type V = StatusModel;

    open spec fn view(&self) -> StatusModel {
        match *self {
            BackgroundStatus::Running => StatusModel::Running,
            BackgroundStatus::Paused => StatusModel::Paused,
            BackgroundStatus::Completed(m) => StatusModel::Completed(m@),
            BackgroundStatus::Failed(m) => StatusModel::Failed(m@),
            BackgroundStatus::Cancelled => StatusModel::Cancelled,
        }
    }
}

impl Clone for BackgroundStatus {
    fn clone(&self) -> (r: BackgroundStatus)
        ensures
            r == *self,
    {
        match self {
            BackgroundStatus::Running => BackgroundStatus::Running,
            BackgroundStatus::Paused => BackgroundStatus::Paused,
            BackgroundStatus::Completed(m) => BackgroundStatus::Completed(m.clone()),
            BackgroundStatus::Failed(m) => BackgroundStatus::Failed(m.clone()),
            BackgroundStatus::Cancelled => BackgroundStatus::Cancelled,
        }
    }
}

/// A status in words.
pub open spec fn status_text(s: StatusModel) -> Seq<char> {
    match s {
        StatusModel::Running => "Running"@,
        StatusModel::Paused => "Paused"@,
        StatusModel::Completed(m) => "Completed: "@ + m,
        StatusModel::Failed(m) => "Failed: "@ + m,
        StatusModel::Cancelled => "Cancelled"@,
    }
}

impl BackgroundStatus {
    /// The status in words.
    pub fn text(&self) -> (r: String)
        ensures
            r@ == status_text(self@),
    {
        match self {
            BackgroundStatus::Running => "Running".to_owned(),
            BackgroundStatus::Paused => "Paused".to_owned(),
            BackgroundStatus::Completed(m) => {
                let mut s = "Completed: ".to_owned();
                s.append(m.as_str());
                s
            },
            BackgroundStatus::Failed(m) => {
                let mut s = "Failed: ".to_owned();
                s.append(m.as_str());
                s
            },
            BackgroundStatus::Cancelled => "Cancelled".to_owned(),
        }
    }

    fn is_paused(&self) -> (r: bool)
        ensures
            r == (self@ is Paused),
    {
        match self {
            BackgroundStatus::Paused => true,
            _ => false,
        }
    }
}

/// An agent that works in the background.
#[derive(Debug)]
pub struct BackgroundAgent {
    pub id: String,
    pub session_id: String,
    pub status: BackgroundStatus,
    pub started_at: Timestamp,
    pub task_description: String,
}

/// An agent that works in the background.
pub struct AgentModel {
    pub id: Seq<char>,
    pub session_id: Seq<char>,
    pub status: StatusModel,
    pub started_at: Timestamp,
    pub task: Seq<char>,
}

impl View for BackgroundAgent {
    type V = AgentModel;

    open spec fn view(&self) -> AgentModel {
        AgentModel {
            id: self.id@,
            session_id: self.session_id@,
            status: self.status@,
            started_at: self.started_at,
            task: self.task_description@,
        }
    }
}

impl Clone for BackgroundAgent {
    fn clone(&self) -> (r: BackgroundAgent)
        ensures
            r == *self,
    {
        BackgroundAgent {
            id: self.id.clone(),
            session_id: self.session_id.clone(),
            status: self.status.clone(),
            started_at: self.started_at,
            task_description: self.task_description.clone(),
        }
    }
}

/// The agents.
pub open spec fn agent_models(v: Seq<BackgroundAgent>) -> Seq<AgentModel> {
    v.map_values(|a: BackgroundAgent| a@)
}

/// Where the agent `id` stands, or the number of agents if there is none.
pub open spec fn agent_place(agents: Seq<AgentModel>, id: Seq<char>) -> int
    decreases agents.len(),
{
    if agents.len() == 0 {
        0
    } else if agents[0].id == id {
        0
    } else {
        1 + agent_place(agents.skip(1), id)
    }
}

/// There is an agent `id`.
pub open spec fn has_agent(agents: Seq<AgentModel>, id: Seq<char>) -> bool {
    agent_place(agents, id) < agents.len()
}

/// The agent `id`.
pub open spec fn agent_of(agents: Seq<AgentModel>, id: Seq<char>) -> AgentModel {
    agents[agent_place(agents, id)]
}

/// The place of an agent is within the agents, or behind all of them, and no
/// agent before it has its id.
pub proof fn lemma_agent_place(agents: Seq<AgentModel>, id: Seq<char>)
    ensures
        0 <= agent_place(agents, id) <= agents.len(),
        agent_place(agents, id) < agents.len() ==> agents[agent_place(agents, id)].id == id,
        forall|i: int| 0 <= i < agent_place(agents, id) ==> (#[trigger] agents[i]).id != id,
    decreases agents.len(),
{
    if agents.len() > 0 && agents[0].id != id {
        lemma_agent_place(agents.skip(1), id);
        assert forall|i: int| 0 <= i < agent_place(agents, id) implies (#[trigger] agents[i]).id
            != id by {
            if i > 0 {
                assert(agents.skip(1)[i - 1] == agents[i]);
            }
        }
    }
}

proof fn lemma_agent_place_is(agents: Seq<AgentModel>, id: Seq<char>, k: int)
    requires
        0 <= k <= agents.len(),
        forall|i: int| 0 <= i < k ==> (#[trigger] agents[i]).id != id,
        k < agents.len() ==> agents[k].id == id,
    ensures
        agent_place(agents, id) == k,
{
    lemma_agent_place(agents, id);
    let p = agent_place(agents, id);
    if p < k {
        assert(agents[p].id != id);
    } else if k < p {
        assert(agents[k].id != id);
    }
}

/// The agents with the agent `a` among them, in place of one with its id.
pub open spec fn with_agent(agents: Seq<AgentModel>, a: AgentModel) -> Seq<AgentModel> {
    if has_agent(agents, a.id) {
        agents.update(agent_place(agents, a.id), a)
    } else {
        agents.push(a)
    }
}

/// The agents with another status of the agent `id`, if there is one.
pub open spec fn with_status(
    agents: Seq<AgentModel>,
    id: Seq<char>,
    status: StatusModel,
) -> Seq<AgentModel> {
    if has_agent(agents, id) {
        agents.update(
            agent_place(agents, id),
            AgentModel { status, ..agent_of(agents, id) },
        )
    } else {
        agents
    }
}

/// No two agents have one id.
pub open spec fn agents_differ(agents: Seq<AgentModel>) -> bool {
    forall|i: int, j: int|
        0 <= i < j < agents.len() ==> (#[trigger] agents[i]).id != (#[trigger] agents[j]).id
}

/// To start an agent, or to give one another status, keeps ids unique.
pub proof fn law_agent_ids_stay_unique(
    agents: Seq<AgentModel>,
    a: AgentModel,
    id: Seq<char>,
    status: StatusModel,
)
    requires
        agents_differ(agents),
    ensures
        agents_differ(with_agent(agents, a)),
        agents_differ(with_status(agents, id, status)),
{
    lemma_agent_place(agents, a.id);
    lemma_agent_place(agents, id);
}

/// A status is read back as it was set, and other agents keep theirs.
pub proof fn law_status_is_read_back(
    agents: Seq<AgentModel>,
    id: Seq<char>,
    status: StatusModel,
    other: Seq<char>,
)
    requires
        has_agent(agents, id),
    ensures
        has_agent(with_status(agents, id, status), id),
        agent_of(with_status(agents, id, status), id).status == status,
        has_agent(with_status(agents, id, status), other) == has_agent(agents, other),
        other != id && has_agent(agents, other) ==> agent_of(
            with_status(agents, id, status),
            other,
        ) == agent_of(agents, other),
{
    lemma_agent_place(agents, id);
    lemma_agent_place(agents, other);
    let next = with_status(agents, id, status);
    assert forall|i: int| 0 <= i < agents.len() implies (#[trigger] next[i]).id
        == agents[i].id by {}
    lemma_agent_place_is(next, id, agent_place(agents, id));
    lemma_agent_place_is(next, other, agent_place(agents, other));
}

// ── Signals ────────────────────────────────────────────────────────────────
/// What a working agent is told: to pause, or to stop.
#[derive(Debug)]
pub struct AgentSignals {
    pub id: String,
    pub paused: bool,
    pub cancelled: bool,
}

/// What a working agent is told.
pub struct SignalModel {
    pub id: Seq<char>,
    pub paused: bool,
    pub cancelled: bool,
}

impl View for AgentSignals {
    type V = SignalModel;

    open spec fn view(&self) -> SignalModel {
        SignalModel { id: self.id@, paused: self.paused, cancelled: self.cancelled }
    }
}

/// What the working agents are told.
pub open spec fn signal_models(v: Seq<AgentSignals>) -> Seq<SignalModel> {
    v.map_values(|a: AgentSignals| a@)
}

/// Where the signals of the agent `id` stand, or how many there are if it has
/// none.
pub open spec fn signal_place(signals: Seq<SignalModel>, id: Seq<char>) -> int
    decreases signals.len(),
{
    if signals.len() == 0 {
        0
    } else if signals[0].id == id {
        0
    } else {
        1 + signal_place(signals.skip(1), id)
    }
}

/// The agent `id` has been started here.
pub open spec fn has_signals(signals: Seq<SignalModel>, id: Seq<char>) -> bool {
    signal_place(signals, id) < signals.len()
}

/// What the agent `id` is told.
pub open spec fn signals_of(signals: Seq<SignalModel>, id: Seq<char>) -> SignalModel {
    signals[signal_place(signals, id)]
}

/// The place of signals is among them, or behind all of them, and none before it
/// have the id.
pub proof fn lemma_signal_place(signals: Seq<SignalModel>, id: Seq<char>)
    ensures
        0 <= signal_place(signals, id) <= signals.len(),
        signal_place(signals, id) < signals.len() ==> signals[signal_place(signals, id)].id == id,
        forall|i: int| 0 <= i < signal_place(signals, id) ==> (#[trigger] signals[i]).id != id,
    decreases signals.len(),
{
    if signals.len() > 0 && signals[0].id != id {
        lemma_signal_place(signals.skip(1), id);
        assert forall|i: int| 0 <= i < signal_place(signals, id) implies (
        #[trigger] signals[i]).id != id by {
            if i > 0 {
                assert(signals.skip(1)[i - 1] == signals[i]);
            }
        }
    }
}

proof fn lemma_signal_place_is(signals: Seq<SignalModel>, id: Seq<char>, k: int)
    requires
        0 <= k <= signals.len(),
        forall|i: int| 0 <= i < k ==> (#[trigger] signals[i]).id != id,
        k < signals.len() ==> signals[k].id == id,
    ensures
        signal_place(signals, id) == k,
{
    lemma_signal_place(signals, id);
    let p = signal_place(signals, id);
    if p < k {
        assert(signals[p].id != id);
    } else if k < p {
        assert(signals[k].id != id);
    }
}

/// The signals with those of one agent among them.
pub open spec fn with_signals(signals: Seq<SignalModel>, s: SignalModel) -> Seq<SignalModel> {
    if has_signals(signals, s.id) {
        signals.update(signal_place(signals, s.id), s)
    } else {
        signals.push(s)
    }
}

// ── The work of an agent ───────────────────────────────────────────────────
/// What an agent does next.
#[derive(Debug, Clone, Copy, PartialEq, Eq, Structural)]
pub enum AgentStep {
    /// Stop, cancelled.
    Stop,
    /// Wait so many milliseconds, paused.
    Wait(u64),
    /// Work so many milliseconds.
    Work(u64),
    /// Stop, done.
    Finish,
}

/// After how many steps of work a task is done.
pub const WORK_STEPS: u64 = 50;

/// What an agent does next. To be cancelled goes before to be paused.
pub open spec fn step_of(s: SignalModel, ticks: u64) -> AgentStep {
    if ticks >= WORK_STEPS {
        AgentStep::Finish
    } else if s.cancelled {
        AgentStep::Stop
    } else if s.paused {
        AgentStep::Wait(50)
    } else {
        AgentStep::Work(100)
    }
}

/// An agent that is cancelled stops though it is paused, an agent that is
/// paused does not work, and one that is neither works on, until its task is
/// done.
pub proof fn law_signals_are_obeyed(s: SignalModel, ticks: u64)
    requires
        ticks < WORK_STEPS,
    ensures
        s.cancelled ==> step_of(s, ticks) == AgentStep::Stop,
        s.paused ==> !(step_of(s, ticks) is Work) && !(step_of(s, ticks) is Finish),
        !s.cancelled && !s.paused ==> step_of(s, ticks) is Work,
{
}

// ── Errors ─────────────────────────────────────────────────────────────────
/// Why a command failed.
#[derive(Debug, PartialEq, Eq)]
pub enum BackgroundError {
    NotFound(String),
    InvalidState(String),
}

/// Why a command failed.
pub enum FaultModel {
    NotFound(Seq<char>),
    InvalidState(Seq<char>),
}

impl View for BackgroundError {
    type V = FaultModel;

    open spec fn view(&self) -> FaultModel {
        match *self {
            BackgroundError::NotFound(s) => FaultModel::NotFound(s@),
            BackgroundError::InvalidState(s) => FaultModel::InvalidState(s@),
        }
    }
}

/// The agent `id` cannot be resumed.
pub open spec fn not_paused(id: Seq<char>) -> FaultModel {
    FaultModel::InvalidState("Agent "@ + id + " is not paused"@)
}

impl BackgroundError {
    /// The error in words.
    pub fn message(&self) -> (r: String)
        ensures
            r@ == (match self@ {
                FaultModel::NotFound(s) => "Agent not found: "@ + s,
                FaultModel::InvalidState(s) => "Invalid state: "@ + s,
            }),
    {
        match self {
            BackgroundError::NotFound(s) => {
                let mut out = "Agent not found: ".to_owned();
                out.append(s.as_str());
                out
            },
            BackgroundError::InvalidState(s) => {
                let mut out = "Invalid state: ".to_owned();
                out.append(s.as_str());
                out
            },
        }
    }
}

// ── The manager ────────────────────────────────────────────────────────────
/// The agents, and what those that were started here are told.
pub struct BackgroundModel {
    pub agents: Seq<AgentModel>,
    pub signals: Seq<SignalModel>,
}

impl BackgroundModel {
    /// No two agents have one id.
    pub open spec fn wf(self) -> bool {
        agents_differ(self.agents)
    }

    /// After the agent `id` was paused.
    pub open spec fn paused(self, id: Seq<char>) -> BackgroundModel {
        BackgroundModel {
            agents: with_status(self.agents, id, StatusModel::Paused),
            signals: with_signals(
                self.signals,
                SignalModel { paused: true, ..signals_of(self.signals, id) },
            ),
        }
    }

    /// After the agent `id` was resumed.
    pub open spec fn resumed(self, id: Seq<char>) -> BackgroundModel {
        BackgroundModel {
            agents: with_status(self.agents, id, StatusModel::Running),
            signals: if has_signals(self.signals, id) {
                with_signals(
                    self.signals,
                    SignalModel { paused: false, ..signals_of(self.signals, id) },
                )
            } else {
                self.signals
            },
        }
    }

    /// After the agent `id` was cancelled.
    pub open spec fn cancelled(self, id: Seq<char>) -> BackgroundModel {
        BackgroundModel {
            agents: with_status(self.agents, id, StatusModel::Cancelled),
            signals: with_signals(
                self.signals,
                SignalModel { cancelled: true, ..signals_of(self.signals, id) },
            ),
        }
    }
}

/// To resume an agent undoes that it was paused, however often that was: the
/// agent is running again, and is told to work on.
pub proof fn law_resume_undoes_pause(m: BackgroundModel, id: Seq<char>)
    requires
        has_agent(m.agents, id),
        has_signals(m.signals, id),
    ensures
        m.paused(id).paused(id) == m.paused(id),
        agent_of(m.paused(id).agents, id).status is Paused,
        signals_of(m.paused(id).signals, id).paused,
        agent_of(m.paused(id).resumed(id).agents, id) == (AgentModel {
            status: StatusModel::Running,
            ..agent_of(m.agents, id)
        }),
        signals_of(m.paused(id).resumed(id).signals, id) == (SignalModel {
            paused: false,
            ..signals_of(m.signals, id)
        }),
{
    lemma_agent_place(m.agents, id);
    lemma_signal_place(m.signals, id);
    let p = m.paused(id);
    law_status_is_read_back(m.agents, id, StatusModel::Paused, id);
    law_status_is_read_back(p.agents, id, StatusModel::Running, id);
    let k = agent_place(m.agents, id);
    assert forall|i: int| 0 <= i < k implies (#[trigger] p.agents[i]).id != id by {
        assert(m.agents[i].id != id);
    }
    lemma_agent_place_is(p.agents, id, k);
    let j = signal_place(m.signals, id);
    lemma_signal_place_is(p.signals, id, j);
    let r = p.resumed(id);
    assert forall|i: int| 0 <= i < j implies (#[trigger] r.signals[i]).id != id by {
        assert(m.signals[i].id != id);
    }
    lemma_signal_place_is(r.signals, id, j);
    assert forall|i: int| 0 <= i < k implies (#[trigger] r.agents[i]).id != id by {
        assert(p.agents[i].id != id);
    }
    lemma_agent_place_is(r.agents, id, k);
    assert(p.paused(id).agents =~= p.agents);
    assert(p.paused(id).signals =~= p.signals);
}

/// An agent as it is stored, but for its status.
#[derive(Debug)]
pub struct StoredAgent {
    pub id: String,
    pub session_id: String,
    pub started_at: String,
    pub task_description: String,
}

/// What an agent is doing after a restart: what was not done has failed.
pub open spec fn after_restart(s: Option<StatusModel>) -> StatusModel {
    match s {
        None => StatusModel::Failed("Failed to deserialize status"@),
        Some(StatusModel::Running) => StatusModel::Failed("Interrupted by restart"@),
        Some(StatusModel::Paused) => StatusModel::Failed("Interrupted by restart"@),
        Some(other) => other,
    }
}

/// An agent as it is stored, but for its status. Its start can be read again.
pub fn stored_form(a: &BackgroundAgent) -> (r: StoredAgent)
    ensures
        r.id@ == a@.id,
        r.session_id@ == a@.session_id,
        r.started_at@ == rfc3339_text(a@.started_at.secs, a@.started_at.nanos),
        has_four_digit_year(a@.started_at) ==> rfc3339_moment(r.started_at@) == Some(
            a@.started_at,
        ),
        r.task_description@ == a@.task,
{
    StoredAgent {
        id: a.id.clone(),
        session_id: a.session_id.clone(),
        started_at: write_rfc3339(a.started_at),
        task_description: a.task_description.clone(),
    }
}

/// An agent as it comes back from the store. `status` is what was stored of its
/// status, if that could be read. A start that cannot be read is `otherwise`.
pub fn restored(
    row: StoredAgent,
    status: Option<BackgroundStatus>,
    otherwise: Timestamp,
) -> (r: BackgroundAgent)
    ensures
        r@ == (AgentModel {
            id: row.id@,
            session_id: row.session_id@,
            status: after_restart(
                match status {
                    Some(s) => Some(s@),
                    None => None,
                },
            ),
            started_at: match rfc3339_moment(row.started_at@) {
                Some(t) => t,
                None => otherwise,
            },
            task: row.task_description@,
        }),
{
    let started_at = match read_rfc3339(row.started_at.as_str()) {
        Some(t) => t,
        None => otherwise,
    };
    let status = match status {
        None => BackgroundStatus::Failed("Failed to deserialize status".to_owned()),
        Some(BackgroundStatus::Running) => BackgroundStatus::Failed(
            "Interrupted by restart".to_owned(),
        ),
        Some(BackgroundStatus::Paused) => BackgroundStatus::Failed(
            "Interrupted by restart".to_owned(),
        ),
        Some(other) => other,
    };
    BackgroundAgent {
        id: row.id,
        session_id: row.session_id,
        status,
        started_at,
        task_description: row.task_description,
    }
}

/// An agent as it comes back from the store now.
pub fn restored_now(row: StoredAgent, status: Option<BackgroundStatus>) -> (r: BackgroundAgent)
    ensures
        r@ == (AgentModel {
            id: row.id@,
            session_id: row.session_id@,
            status: after_restart(
                match status {
                    Some(s) => Some(s@),
                    None => None,
                },
            ),
            started_at: match rfc3339_moment(row.started_at@) {
                Some(t) => t,
                None => r.started_at,
            },
            task: row.task_description@,
        }),
{
    let t = present();
    restored(row, status, t)
}

/// After a restart no agent is running or paused, and what had come to an end
/// is as it was.
pub proof fn law_nothing_runs_after_a_restart(s: Option<StatusModel>)
    ensures
        !(after_restart(s) is Running),
        !(after_restart(s) is Paused),
        (s matches Some(t) && (t is Completed || t is Failed || t is Cancelled))
            ==> after_restart(s) == s->0,
{
}

/// The agents, and what those that were started here are told.
#[derive(Debug)]
pub struct BackgroundAgentManager {
    agents: Vec<BackgroundAgent>,
    signals: Vec<AgentSignals>,
}

impl View for BackgroundAgentManager {
    type V = BackgroundModel;

    closed spec fn view(&self) -> BackgroundModel {
        BackgroundModel {
            agents: agent_models(self.agents@),
            signals: signal_models(self.signals@),
        }
    }
}

impl BackgroundAgentManager {
    /// No agents.
    pub fn in_memory() -> (r: BackgroundAgentManager)
        ensures
            r@.agents.len() == 0,
            r@.signals.len() == 0,
            r@.wf(),
    {
        BackgroundAgentManager { agents: Vec::new(), signals: Vec::new() }
    }

    fn place(&self, id: &str) -> (r: usize)
        ensures
            r == agent_place(self@.agents, id@),
            r <= self@.agents.len() == self.agents@.len(),
    {
        let ghost all = self@.agents;
        let mut i: usize = 0;
        assert(all.skip(0) =~= all);
        while i < self.agents.len()
            invariant
                i <= self.agents@.len(),
                all == agent_models(self.agents@),
                agent_place(all, id@) == i + agent_place(all.skip(i as int), id@),
            decreases self.agents@.len() - i,
        {
            proof {
                assert(all.skip(i as int)[0] == self.agents@[i as int]@);
                assert(all.skip(i as int).skip(1) =~= all.skip(i + 1));
            }
            if same_text(self.agents[i].id.as_str(), id) {
                return i;
            }
            i += 1;
        }
        i
    }

    fn signal(&self, id: &str) -> (r: usize)
        ensures
            r == signal_place(self@.signals, id@),
            r <= self@.signals.len() == self.signals@.len(),
    {
        let ghost all = self@.signals;
        let mut i: usize = 0;
        assert(all.skip(0) =~= all);
        while i < self.signals.len()
            invariant
                i <= self.signals@.len(),
                all == signal_models(self.signals@),
                signal_place(all, id@) == i + signal_place(all.skip(i as int), id@),
            decreases self.signals@.len() - i,
        {
            proof {
                assert(all.skip(i as int)[0] == self.signals@[i as int]@);
                assert(all.skip(i as int).skip(1) =~= all.skip(i + 1));
            }
            if same_text(self.signals[i].id.as_str(), id) {
                return i;
            }
            i += 1;
        }
        i
    }

    /// Puts an agent among the agents, in place of one with its id.
    pub fn put(&mut self, a: BackgroundAgent)
        ensures
            final(self)@ == (BackgroundModel {
                agents: with_agent(old(self)@.agents, a@),
                ..old(self)@
            }),
            old(self)@.wf() ==> final(self)@.wf(),
    {
        let ghost before = self@.agents;
        let ghost m = a@;
        let i: usize = self.place(a.id.as_str());
        proof {
            lemma_ids_stay_unique(before, m, m.id, m.status);
        }
        if i < self.agents.len() {
            self.agents.set(i, a);
            assert(self@.agents =~= before.update(i as int, m));
        } else {
            self.agents.push(a);
            assert(self@.agents =~= before.push(m));
        }
    }

    fn put_signals(&mut self, s: AgentSignals)
        ensures
            final(self)@ == (BackgroundModel {
                signals: with_signals(old(self)@.signals, s@),
                ..old(self)@
            }),
    {
        let ghost before = self@.signals;
        let ghost m = s@;
        let i: usize = self.signal(s.id.as_str());
        if i < self.signals.len() {
            self.signals.set(i, s);
            assert(self@.signals =~= before.update(i as int, m));
        } else {
            self.signals.push(s);
            assert(self@.signals =~= before.push(m));
        }
    }

    fn set_status(&mut self, id: &str, status: BackgroundStatus)
        ensures
            final(self)@ == (BackgroundModel {
                agents: with_status(old(self)@.agents, id@, status@),
                ..old(self)@
            }),
            old(self)@.wf() ==> final(self)@.wf(),
    {
        let ghost before = self@.agents;
        let ghost m = status@;
        let i: usize = self.place(id);
        proof {
            lemma_ids_stay_unique(before, before[0], id@, m);
        }
        if i < self.agents.len() {
            let a = BackgroundAgent {
                id: self.agents[i].id.clone(),
                session_id: self.agents[i].session_id.clone(),
                status,
                started_at: self.agents[i].started_at,
                task_description: self.agents[i].task_description.clone(),
            };
            let ghost n = a@;
            self.agents.set(i, a);
            assert(self@.agents =~= before.update(i as int, n));
        }
    }

    /// The agents as they come back from the store. Of two with one id the
    /// later counts.
    pub fn from_agents(stored: Vec<BackgroundAgent>) -> (r: BackgroundAgentManager)
        ensures
            r@.agents == all_of(agent_models(stored@), stored@.len()),
            r@.signals.len() == 0,
            r@.wf(),
    {
        let ghost all = agent_models(stored@);
        let mut m = BackgroundAgentManager::in_memory();
        let mut i: usize = 0;
        assert(m@.agents =~= all_of(all, 0));
        while i < stored.len()
            invariant
                i <= stored@.len(),
                all == agent_models(stored@),
                m@.agents == all_of(all, i as nat),
                m@.signals.len() == 0,
                m@.wf(),
            decreases stored@.len() - i,
        {
            assert(all[i as int] == stored@[i as int]@);
            m.put(stored[i].clone());
            i += 1;
        }
        m
    }

    /// Starts an agent. Its id and that of its session are new, and when it
    /// started is up to the clock. Returns its id.
    pub fn start(&mut self, task_description: String) -> (r: String)
        ensures
            exists|session: Seq<char>, at: Timestamp|
                final(self)@ == #[trigger] started(
                    old(self)@,
                    r@,
                    session,
                    at,
                    task_description@,
                ),
            old(self)@.wf() ==> final(self)@.wf(),
    {
        let id = fresh_id();
        let session_id = fresh_id();
        let at = present();
        let r = id.clone();
        let ghost before = self@;
        let ghost session = session_id@;
        let ghost task = task_description@;
        self.start_with(id, session_id, at, task_description);
        assert(self@ == started(before, r@, session, at, task));
        r
    }

    /// Starts an agent with an id, a session and a start.
    pub fn start_with(
        &mut self,
        id: String,
        session_id: String,
        started_at: Timestamp,
        task_description: String,
    )
        ensures
            final(self)@ == started(
                old(self)@,
                id@,
                session_id@,
                started_at,
                task_description@,
            ),
            old(self)@.wf() ==> final(self)@.wf(),
    {
        let signals = AgentSignals { id: id.clone(), paused: false, cancelled: false };
        self.put(
            BackgroundAgent {
                id,
                session_id,
                status: BackgroundStatus::Running,
                started_at,
                task_description,
            },
        );
        self.put_signals(signals);
    }

    /// Pauses an agent that was started here.
    pub fn pause(&mut self, id: &str) -> (r: Result<(), BackgroundError>)
        ensures
            r is Ok <==> has_signals(old(self)@.signals, id@),
            r is Ok ==> final(self)@ == old(self)@.paused(id@),
            r matches Err(e) ==> e@ == FaultModel::NotFound(id@) && final(self)@ == old(self)@,
            old(self)@.wf() ==> final(self)@.wf(),
    {
        let i: usize = self.signal(id);
        if i >= self.signals.len() {
            return Err(BackgroundError::NotFound(id.to_owned()));
        }
        let s = AgentSignals {
            id: self.signals[i].id.clone(),
            paused: true,
            cancelled: self.signals[i].cancelled,
        };
        proof {
            lemma_signal_place(self@.signals, id@);
        }
        self.put_signals(s);
        self.set_status(id, BackgroundStatus::Paused);
        Ok(())
    }

    /// Resumes an agent that is paused.
    pub fn resume(&mut self, id: &str) -> (r: Result<(), BackgroundError>)
        ensures
            r is Ok <==> has_agent(old(self)@.agents, id@) && agent_of(
                old(self)@.agents,
                id@,
            ).status is Paused,
            r is Ok ==> final(self)@ == old(self)@.resumed(id@),
            r matches Err(e) ==> final(self)@ == old(self)@ && e@ == (if has_agent(
                old(self)@.agents,
                id@,
            ) {
                not_paused(id@)
            } else {
                FaultModel::NotFound(id@)
            }),
            old(self)@.wf() ==> final(self)@.wf(),
    {
        let at: usize = self.place(id);
        if at >= self.agents.len() {
            return Err(BackgroundError::NotFound(id.to_owned()));
        }
        if !self.agents[at].status.is_paused() {
            let mut text = "Agent ".to_owned();
            text.append(id);
            text.append(" is not paused");
            return Err(BackgroundError::InvalidState(text));
        }
        self.set_status(id, BackgroundStatus::Running);
        let i: usize = self.signal(id);
        if i < self.signals.len() {
            let s = AgentSignals {
                id: self.signals[i].id.clone(),
                paused: false,
                cancelled: self.signals[i].cancelled,
            };
            proof {
                lemma_signal_place(self@.signals, id@);
            }
            self.put_signals(s);
        }
        Ok(())
    }

    /// The agent `id`.
    pub fn status(&self, id: &str) -> (r: Result<BackgroundAgent, BackgroundError>)
        ensures
            r is Ok <==> has_agent(self@.agents, id@),
            r matches Ok(a) ==> a@ == agent_of(self@.agents, id@),
            r matches Err(e) ==> e@ == FaultModel::NotFound(id@),
    {
        let i: usize = self.place(id);
        if i < self.agents.len() {
            Ok(self.agents[i].clone())
        } else {
            Err(BackgroundError::NotFound(id.to_owned()))
        }
    }

    /// All agents.
    pub fn list(&self) -> (r: &[BackgroundAgent])
        ensures
            agent_models(r@) == self@.agents,
    {
        self.agents.as_slice()
    }

    /// Cancels an agent that was started here.
    pub fn cancel(&mut self, id: &str) -> (r: Result<(), BackgroundError>)
        ensures
            r is Ok <==> has_signals(old(self)@.signals, id@),
            r is Ok ==> final(self)@ == old(self)@.cancelled(id@),
            r matches Err(e) ==> e@ == FaultModel::NotFound(id@) && final(self)@ == old(self)@,
            old(self)@.wf() ==> final(self)@.wf(),
    {
        let i: usize = self.signal(id);
        if i >= self.signals.len() {
            return Err(BackgroundError::NotFound(id.to_owned()));
        }
        let s = AgentSignals {
            id: self.signals[i].id.clone(),
            paused: self.signals[i].paused,
            cancelled: true,
        };
        proof {
            lemma_signal_place(self@.signals, id@);
        }
        self.put_signals(s);
        self.set_status(id, BackgroundStatus::Cancelled);
        Ok(())
    }

    /// What an agent that was started here does next, after so many steps of
    /// work. One that was not stops.
    pub fn next_step(&self, id: &str, ticks: u64) -> (r: AgentStep)
        ensures
            r == (if has_signals(self@.signals, id@) {
                step_of(signals_of(self@.signals, id@), ticks)
            } else {
                AgentStep::Stop
            }),
    {
        let i: usize = self.signal(id);
        if i >= self.signals.len() {
            return AgentStep::Stop;
        }
        if ticks >= WORK_STEPS {
            AgentStep::Finish
        } else if self.signals[i].cancelled {
            AgentStep::Stop
        } else if self.signals[i].paused {
            AgentStep::Wait(50)
        } else {
            AgentStep::Work(100)
        }
    }

    /// An agent has stopped because it was cancelled.
    pub fn stopped(&mut self, id: &str)
        ensures
            final(self)@ == (BackgroundModel {
                agents: with_status(old(self)@.agents, id@, StatusModel::Cancelled),
                ..old(self)@
            }),
            old(self)@.wf() ==> final(self)@.wf(),
    {
        self.set_status(id, BackgroundStatus::Cancelled);
    }

    /// An agent has done its task, in so many steps of work.
    pub fn finished(&mut self, id: &str, ticks: u64)
        ensures
            final(self)@ == (BackgroundModel {
                agents: with_status(
                    old(self)@.agents,
                    id@,
                    StatusModel::Completed(
                        "Task completed after "@ + decimal(ticks as nat) + " ticks"@,
                    ),
                ),
                ..old(self)@
            }),
            old(self)@.wf() ==> final(self)@.wf(),
    {
        let mut text = "Task completed after ".to_owned();
        let n = decimal_text(ticks);
        text.append(n.as_str());
        text.append(" ticks");
        self.set_status(id, BackgroundStatus::Completed(text));
    }
}

/// The first `n` agents, of two with one id the later.
pub open spec fn all_of(stored: Seq<AgentModel>, n: nat) -> Seq<AgentModel>
    decreases n,
{
    if n == 0 {
        Seq::empty()
    } else {
        with_agent(all_of(stored, (n - 1) as nat), stored[n - 1])
    }
}

/// After an agent was started.
pub open spec fn started(
    m: BackgroundModel,
    id: Seq<char>,
    session: Seq<char>,
    at: Timestamp,
    task: Seq<char>,
) -> BackgroundModel {
    BackgroundModel {
        agents: with_agent(
            m.agents,
            AgentModel {
                id,
                session_id: session,
                status: StatusModel::Running,
                started_at: at,
                task,
            },
        ),
        signals: with_signals(m.signals, SignalModel { id, paused: false, cancelled: false }),
    }
}

proof fn lemma_ids_stay_unique(
    agents: Seq<AgentModel>,
    a: AgentModel,
    id: Seq<char>,
    status: StatusModel,
)
    ensures
        agents_differ(agents) ==> agents_differ(with_agent(agents, a)),
        agents_differ(agents) ==> agents_differ(with_status(agents, id, status)),
{
    if agents_differ(agents) {
        law_agent_ids_stay_unique(agents, a, id, status);
    }
}

/// An agent that is started runs, with its task and neither paused nor cancelled; one that
/// is cancelled is told so, and stands as cancelled. The others are left as they were.
pub proof fn law_agents_are_started_and_cancelled(
    m: BackgroundModel,
    id: Seq<char>,
    session: Seq<char>,
    at: Timestamp,
    task: Seq<char>,
    other: Seq<char>,
)
    requires
        other != id,
    ensures
        ({
            let s = started(m, id, session, at, task);
            &&& has_agent(s.agents, id)
            &&& agent_of(s.agents, id).status is Running
            &&& agent_of(s.agents, id).task == task
            &&& agent_of(s.agents, id).id == id
            &&& has_signals(s.signals, id)
            &&& !signals_of(s.signals, id).paused
            &&& !signals_of(s.signals, id).cancelled
            &&& has_agent(s.agents, other) == has_agent(m.agents, other)
            &&& has_agent(m.agents, other) ==> agent_of(s.agents, other) == agent_of(
                m.agents,
                other,
            )
            &&& has_signals(s.signals, other) == has_signals(m.signals, other)
            &&& has_signals(m.signals, other) ==> signals_of(s.signals, other) == signals_of(
                m.signals,
                other,
            )
            &&& agent_of(s.cancelled(id).agents, id).status is Cancelled
            &&& signals_of(s.cancelled(id).signals, id).cancelled
        }),
{
    let s = started(m, id, session, at, task);
    let a = AgentModel {
        id,
        session_id: session,
        status: StatusModel::Running,
        started_at: at,
        task,
    };
    lemma_with_agent(m.agents, a, other);
    lemma_with_signals(m.signals, SignalModel { id, paused: false, cancelled: false }, other);
    law_status_is_read_back(s.agents, id, StatusModel::Cancelled, other);
    lemma_signal_place(s.signals, id);
    lemma_with_signals(
        s.signals,
        SignalModel { cancelled: true, ..signals_of(s.signals, id) },
        other,
    );
}

proof fn lemma_with_agent(agents: Seq<AgentModel>, a: AgentModel, other: Seq<char>)
    requires
        other != a.id,
    ensures
        has_agent(with_agent(agents, a), a.id),
        agent_of(with_agent(agents, a), a.id) == a,
        has_agent(with_agent(agents, a), other) == has_agent(agents, other),
        has_agent(agents, other) ==> agent_of(with_agent(agents, a), other) == agent_of(
            agents,
            other,
        ),
{
    let all = with_agent(agents, a);
    lemma_agent_place(agents, a.id);
    lemma_agent_place(agents, other);
    lemma_agent_place(all, other);
    let at = agent_place(agents, a.id);
    assert forall|i: int| 0 <= i < at implies (#[trigger] all[i]).id != a.id by {
        assert(agents[i].id != a.id);
    }
    lemma_agent_place_is(all, a.id, at);
    let k = agent_place(agents, other);
    if k < agents.len() {
        assert forall|i: int| 0 <= i < k implies (#[trigger] all[i]).id != other by {
            assert(agents[i].id != other);
        }
        lemma_agent_place_is(all, other, k);
    } else {
        let j = agent_place(all, other);
        if j < all.len() && j < agents.len() {
            assert(agents[j].id != other);
        }
    }
}

proof fn lemma_with_signals(signals: Seq<SignalModel>, s: SignalModel, other: Seq<char>)
    requires
        other != s.id,
    ensures
        has_signals(with_signals(signals, s), s.id),
        signals_of(with_signals(signals, s), s.id) == s,
        has_signals(with_signals(signals, s), other) == has_signals(signals, other),
        has_signals(signals, other) ==> signals_of(with_signals(signals, s), other) == signals_of(
            signals,
            other,
        ),
{
    let all = with_signals(signals, s);
    lemma_signal_place(signals, s.id);
    lemma_signal_place(signals, other);
    lemma_signal_place(all, other);
    let at = signal_place(signals, s.id);
    assert forall|i: int| 0 <= i < at implies (#[trigger] all[i]).id != s.id by {
        assert(signals[i].id != s.id);
    }
    lemma_signal_place_is(all, s.id, at);
    let k = signal_place(signals, other);
    if k < signals.len() {
        assert forall|i: int| 0 <= i < k implies (#[trigger] all[i]).id != other by {
            assert(signals[i].id != other);
        }
        lemma_signal_place_is(all, other, k);
    } else {
        let j = signal_place(all, other);
        if j < all.len() && j < signals.len() {
            assert(signals[j].id != other);
        }
    }
}

} // verus!

//! Running a project's tests after an answer, and saying how they went.

use crate::events::{AgentEvent, EventModel};
use crate::numeral::{decimal, decimal_text, signed_decimal, signed_decimal_text};
use crate::split::{join, join_texts};
use crate::text::{
    chars_of, contains_text, lemma_contains_part, lemma_other_start, starts_with, text_of, texts,
};
use vstd::prelude::*;
use vstd::slice::slice_subrange;
use vstd::string::*;
use vstd::utf8::{decode_utf8, valid_utf8};

verus! {

// ── Configuration ──────────────────────────────────────────────────────────
/// Which command runs the tests, where, for how long, and how much of its
/// output is shown if they fail.
#[derive(Debug)]
pub struct TestGateConfig {
    pub command: Vec<String>,
    pub working_dir: String,
    pub timeout_ms: u64,
    pub tail_bytes: usize,
}

impl TestGateConfig {
    /// A command in a directory, with five minutes and 4096 characters.
    pub fn new(command: Vec<String>, working_dir: &str) -> (r: TestGateConfig)
        ensures
            r.command == command,
            r.working_dir@ == working_dir@,
            r.timeout_ms == 300_000,
            r.tail_bytes == 4096,
    {
        TestGateConfig {
            command,
            working_dir: working_dir.to_owned(),
            timeout_ms: 300_000,
            tail_bytes: 4096,
        }
    }

    /// The same with another timeout, in milliseconds.
    pub fn with_timeout(self, ms: u64) -> (r: TestGateConfig)
        ensures
            r == (TestGateConfig { timeout_ms: ms, ..self }),
    {
        TestGateConfig {
            command: self.command,
            working_dir: self.working_dir,
            timeout_ms: ms,
            tail_bytes: self.tail_bytes,
        }
    }

    /// The same with more or less output, but no less than 256 characters.
    pub fn with_tail_bytes(self, n: usize) -> (r: TestGateConfig)
        ensures
            r == (TestGateConfig {
                tail_bytes: if n >= 256 {
                    n
                } else {
                    256
                },
                ..self
            }),
    {
        TestGateConfig {
            command: self.command,
            working_dir: self.working_dir,
            timeout_ms: self.timeout_ms,
            tail_bytes: if n >= 256 {
                n
            } else {
                256
            },
        }
    }
}

// ── Outcomes ───────────────────────────────────────────────────────────────
/// How the tests went.
#[derive(Debug)]
pub enum TestGateOutcome {
    Pass { tail: String },
    /// `code` is `None` if a signal ended the command.
    Fail { code: Option<i32>, tail: String },
    SpawnError(String),
    Timeout { seconds: u64 },
    Cancelled,
}

/// The model of a [`TestGateOutcome`].
pub enum GateModel {
    Pass { tail: Seq<char> },
    Fail { code: Option<i32>, tail: Seq<char> },
    SpawnError(Seq<char>),
    Timeout { seconds: u64 },
    Cancelled,
}

impl View for TestGateOutcome {
    type V = GateModel;

    open spec fn view(&self) -> GateModel {
        match self {
            TestGateOutcome::Pass { tail } => GateModel::Pass { tail: tail@ },
            TestGateOutcome::Fail { code, tail } => GateModel::Fail { code: *code, tail: tail@ },
            TestGateOutcome::SpawnError(s) => GateModel::SpawnError(s@),
            TestGateOutcome::Timeout { seconds } => GateModel::Timeout { seconds: *seconds },
            TestGateOutcome::Cancelled => GateModel::Cancelled,
        }
    }
}

/// What an exit code is called.
pub open spec fn code_name(code: Option<i32>) -> Seq<char> {
    match code {
        Some(c) => signed_decimal(c as int),
        None => "signal"@,
    }
}

impl GateModel {
    /// The note for the answer.
    pub open spec fn annotation(self) -> Seq<char> {
        match self {
            GateModel::Pass { .. } => "✓ project tests passed (verification gate)"@,
            GateModel::Fail { code, tail } => "❌ project tests FAILED (exit "@ + code_name(code)
                + "; verification gate)\n─── last output ───\n"@ + tail,
            GateModel::SpawnError(msg) => "⚠️ project tests could not be run: "@ + msg
                + " (verification gate)"@,
            GateModel::Timeout { seconds } => "⏱ project tests timed out after "@ + decimal(
                seconds as nat,
            ) + "s (verification gate)"@,
            GateModel::Cancelled => "⏸ project tests cancelled by user (verification gate)"@,
        }
    }

    /// A short name.
    pub open spec fn label(self) -> Seq<char> {
        match self {
            GateModel::Pass { .. } => "pass"@,
            GateModel::Fail { .. } => "fail"@,
            GateModel::SpawnError(_) => "spawn_error"@,
            GateModel::Timeout { .. } => "timeout"@,
            GateModel::Cancelled => "cancelled"@,
        }
    }

    /// The exit code, where there is one.
    pub open spec fn exit_code(self) -> Option<i32> {
        match self {
            GateModel::Pass { .. } => Some(0),
            GateModel::Fail { code, .. } => code,
            _ => None,
        }
    }
}

impl TestGateOutcome {
    /// The note for the answer.
    pub fn annotation(&self) -> (r: String)
        ensures
            r@ == self@.annotation(),
    {
        match self {
            TestGateOutcome::Pass { .. } => {
                "✓ project tests passed (verification gate)".to_owned()
            },
            TestGateOutcome::Fail { code, tail } => {
                let mut out = "❌ project tests FAILED (exit ".to_owned();
                match code {
                    Some(c) => {
                        let n = signed_decimal_text(*c);
                        out.append(n.as_str());
                    },
                    None => {
                        out.append("signal");
                    },
                }
                out.append("; verification gate)\n─── last output ───\n");
                out.append(tail.as_str());
                out
            },
            TestGateOutcome::SpawnError(msg) => {
                let mut out = "⚠️ project tests could not be run: ".to_owned();
                out.append(msg.as_str());
                out.append(" (verification gate)");
                out
            },
            TestGateOutcome::Timeout { seconds } => {
                let mut out = "⏱ project tests timed out after ".to_owned();
                let n = decimal_text(*seconds);
                out.append(n.as_str());
                out.append("s (verification gate)");
                out
            },
            TestGateOutcome::Cancelled => {
                "⏸ project tests cancelled by user (verification gate)".to_owned()
            },
        }
    }

    /// Whether the tests passed.
    pub fn passed(&self) -> (r: bool)
        ensures
            r == (self@ is Pass),
    {
        match self {
            TestGateOutcome::Pass { .. } => true,
            _ => false,
        }
    }

    /// A short name.
    pub fn event_label(&self) -> (r: &'static str)
        ensures
            r@ == self@.label(),
    {
        match self {
            TestGateOutcome::Pass { .. } => "pass",
            TestGateOutcome::Fail { .. } => "fail",
            TestGateOutcome::SpawnError(_) => "spawn_error",
            TestGateOutcome::Timeout { .. } => "timeout",
            TestGateOutcome::Cancelled => "cancelled",
        }
    }

    /// The exit code, where there is one.
    pub fn exit_code(&self) -> (r: Option<i32>)
        ensures
            r == self@.exit_code(),
    {
        match self {
            TestGateOutcome::Pass { .. } => Some(0),
            TestGateOutcome::Fail { code, .. } => *code,
            _ => None,
        }
    }
}

// ── Output ─────────────────────────────────────────────────────────────────
/// The last `n` characters of `s`, or all of it.
pub open spec fn tail_text(s: Seq<char>, n: nat) -> Seq<char> {
    if s.len() <= n {
        s
    } else {
        s.subrange(s.len() - n, s.len() as int)
    }
}

/// The last `n` characters of `s`, or all of it if there are no more.
pub fn tail_chars(s: &str, n: usize) -> (r: String)
    ensures
        r@ == tail_text(s@, n as nat),
{
    let c = chars_of(s);
    if c.len() <= n {
        return s.to_owned();
    }
    text_of(slice_subrange(c.as_slice(), c.len() - n, c.len()))
}

/// What `String::from_utf8_lossy` makes of bytes.
pub uninterp spec fn lossy(bytes: Seq<u8>) -> Seq<char>;

/// `String::from_utf8_lossy`, which depends on the bytes alone. Bytes that are
/// valid UTF-8 are decoded; of others nothing more is claimed.
#[verifier::external_body]
fn lossy_text(bytes: &[u8]) -> (r: String)
    ensures
        r@ == lossy(bytes@),
        valid_utf8(bytes@) ==> r@ == decode_utf8(bytes@),
{
    String::from_utf8_lossy(bytes).into_owned()
}

/// What a command wrote to its two outputs, one after the other.
pub open spec fn combined(out: Seq<char>, err: Seq<char>) -> Seq<char> {
    if err.len() == 0 {
        out
    } else if out.len() == 0 {
        err
    } else {
        out + "\n"@ + err
    }
}

/// The outcome of a command that ended.
pub open spec fn exit_outcome(code: Option<i32>, out: Seq<char>, err: Seq<char>, n: nat) -> GateModel {
    let tail = tail_text(combined(out, err), n);
    if code == Some(0i32) {
        GateModel::Pass { tail }
    } else {
        GateModel::Fail { code, tail }
    }
}

/// What a command wrote to an output: nothing is the empty text.
pub open spec fn output_text(bytes: Seq<u8>) -> Seq<char> {
    if bytes.len() == 0 {
        Seq::empty()
    } else {
        lossy(bytes)
    }
}

/// The outcome of a command that ended, from what it wrote. It succeeded if
/// its exit code is zero.
pub fn classify_texts(code: Option<i32>, stdout: &str, stderr: &str, tail_bytes: usize) -> (r:
    TestGateOutcome)
    ensures
        r@ == exit_outcome(code, stdout@, stderr@, tail_bytes as nat),
{
    let mut all = stdout.to_owned();
    if !stderr.is_empty() {
        if !stdout.is_empty() {
            all.append("\n");
        }
        all.append(stderr);
    }
    assert(all@ =~= combined(stdout@, stderr@));
    let tail = tail_chars(all.as_str(), tail_bytes);
    let ok = match code {
        Some(c) => c == 0,
        None => false,
    };
    if ok {
        TestGateOutcome::Pass { tail }
    } else {
        TestGateOutcome::Fail { code, tail }
    }
}

/// The outcome of a command that ended, from the bytes that it wrote.
pub fn classify_test_output(
    code: Option<i32>,
    stdout: &[u8],
    stderr: &[u8],
    tail_bytes: usize,
) -> (r: TestGateOutcome)
    ensures
        r@ == exit_outcome(code, output_text(stdout@), output_text(stderr@), tail_bytes as nat),
{
    let out = if stdout.is_empty() {
        String::new()
    } else {
        lossy_text(stdout)
    };
    let err = if stderr.is_empty() {
        String::new()
    } else {
        lossy_text(stderr)
    };
    classify_texts(code, out.as_str(), err.as_str(), tail_bytes)
}

// ── Running ────────────────────────────────────────────────────────────────
/// What became of the command.
pub enum GateRun {
    SpawnFailed(String),
    IoFailed(String),
    TimedOut,
    Cancelled,
    Exited { code: Option<i32>, stdout: Vec<u8>, stderr: Vec<u8> },
}

/// What to do before the command is run.
pub enum GateStart {
    /// There is no command.
    Refused(TestGateOutcome),
    /// The run was cancelled before it began.
    Cancelled(AgentEvent),
    /// Run the command.
    Run(AgentEvent),
}

/// The event that tells which command is run.
pub open spec fn gate_started(cfg: TestGateConfig) -> EventModel {
    EventModel::TestGateStarted {
        command_display: join(texts(cfg.command@), " "@),
        working_dir: cfg.working_dir@,
        timeout_secs: cfg.timeout_ms / 1000,
    }
}

/// What to do before the command is run.
pub fn start_gate(cfg: &TestGateConfig, cancelled: bool) -> (r: GateStart)
    ensures
        match r {
            GateStart::Refused(o) => cfg.command@.len() == 0 && o@ == GateModel::SpawnError(
                "test_gate_config.command is empty"@,
            ),
            GateStart::Cancelled(e) => cfg.command@.len() > 0 && cancelled && e@ == gate_started(
                *cfg,
            ),
            GateStart::Run(e) => cfg.command@.len() > 0 && !cancelled && e@ == gate_started(*cfg),
        },
{
    if cfg.command.is_empty() {
        return GateStart::Refused(
            TestGateOutcome::SpawnError("test_gate_config.command is empty".to_owned()),
        );
    }
    let event = AgentEvent::TestGateStarted {
        command_display: join_texts(cfg.command.as_slice(), " "),
        working_dir: cfg.working_dir.clone(),
        timeout_secs: cfg.timeout_ms / 1000,
    };
    if cancelled {
        GateStart::Cancelled(event)
    } else {
        GateStart::Run(event)
    }
}

/// The outcome that follows from what became of the command.
pub open spec fn run_outcome(cfg: TestGateConfig, run: GateRun) -> GateModel {
    match run {
        GateRun::SpawnFailed(e) => GateModel::SpawnError(
            "failed to spawn `"@ + cfg.command@[0]@ + "`: "@ + e@,
        ),
        GateRun::IoFailed(e) => GateModel::SpawnError("test command i/o error: "@ + e@),
        GateRun::TimedOut => GateModel::Timeout { seconds: cfg.timeout_ms / 1000 },
        GateRun::Cancelled => GateModel::Cancelled,
        GateRun::Exited { code, stdout, stderr } => exit_outcome(
            code,
            output_text(stdout@),
            output_text(stderr@),
            cfg.tail_bytes as nat,
        ),
    }
}

/// The outcome that follows from what became of the command.
pub fn finish_gate(cfg: &TestGateConfig, run: GateRun) -> (r: TestGateOutcome)
    requires
        cfg.command@.len() > 0,
    ensures
        r@ == run_outcome(*cfg, run),
{
    match run {
        GateRun::SpawnFailed(e) => {
            let mut out = "failed to spawn `".to_owned();
            out.append(cfg.command[0].as_str());
            out.append("`: ");
            out.append(e.as_str());
            TestGateOutcome::SpawnError(out)
        },
        GateRun::IoFailed(e) => {
            let mut out = "test command i/o error: ".to_owned();
            out.append(e.as_str());
            TestGateOutcome::SpawnError(out)
        },
        GateRun::TimedOut => TestGateOutcome::Timeout { seconds: cfg.timeout_ms / 1000 },
        GateRun::Cancelled => TestGateOutcome::Cancelled,
        GateRun::Exited { code, stdout, stderr } => classify_test_output(
            code,
            stdout.as_slice(),
            stderr.as_slice(),
            cfg.tail_bytes,
        ),
    }
}

/// The event that tells how the tests went.
pub fn gate_completed(outcome: &TestGateOutcome, duration_ms: u64) -> (r: AgentEvent)
    ensures
        r@ == (EventModel::TestGateCompleted {
            outcome: outcome@.label(),
            exit_code: outcome@.exit_code(),
            duration_ms,
        }),
{
    AgentEvent::TestGateCompleted {
        outcome: outcome.event_label().to_owned(),
        exit_code: outcome.exit_code(),
        duration_ms,
    }
}

/// The answer with the note on how the tests went.
pub fn annotate(answer: &str, outcome: &TestGateOutcome) -> (r: String)
    ensures
        r@ == answer@ + "\n\n"@ + outcome@.annotation(),
{
    let mut out = answer.to_owned();
    out.append("\n\n");
    let note = outcome.annotation();
    out.append(note.as_str());
    out
}

// ── Laws ───────────────────────────────────────────────────────────────────
/// The tests pass exactly if the command ended with the code zero. A command that
/// could not be run, took too long or was cancelled does not pass.
pub proof fn law_tests_pass_with_code_zero(cfg: TestGateConfig, run: GateRun)
    ensures
        run_outcome(cfg, run) is Pass <==> (run matches GateRun::Exited { code, .. } && code
            == Some(0i32)),
        run matches GateRun::Exited { code, .. } ==> (code != Some(0i32) ==> run_outcome(
            cfg,
            run,
        ) is Fail && run_outcome(cfg, run).exit_code() == code),
        run is TimedOut ==> run_outcome(cfg, run) is Timeout && run_outcome(cfg, run)->seconds
            == cfg.timeout_ms / 1000,
        run is Cancelled ==> run_outcome(cfg, run) is Cancelled,
        run is SpawnFailed || run is IoFailed ==> run_outcome(cfg, run) is SpawnError,
{
}

/// What is shown of the output is its end: no more characters than are asked for, and
/// all of it if there are no more.
pub proof fn law_the_end_of_the_output_is_shown(out: Seq<char>, err: Seq<char>, code: Option<i32>, n: nat)
    ensures
        ({
            let all = combined(out, err);
            let o = exit_outcome(code, out, err, n);
            let tail = match o {
                GateModel::Pass { tail } => tail,
                GateModel::Fail { tail, .. } => tail,
                _ => Seq::empty(),
            };
            &&& tail.len() == if all.len() <= n {
                all.len()
            } else {
                n
            }
            &&& tail == all.skip(all.len() - tail.len())
        }),
        contains_text(combined(out, err), out),
        contains_text(combined(out, err), err),
        err.len() > 0 ==> combined(out, err).skip(combined(out, err).len() - err.len()) == err,
{
    let all = combined(out, err);
    assert(all.skip(0) =~= all);
    let none = Seq::<char>::empty();
    lemma_contains_part(none, out, "\n"@ + err);
    lemma_contains_part(out + "\n"@, err, none);
    lemma_contains_part(none, out, none);
    lemma_contains_part(none, err, none);
    assert(none + out + ("\n"@ + err) =~= out + "\n"@ + err);
    assert(out + "\n"@ + err + none =~= out + "\n"@ + err);
    assert(none + out + none =~= out);
    assert(none + err + none =~= err);
    if err.len() > 0 {
        assert(all.skip(all.len() - err.len()) =~= err);
    } else {
        lemma_contains_part(none, err, out);
        assert(none + err + out =~= out);
    }
    if out.len() == 0 {
        lemma_contains_part(none, out, err);
        assert(none + out + err =~= err);
    }
}

/// The note on an answer says how the tests went: only a pass and only a failure begin
/// with their own mark.
pub proof fn law_notes_tell_how_the_tests_went(o: GateModel)
    ensures
        starts_with(o.annotation(), "✓"@) <==> o is Pass,
        starts_with(o.annotation(), "❌"@) <==> o is Fail,
{
    reveal_strlit("✓");
    reveal_strlit("❌");
    let s = o.annotation();
    match o {
        GateModel::Pass { .. } => {
            reveal_strlit("✓ project tests passed (verification gate)");
            assert(s.subrange(0, 1) =~= "✓"@);
            lemma_other_start(s, "❌"@, 0);
        },
        GateModel::Fail { code, tail } => {
            reveal_strlit("❌ project tests FAILED (exit ");
            assert(s.subrange(0, 1) =~= "❌"@);
            lemma_other_start(s, "✓"@, 0);
        },
        GateModel::SpawnError { .. } => {
            reveal_strlit("⚠️ project tests could not be run: ");
            lemma_other_start(s, "✓"@, 0);
            lemma_other_start(s, "❌"@, 0);
        },
        GateModel::Timeout { .. } => {
            reveal_strlit("⏱ project tests timed out after ");
            lemma_other_start(s, "✓"@, 0);
            lemma_other_start(s, "❌"@, 0);
        },
        GateModel::Cancelled => {
            reveal_strlit("⏸ project tests cancelled by user (verification gate)");
            lemma_other_start(s, "✓"@, 0);
            lemma_other_start(s, "❌"@, 0);
        },
    }
}

/// The note on a failure shows its code and what was written last.
pub proof fn law_failures_show_the_output(code: Option<i32>, tail: Seq<char>)
    ensures
        ({
            let note = (GateModel::Fail { code, tail }).annotation();
            &&& contains_text(note, tail)
            &&& contains_text(note, code_name(code))
        }),
{
    let s = (GateModel::Fail { code, tail }).annotation();
    let mid = "; verification gate)\n─── last output ───\n"@;
    let head = "❌ project tests FAILED (exit "@;
    lemma_contains_part(head + code_name(code) + mid, tail, Seq::empty());
    assert(head + code_name(code) + mid + tail + Seq::<char>::empty() =~= s);
    lemma_contains_part(head, code_name(code), mid + tail);
    assert(head + code_name(code) + (mid + tail) =~= s);
}

} // verus!

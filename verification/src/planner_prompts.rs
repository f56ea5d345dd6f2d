//! What a model is asked when it plans, and what its answers mean.

use crate::numeral::{decimal, decimal_text};
use crate::split::{lines, lines_of};
use crate::text::{
    chars_end_with, chars_of, contains_text, ends_with, is_digit, is_space,
    law_trimming_takes_off_the_space, lemma_contains_part, lemma_nothing_to_trim, text_of, texts,
    trim, trimmed,
};
use vstd::prelude::*;
use vstd::slice::slice_subrange;
use vstd::string::*;

verus! {

/// The goal, where there is one.
pub open spec fn goal_header(task: Seq<char>) -> Seq<char> {
    if task.len() == 0 {
        Seq::empty()
    } else {
        "Goal: "@ + task + "\n\n"@
    }
}

/// What a model is asked for continuations.
pub open spec fn expansion_request(task: Seq<char>, state: Seq<char>, k: nat) -> Seq<char> {
    goal_header(task) + "Current planning state:\n"@ + state + "\n\nPropose exactly "@ + decimal(k)
        + " distinct next steps that advance the plan. Output one step per line, no bullet markers, no numbering. End a line with the literal token 'DONE.' if that step would represent a COMPLETE plan (no further steps needed)."@
}

/// What a model is asked for a score.
pub open spec fn score_request(task: Seq<char>, thought: Seq<char>) -> Seq<char> {
    goal_header(task)
        + "Rate the following planning step on a scale of 0.0 (useless) to 1.0 (perfect). Output ONLY the number, nothing else.\n\nStep:\n"@
        + thought
}

fn header(task: &str) -> (r: String)
    ensures
        r@ == goal_header(task@),
{
    if task.is_empty() {
        let out = String::new();
        assert(out@ =~= goal_header(task@));
        return out;
    }
    let mut out = "Goal: ".to_owned();
    out.append(task);
    out.append("\n\n");
    out
}

/// What a model is asked for `k` continuations of a plan.
pub fn expansion_prompt(task_context: &str, state: &str, k: usize) -> (r: String)
    ensures
        r@ == expansion_request(task_context@, state@, k as nat),
{
    let mut out = header(task_context);
    out.append("Current planning state:\n");
    out.append(state);
    out.append("\n\nPropose exactly ");
    let n = decimal_text(k as u64);
    out.append(n.as_str());
    out.append(
        " distinct next steps that advance the plan. Output one step per line, no bullet markers, no numbering. End a line with the literal token 'DONE.' if that step would represent a COMPLETE plan (no further steps needed).",
    );
    out
}

/// What a model is asked for the score of a step.
pub fn score_prompt(task_context: &str, thought: &str) -> (r: String)
    ensures
        r@ == score_request(task_context@, thought@),
{
    let mut out = header(task_context);
    out.append(
        "Rate the following planning step on a scale of 0.0 (useless) to 1.0 (perfect). Output ONLY the number, nothing else.\n\nStep:\n",
    );
    out.append(thought);
    out
}

/// The system prompt for continuations.
pub fn expander_system() -> (r: String)
    ensures
        r@ == "You are a planning module. Be concise and concrete. Each step you produce should be actionable in one tool call."@,
{
    "You are a planning module. Be concise and concrete. Each step you produce should be actionable in one tool call.".to_owned()
}

/// The system prompt for scores.
pub fn scorer_system() -> (r: String)
    ensures
        r@ == "You are a plan critic. Output a single decimal number in [0.0, 1.0]."@,
{
    "You are a plan critic. Output a single decimal number in [0.0, 1.0].".to_owned()
}

/// What a line of an answer means: a step, and whether it completes the plan.
pub open spec fn step_of(line: Seq<char>) -> (Seq<char>, bool) {
    let t = trim(line);
    if ends_with(t, "DONE."@) {
        (trim(t.subrange(0, t.len() - "DONE."@.len())), true)
    } else {
        (t, false)
    }
}

/// The steps of the first `n` lines that are not blank, at most `k`.
pub open spec fn steps(ls: Seq<Seq<char>>, k: nat, n: nat) -> Seq<(Seq<char>, bool)>
    decreases n,
{
    if n == 0 {
        Seq::empty()
    } else {
        let rest = steps(ls, k, (n - 1) as nat);
        if rest.len() < k && trim(ls[n - 1]).len() > 0 {
            rest.push(step_of(ls[n - 1]))
        } else {
            rest
        }
    }
}

/// The models of steps.
pub open spec fn step_models(v: Seq<(String, bool)>) -> Seq<(Seq<char>, bool)> {
    v.map_values(|s: (String, bool)| (s.0@, s.1))
}

fn read_step(t: &[char]) -> (r: (String, bool))
    ensures
        ends_with(t@, "DONE."@) ==> r.1 && r.0@ == trim(
            t@.subrange(0, t@.len() - "DONE."@.len()),
        ),
        !ends_with(t@, "DONE."@) ==> !r.1 && r.0@ == t@,
{
    if chars_end_with(t, "DONE.") {
        let mark = chars_of("DONE.");
        let body = slice_subrange(t, 0, t.len() - mark.len());
        (text_of(trimmed(body)), true)
    } else {
        (text_of(t), false)
    }
}

/// The steps in an answer: one to a line, blank lines left out, at most `k`. A
/// line that ends with `DONE.` completes the plan.
pub fn parse_expansion(text: &str, k: usize) -> (r: Vec<(String, bool)>)
    ensures
        step_models(r@) == steps(lines(text@), k as nat, lines(text@).len()),
{
    let ls = lines_of(text);
    let ghost all = lines(text@);
    let mut out: Vec<(String, bool)> = Vec::new();
    let mut i: usize = 0;
    assert(step_models(out@) =~= steps(all, k as nat, 0));
    while i < ls.len()
        invariant
            texts(ls@) == all,
            ls@.len() == all.len(),
            i <= all.len(),
            step_models(out@) == steps(all, k as nat, i as nat),
        decreases all.len() - i,
    {
        let ghost before = step_models(out@);
        assert(all[i as int] == texts(ls@)[i as int]);
        let c = chars_of(ls[i].as_str());
        let t = trimmed(c.as_slice());
        if out.len() < k && t.len() > 0 {
            let s = read_step(t);
            out.push(s);
            assert((s.0@, s.1) == step_of(all[i as int]));
            assert(step_models(out@) =~= before.push((s.0@, s.1)));
        }
        i += 1;
    }
    out
}

/// A character that a score is written with.
pub open spec fn is_score_char(c: char) -> bool {
    is_digit(c) || c == '.' || c == '-'
}

/// The longest beginning of `s` that a score may be written with.
pub open spec fn score_prefix(s: Seq<char>) -> Seq<char>
    decreases s.len(),
{
    if s.len() > 0 && is_score_char(s[0]) {
        seq![s[0]] + score_prefix(s.subrange(1, s.len() as int))
    } else {
        Seq::empty()
    }
}

/// What of an answer may be a score.
pub fn score_text(text: &str) -> (r: String)
    ensures
        r@ == score_prefix(trim(text@)),
{
    let all = chars_of(text);
    let c = trimmed(all.as_slice());
    let mut out = String::new();
    let mut i: usize = 0;
    assert(c@.subrange(0, c@.len() as int) =~= c@);
    assert(out@ + score_prefix(c@) =~= score_prefix(c@));
    while i < c.len() && ((('0' <= c[i]) && (c[i] <= '9')) || c[i] == '.' || c[i] == '-')
        invariant
            i <= c@.len(),
            c@ == trim(text@),
            out@ + score_prefix(c@.subrange(i as int, c@.len() as int)) == score_prefix(c@),
        decreases c@.len() - i,
    {
        let ghost before = out@;
        out.push(c[i]);
        proof {
            let part = c@.subrange(i as int, c@.len() as int);
            assert(part[0] == c@[i as int]);
            assert(part.subrange(1, part.len() as int) =~= c@.subrange(i + 1, c@.len() as int));
            let tail = score_prefix(c@.subrange(i + 1, c@.len() as int));
            assert(before.push(c@[i as int]) + tail =~= before + (seq![c@[i as int]] + tail));
        }
        i += 1;
    }
    proof {
        let part = c@.subrange(i as int, c@.len() as int);
        if i < c@.len() {
            assert(part[0] == c@[i as int]);
        }
        assert(score_prefix(part) =~= Seq::<char>::empty());
        assert(out@ + Seq::<char>::empty() =~= out@);
    }
    out
}

// ── Laws ───────────────────────────────────────────────────────────────────
/// A line is a step without the space round it. One that ends with the sign of a complete
/// plan completes it, and the sign is no part of the step.
pub proof fn law_lines_are_steps(step: Seq<char>)
    requires
        step.len() > 0,
        !is_space(step[0]),
        !is_space(step.last()),
    ensures
        step_of(step + " DONE."@) == (step, true),
        step.last() != '.' ==> step_of(step) == (step, false),
{
    reveal_strlit(" DONE.");
    reveal_strlit("DONE.");
    let line = step + " DONE."@;
    lemma_nothing_to_trim(step);
    lemma_nothing_to_trim(line);
    assert(line.subrange(line.len() - 5, line.len() as int) =~= "DONE."@);
    assert(ends_with(line, "DONE."@));
    let front = line.subrange(0, line.len() - 5);
    assert(front =~= step.push(' '));
    assert(is_space(' '));
    law_trimming_takes_off_the_space(front);
    let (a, b) = choose|a: int, b: int|
        {
            &&& 0 <= a <= b <= front.len()
            &&& trim(front) == #[trigger] front.subrange(a, b)
            &&& forall|i: int|
                0 <= i < a || b <= i < front.len() ==> is_space(#[trigger] front[i])
            &&& a < b ==> !is_space(front[a]) && !is_space(front[b - 1])
        };
    assert(front[0] == step[0]);
    assert(front[step.len() - 1] == step.last());
    assert(front[step.len() as int] == ' ');
    assert(a == 0);
    assert(b == step.len());
    assert(front.subrange(0, b) =~= step);
    if step.last() != '.' && ends_with(step, "DONE."@) {
        assert(step.subrange(step.len() - 5, step.len() as int)[4] == step.last());
    }
}

/// The steps of an answer are its lines that are not blank, as many as asked for.
pub proof fn law_steps_are_the_lines(ls: Seq<Seq<char>>, k: nat)
    ensures
        ({
            let told = ls.filter(|l: Seq<char>| trim(l).len() > 0).map_values(
                |l: Seq<char>| step_of(l),
            );
            steps(ls, k, ls.len()) == (if told.len() <= k {
                told
            } else {
                told.take(k as int)
            })
        }),
{
    lemma_steps(ls, k, ls.len());
    assert(ls.take(ls.len() as int) =~= ls);
}

proof fn lemma_steps(ls: Seq<Seq<char>>, k: nat, n: nat)
    requires
        n <= ls.len(),
    ensures
        ({
            let told = ls.take(n as int).filter(|l: Seq<char>| trim(l).len() > 0).map_values(
                |l: Seq<char>| step_of(l),
            );
            steps(ls, k, n) == (if told.len() <= k {
                told
            } else {
                told.take(k as int)
            })
        }),
    decreases n,
{
    reveal(Seq::filter);
    let some = |l: Seq<char>| trim(l).len() > 0;
    let form = |l: Seq<char>| step_of(l);
    let part = ls.take(n as int);
    let told = part.filter(some).map_values(form);
    if n > 0 {
        lemma_steps(ls, k, (n - 1) as nat);
        let before = ls.take(n - 1);
        let earlier = before.filter(some).map_values(form);
        assert(part.drop_last() =~= before);
        assert(part.last() == ls[n - 1]);
        if some(ls[n - 1]) {
            assert(told =~= earlier.push(step_of(ls[n - 1])));
            if earlier.len() >= k {
                assert(told.take(k as int) =~= earlier.take(k as int));
                if earlier.len() == k {
                    assert(earlier.take(k as int) =~= earlier);
                }
            }
        }
    } else {
        assert(told =~= Seq::<(Seq<char>, bool)>::empty());
    }
}

/// A score is read as far as its characters go.
pub proof fn law_scores_end_before_other_text(score: Seq<char>, after: Seq<char>)
    requires
        forall|i: int|
            0 <= i < score.len() ==> is_digit(#[trigger] score[i]) || score[i] == '.' || score[i]
                == '-',
        after.len() > 0 ==> !is_digit(after[0]) && after[0] != '.' && after[0] != '-',
    ensures
        score_prefix(score + after) == score,
    decreases score.len(),
{
    let s = score + after;
    if score.len() > 0 {
        let rest = score.subrange(1, score.len() as int);
        assert(s[0] == score[0]);
        assert(s.subrange(1, s.len() as int) =~= rest + after);
        assert forall|i: int| 0 <= i < rest.len() implies is_digit(#[trigger] rest[i]) || rest[i]
            == '.' || rest[i] == '-' by {
            assert(rest[i] == score[i + 1]);
        }
        law_scores_end_before_other_text(rest, after);
        assert(seq![score[0]] + rest =~= score);
    } else {
        assert(s =~= after);
    }
}

/// A request shows the goal, what is there so far and how many steps are asked for.
pub proof fn law_requests_show_goal_and_state(
    task: Seq<char>,
    state: Seq<char>,
    k: nat,
)
    ensures
        contains_text(expansion_request(task, state, k), state),
        contains_text(expansion_request(task, state, k), decimal(k)),
        contains_text(score_request(task, state), state),
        task.len() > 0 ==> contains_text(expansion_request(task, state, k), task)
            && contains_text(score_request(task, state), task),
{
    let r = expansion_request(task, state, k);
    let a = "Current planning state:\n"@;
    let b = "\n\nPropose exactly "@;
    let z =
        " distinct next steps that advance the plan. Output one step per line, no bullet markers, no numbering. End a line with the literal token 'DONE.' if that step would represent a COMPLETE plan (no further steps needed)."@;
    let head = goal_header(task);
    lemma_contains_part(head + a, state, b + decimal(k) + z);
    assert(head + a + state + (b + decimal(k) + z) =~= r);
    lemma_contains_part(head + a + state + b, decimal(k), z);
    let q = score_request(task, state);
    let c =
        "Rate the following planning step on a scale of 0.0 (useless) to 1.0 (perfect). Output ONLY the number, nothing else.\n\nStep:\n"@;
    lemma_contains_part(head + c, state, Seq::empty());
    assert(head + c + state + Seq::<char>::empty() =~= q);
    if task.len() > 0 {
        let rest = "\n\n"@ + a + state + b + decimal(k) + z;
        lemma_contains_part("Goal: "@, task, rest);
        assert("Goal: "@ + task + rest =~= r);
        lemma_contains_part("Goal: "@, task, "\n\n"@ + c + state);
        assert("Goal: "@ + task + ("\n\n"@ + c + state) =~= q);
    }
}

} // verus!

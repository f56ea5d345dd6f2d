//! The state of a context, for people to read.
//!
//! Percentages come in as texts, with one digit after the point.

use crate::context::ContextBreakdown;
use crate::context_manager::ContextManager;
use crate::numeral::{decimal, decimal_text};
use crate::text::chars_of;
use vstd::prelude::*;
use vstd::string::*;

verus! {

/// A character over and over.
pub open spec fn repeated(c: char, n: nat) -> Seq<char> {
    Seq::new(n, |i: int| c)
}

/// Adds a character over and over.
pub fn append_repeated(out: &mut String, c: char, n: usize)
    ensures
        final(out)@ == old(out)@ + repeated(c, n as nat),
{
    let ghost start = out@;
    let mut i: usize = 0;
    assert(start + repeated(c, 0) =~= start);
    while i < n
        invariant
            i <= n,
            out@ == start + repeated(c, i as nat),
        decreases n - i,
    {
        out.push(c);
        assert(start + repeated(c, (i + 1) as nat) =~= (start + repeated(c, i as nat)).push(c));
        i += 1;
    }
}

/// How many characters are missing from `n`.
pub open spec fn missing(s: Seq<char>, n: nat) -> nat {
    if s.len() <= n {
        (n - s.len()) as nat
    } else {
        0
    }
}

/// A text at the left of `n` columns.
pub open spec fn left_aligned(s: Seq<char>, n: nat) -> Seq<char> {
    s + repeated(' ', missing(s, n))
}

/// A text at the right of `n` columns.
pub open spec fn right_aligned(s: Seq<char>, n: nat) -> Seq<char> {
    repeated(' ', missing(s, n)) + s
}

fn append_left(out: &mut String, s: &str, n: usize)
    ensures
        final(out)@ == old(out)@ + left_aligned(s@, n as nat),
{
    let ghost start = out@;
    let len: usize = chars_of(s).len();
    out.append(s);
    append_repeated(
        out,
        ' ',
        if len <= n {
            n - len
        } else {
            0
        },
    );
    assert(out@ =~= start + left_aligned(s@, n as nat));
}

fn append_right(out: &mut String, s: &str, n: usize)
    ensures
        final(out)@ == old(out)@ + right_aligned(s@, n as nat),
{
    let ghost start = out@;
    let len: usize = chars_of(s).len();
    append_repeated(
        out,
        ' ',
        if len <= n {
            n - len
        } else {
            0
        },
    );
    out.append(s);
    assert(out@ =~= start + right_aligned(s@, n as nat));
}

/// What each part takes of the context, in percent.
#[derive(Debug)]
pub struct Shares {
    pub system_prompt: String,
    pub tool_schemas: String,
    pub project_context: String,
    pub conversation: String,
    pub tool_results: String,
    pub pinned_context: String,
}

/// The line on one part of the context.
pub open spec fn part_line(label: Seq<char>, tokens: u32, share: Seq<char>) -> Seq<char> {
    "  "@ + left_aligned(label, 18) + " "@ + right_aligned(decimal(tokens as nat), 8) + " ("@
        + right_aligned(share, 5) + "%)\n"@
}

fn append_part(out: &mut String, label: &str, tokens: u32, share: &str)
    ensures
        final(out)@ == old(out)@ + part_line(label@, tokens, share@),
{
    let ghost start = out@;
    let number = decimal_text(tokens as u64);
    out.append("  ");
    append_left(out, label, 18);
    out.append(" ");
    append_right(out, number.as_str(), 8);
    out.append(" (");
    append_right(out, share, 5);
    out.append("%)\n");
    assert(out@ =~= start + part_line(label@, tokens, share@));
}

/// How many tokens are free.
pub open spec fn free_tokens(b: ContextBreakdown) -> nat {
    if b.total_tokens <= b.context_limit {
        (b.context_limit - b.total_tokens) as nat
    } else {
        0
    }
}

/// The picture of a context, with a bar of 50 characters of which `filled` are
/// full.
pub open spec fn picture(
    b: ContextBreakdown,
    percent: Seq<char>,
    filled: nat,
    shares: Shares,
) -> Seq<char> {
    let color = b.zone.color();
    let reset = "\x1b[0m"@;
    let empty = if filled <= 50 {
        (50 - filled) as nat
    } else {
        0
    };
    "Context: "@ + color + "["@ + b.zone.label_text() + "]"@ + reset + " "@ + percent + "% ("@
        + decimal(b.total_tokens as nat) + " / "@ + decimal(b.context_limit as nat)
        + " tokens)\n  "@ + color + "["@ + repeated('█', filled) + repeated('░', empty) + "]"@
        + reset + "\n"@ + part_line(
        "System prompt"@,
        b.system_prompt_tokens,
        shares.system_prompt@,
    ) + part_line("Tool schemas"@, b.tool_schemas_tokens, shares.tool_schemas@) + part_line(
        "Project context"@,
        b.project_context_tokens,
        shares.project_context@,
    ) + part_line("Conversation"@, b.conversation_tokens, shares.conversation@) + part_line(
        "Tool results"@,
        b.tool_results_tokens,
        shares.tool_results@,
    ) + part_line("Pinned context"@, b.pinned_context_tokens, shares.pinned_context@) + "  "@
        + left_aligned("Remaining"@, 18) + " "@ + right_aligned(decimal(free_tokens(b)), 8)
        + "\n\n"@ + color + b.zone.advice() + reset + "\n"@
}

/// The line on one part of the context, without its share.
pub open spec fn plain_line(label: Seq<char>, tokens: u32) -> Seq<char> {
    "  "@ + label + ": "@ + decimal(tokens as nat) + "\n"@
}

fn append_plain(out: &mut String, label: &str, tokens: u32)
    ensures
        final(out)@ == old(out)@ + plain_line(label@, tokens),
{
    let ghost start = out@;
    let number = decimal_text(tokens as u64);
    out.append("  ");
    out.append(label);
    out.append(": ");
    out.append(number.as_str());
    out.append("\n");
    assert(out@ =~= start + plain_line(label@, tokens));
}

/// The parts of a context in plain text.
pub open spec fn plain_breakdown(b: ContextBreakdown, percent: Seq<char>) -> Seq<char> {
    "Context Breakdown — "@ + b.zone.label_text() + " zone ("@ + percent + "%)\nTotal: "@
        + decimal(b.total_tokens as nat) + " / "@ + decimal(b.context_limit as nat) + "\n\n"@
        + plain_line("System prompt"@, b.system_prompt_tokens) + plain_line(
        "Tool schemas"@,
        b.tool_schemas_tokens,
    ) + plain_line("Project context"@, b.project_context_tokens) + plain_line(
        "Conversation"@,
        b.conversation_tokens,
    ) + plain_line("Tool results"@, b.tool_results_tokens) + plain_line(
        "Pinned context"@,
        b.pinned_context_tokens,
    ) + "\nRemaining: "@ + decimal(free_tokens(b)) + "\n"@
}

impl ContextManager {
    /// The picture of a context. `percent` is how full it is, and `filled` how
    /// many of the 50 characters of its bar are full.
    pub fn format_visualization(
        &self,
        breakdown: &ContextBreakdown,
        percent: &str,
        filled: usize,
        shares: &Shares,
    ) -> (r: String)
        ensures
            r@ == picture(*breakdown, percent@, filled as nat, *shares),
    {
        let b = breakdown;
        let color = b.zone.ansi_color();
        let reset = "\x1b[0m";
        let total = decimal_text(b.total_tokens as u64);
        let limit = decimal_text(b.context_limit as u64);
        let free = decimal_text(b.remaining_tokens() as u64);
        let mut out = "Context: ".to_owned();
        out.append(color);
        out.append("[");
        out.append(b.zone.label());
        out.append("]");
        out.append(reset);
        out.append(" ");
        out.append(percent);
        out.append("% (");
        out.append(total.as_str());
        out.append(" / ");
        out.append(limit.as_str());
        out.append(" tokens)\n  ");
        out.append(color);
        out.append("[");
        append_repeated(&mut out, '█', filled);
        append_repeated(
            &mut out,
            '░',
            if filled <= 50 {
                50 - filled
            } else {
                0
            },
        );
        out.append("]");
        out.append(reset);
        out.append("\n");
        append_part(
            &mut out,
            "System prompt",
            b.system_prompt_tokens,
            shares.system_prompt.as_str(),
        );
        append_part(
            &mut out,
            "Tool schemas",
            b.tool_schemas_tokens,
            shares.tool_schemas.as_str(),
        );
        append_part(
            &mut out,
            "Project context",
            b.project_context_tokens,
            shares.project_context.as_str(),
        );
        append_part(
            &mut out,
            "Conversation",
            b.conversation_tokens,
            shares.conversation.as_str(),
        );
        append_part(
            &mut out,
            "Tool results",
            b.tool_results_tokens,
            shares.tool_results.as_str(),
        );
        append_part(
            &mut out,
            "Pinned context",
            b.pinned_context_tokens,
            shares.pinned_context.as_str(),
        );
        out.append("  ");
        append_left(&mut out, "Remaining", 18);
        out.append(" ");
        append_right(&mut out, free.as_str(), 8);
        out.append("\n\n");
        out.append(color);
        out.append(b.zone.recommendation());
        out.append(reset);
        out.append("\n");
        out
    }

    /// The parts of a context in plain text. `percent` is how full it is.
    pub fn format_breakdown_plain(&self, breakdown: &ContextBreakdown, percent: &str) -> (r: String)
        ensures
            r@ == plain_breakdown(*breakdown, percent@),
    {
        let b = breakdown;
        let total = decimal_text(b.total_tokens as u64);
        let limit = decimal_text(b.context_limit as u64);
        let free = decimal_text(b.remaining_tokens() as u64);
        let mut out = "Context Breakdown — ".to_owned();
        out.append(b.zone.label());
        out.append(" zone (");
        out.append(percent);
        out.append("%)\nTotal: ");
        out.append(total.as_str());
        out.append(" / ");
        out.append(limit.as_str());
        out.append("\n\n");
        append_plain(&mut out, "System prompt", b.system_prompt_tokens);
        append_plain(&mut out, "Tool schemas", b.tool_schemas_tokens);
        append_plain(&mut out, "Project context", b.project_context_tokens);
        append_plain(&mut out, "Conversation", b.conversation_tokens);
        append_plain(&mut out, "Tool results", b.tool_results_tokens);
        append_plain(&mut out, "Pinned context", b.pinned_context_tokens);
        out.append("\nRemaining: ");
        out.append(free.as_str());
        out.append("\n");
        out
    }
}

// ── Laws ───────────────────────────────────────────────────────────────────
/// A text in a column stands at its side with blanks beside it, and a longer one as it is.
pub proof fn law_columns_are_filled_with_blanks(s: Seq<char>, n: nat)
    ensures
        s.len() <= n ==> left_aligned(s, n).len() == n && right_aligned(s, n).len() == n,
        s.len() >= n ==> left_aligned(s, n) == s && right_aligned(s, n) == s,
        left_aligned(s, n).take(s.len() as int) == s,
        right_aligned(s, n).skip(right_aligned(s, n).len() - s.len()) == s,
        forall|i: int|
            s.len() <= i < left_aligned(s, n).len() ==> #[trigger] left_aligned(s, n)[i] == ' ',
        forall|i: int|
            0 <= i < right_aligned(s, n).len() - s.len() ==> #[trigger] right_aligned(s, n)[i]
                == ' ',
{
    assert(left_aligned(s, n).take(s.len() as int) =~= s);
    assert(right_aligned(s, n).skip(right_aligned(s, n).len() - s.len()) =~= s);
}

/// What is free and what is used make up the context, and a full one has nothing free.
pub proof fn law_free_and_used_make_the_limit(b: ContextBreakdown)
    ensures
        b.total_tokens <= b.context_limit ==> free_tokens(b) + b.total_tokens == b.context_limit,
        b.total_tokens >= b.context_limit ==> free_tokens(b) == 0,
{
}

} // verus!

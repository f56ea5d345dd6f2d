//! Brackets, quotes and comments that do not close.

use crate::numeral::{decimal, decimal_text};
use crate::text::{chars_of, is_one_of, same_text, str_views};
use vstd::prelude::*;
use vstd::string::*;

verus! {

/// How bad an error is.
#[derive(Debug, Clone, Copy, PartialEq, Eq, Structural)]
pub enum ParseErrorSeverity {
    Error,
    Warning,
}

/// Something that does not close, or closes nothing.
#[derive(Debug, Clone, PartialEq, Eq)]
pub struct ParseError {
    pub line: usize,
    pub message: String,
    pub severity: ParseErrorSeverity,
}

/// Something that does not close, or closes nothing.
pub struct ParseErrorModel {
    pub line: nat,
    pub message: Seq<char>,
    pub severity: ParseErrorSeverity,
}

impl View for ParseError {
    type V = ParseErrorModel;

    open spec fn view(&self) -> ParseErrorModel {
        ParseErrorModel {
            line: self.line as nat,
            message: self.message@,
            severity: self.severity,
        }
    }
}

/// The errors.
pub open spec fn error_models(v: Seq<ParseError>) -> Seq<ParseErrorModel> {
    v.map_values(|e: ParseError| e@)
}

/// How a language writes comments.
#[derive(Clone, Copy, PartialEq, Eq, Structural)]
pub struct CommentStyle {
    pub slashes: bool,
    pub hash: bool,
}

/// The languages with comments after `//` and between `/*` and `*/`.
pub open spec fn slash_languages() -> Seq<Seq<char>> {
    seq!["rust"@, "typescript"@, "javascript"@, "go"@, "java"@]
}

/// How a language writes comments.
pub open spec fn style_of(language: Seq<char>) -> CommentStyle {
    CommentStyle {
        slashes: slash_languages().contains(language),
        hash: language == "python"@,
    }
}

/// What a place in a text is within.
#[derive(Clone, Copy, PartialEq, Eq, Structural)]
pub enum Within {
    Code,
    LineComment,
    BlockComment,
    /// A text that ends at a quote. What follows a backslash does not end it.
    Quotes { quote: char, escaped: bool },
}

/// An opening bracket, and its line.
pub struct Bracket {
    pub open: char,
    pub line: nat,
}

/// What has been read of a text.
pub struct ScanModel {
    pub line: nat,
    pub within: Within,
    pub open: Seq<Bracket>,
    pub errors: Seq<ParseErrorModel>,
}

/// The bracket that closes another one.
pub open spec fn closing(open: char) -> char {
    if open == '(' {
        ')'
    } else if open == '[' {
        ']'
    } else if open == '{' {
        '}'
    } else {
        open
    }
}

/// The bracket that closes another one.
pub fn delimiter_pair(open: char) -> (r: char)
    ensures
        r == closing(open),
{
    if open == '(' {
        ')'
    } else if open == '[' {
        ']'
    } else if open == '{' {
        '}'
    } else {
        open
    }
}

/// A bracket closes another one than was opened last.
pub open spec fn mismatch(line: nat, b: Bracket) -> ParseErrorModel {
    ParseErrorModel {
        line,
        message: "mismatched delimiter: expected '"@ + seq![closing(b.open)] + "' to close '"@
            + seq![b.open] + "' from line "@ + decimal(b.line),
        severity: ParseErrorSeverity::Error,
    }
}

/// A bracket closes nothing.
pub open spec fn unexpected(line: nat, c: char) -> ParseErrorModel {
    ParseErrorModel {
        line,
        message: "unexpected closing delimiter '"@ + seq![c] + "'"@,
        severity: ParseErrorSeverity::Error,
    }
}

/// A quote does not close.
pub open spec fn unterminated_text(line: nat, quote: char) -> ParseErrorModel {
    ParseErrorModel {
        line,
        message: "unterminated string literal starting with '"@ + seq![quote] + "'"@,
        severity: ParseErrorSeverity::Warning,
    }
}

/// A comment does not close.
pub open spec fn unterminated_comment(line: nat) -> ParseErrorModel {
    ParseErrorModel {
        line,
        message: "unterminated block comment"@,
        severity: ParseErrorSeverity::Warning,
    }
}

/// A bracket does not close.
pub open spec fn unclosed(b: Bracket) -> ParseErrorModel {
    ParseErrorModel {
        line: b.line,
        message: "unclosed delimiter '"@ + seq![b.open] + "'"@,
        severity: ParseErrorSeverity::Error,
    }
}

/// A bracket in code.
pub open spec fn with_bracket(m: ScanModel, c: char) -> ScanModel {
    if c == '(' || c == '[' || c == '{' {
        ScanModel { open: m.open.push(Bracket { open: c, line: m.line }), ..m }
    } else if c == ')' || c == ']' || c == '}' {
        if m.open.len() == 0 {
            ScanModel { errors: m.errors.push(unexpected(m.line, c)), ..m }
        } else if closing(m.open.last().open) != c {
            ScanModel {
                open: m.open.drop_last(),
                errors: m.errors.push(mismatch(m.line, m.open.last())),
                ..m
            }
        } else {
            ScanModel { open: m.open.drop_last(), ..m }
        }
    } else {
        m
    }
}

/// The next character is `c`.
pub open spec fn next_is(s: Seq<char>, i: int, c: char) -> bool {
    i + 1 < s.len() && s[i + 1] == c
}

/// One step at `i`: what has been read then, and how many characters it took.
pub open spec fn step(s: Seq<char>, style: CommentStyle, i: int, m: ScanModel) -> (ScanModel, int) {
    let c = s[i];
    if c == '\n' {
        (
            ScanModel {
                line: m.line + 1,
                within: match m.within {
                    Within::LineComment => Within::Code,
                    Within::Quotes { quote, .. } => Within::Quotes { quote, escaped: false },
                    other => other,
                },
                ..m
            },
            1,
        )
    } else {
        match m.within {
            Within::LineComment => (m, 1),
            Within::BlockComment => if c == '*' && next_is(s, i, '/') {
                (ScanModel { within: Within::Code, ..m }, 2)
            } else {
                (m, 1)
            },
            Within::Quotes { quote, escaped } => if escaped {
                (ScanModel { within: Within::Quotes { quote, escaped: false }, ..m }, 1)
            } else if c == '\\' {
                (ScanModel { within: Within::Quotes { quote, escaped: true }, ..m }, 1)
            } else if c == quote {
                (ScanModel { within: Within::Code, ..m }, 1)
            } else {
                (m, 1)
            },
            Within::Code => if style.slashes && c == '/' && next_is(s, i, '/') {
                (ScanModel { within: Within::LineComment, ..m }, 2)
            } else if style.slashes && c == '/' && next_is(s, i, '*') {
                (ScanModel { within: Within::BlockComment, ..m }, 2)
            } else if style.hash && c == '#' {
                (ScanModel { within: Within::LineComment, ..m }, 1)
            } else if c == '\'' || c == '"' || c == '`' {
                (ScanModel { within: Within::Quotes { quote: c, escaped: false }, ..m }, 1)
            } else {
                (with_bracket(m, c), 1)
            },
        }
    }
}

/// What has been read when the text from `i` on has been read too.
pub open spec fn scanned(s: Seq<char>, style: CommentStyle, i: int, m: ScanModel) -> ScanModel
    decreases s.len() - i,
{
    if i < 0 || i >= s.len() {
        m
    } else {
        let (n, k) = step(s, style, i, m);
        if k == 2 {
            scanned(s, style, i + 2, n)
        } else {
            scanned(s, style, i + 1, n)
        }
    }
}

/// Nothing has been read.
pub open spec fn scan_start() -> ScanModel {
    ScanModel { line: 1, within: Within::Code, open: Seq::empty(), errors: Seq::empty() }
}

/// What is still open at the end of a text.
pub open spec fn left_open(m: ScanModel) -> Seq<ParseErrorModel> {
    let first = match m.within {
        Within::Quotes { quote, .. } => seq![unterminated_text(m.line, quote)],
        Within::BlockComment => seq![unterminated_comment(m.line)],
        _ => Seq::empty(),
    };
    first + m.open.map_values(|b: Bracket| unclosed(b))
}

/// The errors of a text: those found on the way, and then what is still open.
pub open spec fn parse_errors(s: Seq<char>, language: Seq<char>) -> Seq<ParseErrorModel> {
    let m = scanned(s, style_of(language), 0, scan_start());
    m.errors + left_open(m)
}

// ── Laws ───────────────────────────────────────────────────────────────────
/// How many lines end before `i`.
pub open spec fn line_ends(s: Seq<char>, i: int) -> nat
    decreases i,
{
    if i <= 0 {
        0
    } else {
        line_ends(s, i - 1) + (if s[i - 1] == '\n' {
            1nat
        } else {
            0nat
        })
    }
}

/// What has been read up to line `line` speaks of lines up to it.
pub open spec fn lines_known(m: ScanModel) -> bool {
    &&& m.line >= 1
    &&& forall|j: int| 0 <= j < m.open.len() ==> 1 <= (#[trigger] m.open[j]).line <= m.line
    &&& forall|j: int| 0 <= j < m.errors.len() ==> 1 <= (#[trigger] m.errors[j]).line <= m.line
}

proof fn lemma_scanned_lines(s: Seq<char>, style: CommentStyle, i: int, m: ScanModel)
    requires
        0 <= i <= s.len(),
        m.line == 1 + line_ends(s, i),
        lines_known(m),
    ensures
        scanned(s, style, i, m).line == 1 + line_ends(s, s.len() as int),
        lines_known(scanned(s, style, i, m)),
    decreases s.len() - i,
{
    if i < s.len() {
        let (n, k) = step(s, style, i, m);
        assert(line_ends(s, i + 1) == line_ends(s, i) + (if s[i] == '\n' {
            1nat
        } else {
            0nat
        }));
        if k == 2 {
            assert(s[i + 1] != '\n');
            assert(line_ends(s, i + 2) == line_ends(s, i + 1));
            lemma_scanned_lines(s, style, i + 2, n);
        } else {
            lemma_scanned_lines(s, style, i + 1, n);
        }
    }
}

/// Every error names a line of the text.
pub proof fn law_errors_name_lines(s: Seq<char>, language: Seq<char>)
    ensures
        forall|j: int|
            0 <= j < parse_errors(s, language).len() ==> 1 <= (#[trigger] parse_errors(
                s,
                language,
            )[j]).line <= 1 + line_ends(s, s.len() as int),
{
    let m = scanned(s, style_of(language), 0, scan_start());
    lemma_scanned_lines(s, style_of(language), 0, scan_start());
    let all = parse_errors(s, language);
    let tail = left_open(m);
    assert forall|j: int| 0 <= j < all.len() implies 1 <= (#[trigger] all[j]).line <= 1 + line_ends(
        s,
        s.len() as int,
    ) by {
        if j < m.errors.len() {
            assert(all[j] == m.errors[j]);
        } else {
            let t = j - m.errors.len();
            assert(all[j] == tail[t]);
            let shift = tail.len() - m.open.len();
            if t >= shift {
                assert(tail[t] == unclosed(m.open[t - shift]));
            }
        }
    }
}

/// The character stands for nothing but itself in any language.
pub open spec fn is_plain(c: char) -> bool {
    c != '(' && c != '[' && c != '{' && c != ')' && c != ']' && c != '}' && c != '\'' && c != '"'
        && c != '`' && c != '/' && c != '#'
}

/// A text without brackets, quotes and comments has no errors.
pub proof fn law_plain_text_has_no_errors(s: Seq<char>, language: Seq<char>)
    requires
        forall|i: int| 0 <= i < s.len() ==> is_plain(#[trigger] s[i]),
    ensures
        parse_errors(s, language).len() == 0,
{
    lemma_plain(s, style_of(language), 0, scan_start());
}

proof fn lemma_plain(s: Seq<char>, style: CommentStyle, i: int, m: ScanModel)
    requires
        0 <= i <= s.len(),
        forall|i: int| 0 <= i < s.len() ==> is_plain(#[trigger] s[i]),
        m.within == Within::Code,
        m.open.len() == 0,
        m.errors.len() == 0,
    ensures
        scanned(s, style, i, m).within == Within::Code,
        scanned(s, style, i, m).open.len() == 0,
        scanned(s, style, i, m).errors.len() == 0,
    decreases s.len() - i,
{
    if i < s.len() {
        assert(is_plain(s[i]));
        let (n, k) = step(s, style, i, m);
        lemma_plain(s, style, i + 1, n);
    }
}

// ── Scanning ───────────────────────────────────────────────────────────────
/// An opening bracket, and its line.
struct OpenBracket {
    open: char,
    line: usize,
}

impl OpenBracket {
    spec fn model(self) -> Bracket {
        Bracket { open: self.open, line: self.line as nat }
    }
}

/// The opening brackets.
spec fn brackets(v: Seq<OpenBracket>) -> Seq<Bracket> {
    v.map_values(|b: OpenBracket| b.model())
}

fn quoted(head: &str, c: char, tail: &str) -> (r: String)
    ensures
        r@ == head@ + seq![c] + tail@,
{
    let mut out = head.to_owned();
    out.push(c);
    assert(out@ =~= head@ + seq![c]);
    out.append(tail);
    out
}

fn push_error(errors: &mut Vec<ParseError>, line: usize, message: String, severity: ParseErrorSeverity)
    ensures
        error_models(final(errors)@) == error_models(old(errors)@).push(
            ParseErrorModel { line: line as nat, message: message@, severity },
        ),
{
    let ghost before = error_models(errors@);
    let e = ParseError { line, message, severity };
    let ghost m = e@;
    errors.push(e);
    assert(error_models(errors@) =~= before.push(m));
}

fn mismatch_message(open: char, line: usize) -> (r: String)
    ensures
        r@ == mismatch(0, Bracket { open, line: line as nat }).message,
{
    let mut out = quoted("mismatched delimiter: expected '", delimiter_pair(open), "' to close '");
    out.push(open);
    let ghost before = out@;
    out.append("' from line ");
    let n = decimal_text(line as u64);
    out.append(n.as_str());
    assert(before =~= "mismatched delimiter: expected '"@ + seq![closing(open)]
        + "' to close '"@ + seq![open]);
    out
}

/// The brackets, quotes and comments of a text that do not close.
pub fn detect_delimiter_errors(content: &str, language: &str) -> (r: Vec<ParseError>)
    requires
        content@.len() < usize::MAX,
    ensures
        error_models(r@) == parse_errors(content@, language@),
{
    let chars = chars_of(content);
    let ghost s = content@;
    let known: [&str; 5] = ["rust", "typescript", "javascript", "go", "java"];
    assert(str_views(known@) =~= slash_languages());
    let slashes = is_one_of(language, known.as_slice());
    let hash = same_text(language, "python");
    let ghost style = style_of(language@);
    let mut errors: Vec<ParseError> = Vec::new();
    let mut stack: Vec<OpenBracket> = Vec::new();
    let mut line: usize = 1;
    let mut within = Within::Code;
    let mut i: usize = 0;
    let ghost goal = scanned(s, style, 0, scan_start());
    let len: usize = chars.len();
    proof {
        assert(error_models(errors@) =~= Seq::empty());
        assert(brackets(stack@) =~= Seq::empty());
    }
    while i < len
        invariant
            i <= len == s.len() < usize::MAX,
            chars@ == s,
            style == (CommentStyle { slashes, hash }),
            1 <= line <= i + 1,
            goal == scanned(
                s,
                style,
                i as int,
                ScanModel {
                    line: line as nat,
                    within,
                    open: brackets(stack@),
                    errors: error_models(errors@),
                },
            ),
        decreases len - i,
    {
        let c = chars[i];
        let ghost before = ScanModel {
            line: line as nat,
            within,
            open: brackets(stack@),
            errors: error_models(errors@),
        };
        let ghost at = i as int;
        let next_slash = i + 1 < len && chars[i + 1] == '/';
        let next_star = i + 1 < len && chars[i + 1] == '*';
        let mut width: usize = 1;
        if c == '\n' {
            line += 1;
            within = match within {
                Within::LineComment => Within::Code,
                Within::Quotes { quote, .. } => Within::Quotes { quote, escaped: false },
                other => other,
            };
        } else {
            match within {
                Within::LineComment => {},
                Within::BlockComment => {
                    if c == '*' && next_slash {
                        within = Within::Code;
                        width = 2;
                    }
                },
                Within::Quotes { quote, escaped } => {
                    if escaped {
                        within = Within::Quotes { quote, escaped: false };
                    } else if c == '\\' {
                        within = Within::Quotes { quote, escaped: true };
                    } else if c == quote {
                        within = Within::Code;
                    }
                },
                Within::Code => {
                    if slashes && c == '/' && next_slash {
                        within = Within::LineComment;
                        width = 2;
                    } else if slashes && c == '/' && next_star {
                        within = Within::BlockComment;
                        width = 2;
                    } else if hash && c == '#' {
                        within = Within::LineComment;
                    } else if c == '\'' || c == '"' || c == '`' {
                        within = Within::Quotes { quote: c, escaped: false };
                    } else if c == '(' || c == '[' || c == '{' {
                        stack.push(OpenBracket { open: c, line });
                        assert(brackets(stack@) =~= before.open.push(
                            Bracket { open: c, line: line as nat },
                        ));
                    } else if c == ')' || c == ']' || c == '}' {
                        match stack.pop() {
                            Some(b) => {
                                proof {
                                    assert(before.open.last() == b.model());
                                    assert(brackets(stack@) =~= before.open.drop_last());
                                }
                                if delimiter_pair(b.open) != c {
                                    let message = mismatch_message(b.open, b.line);
                                    push_error(
                                        &mut errors,
                                        line,
                                        message,
                                        ParseErrorSeverity::Error,
                                    );
                                }
                            },
                            None => {
                                let message = quoted("unexpected closing delimiter '", c, "'");
                                push_error(
                                    &mut errors,
                                    line,
                                    message,
                                    ParseErrorSeverity::Error,
                                );
                            },
                        }
                    }
                },
            }
        }
        proof {
            let (n, k) = step(s, style, at, before);
            assert(n.open =~= brackets(stack@));
            assert(n == (ScanModel {
                line: line as nat,
                within,
                open: brackets(stack@),
                errors: error_models(errors@),
            }));
            assert(k == width);
        }
        i += width;
    }
    let ghost found = error_models(errors@);
    let ghost pending = brackets(stack@);
    match within {
        Within::Quotes { quote, .. } => {
            let message = quoted("unterminated string literal starting with '", quote, "'");
            push_error(&mut errors, line, message, ParseErrorSeverity::Warning);
        },
        Within::BlockComment => {
            push_error(
                &mut errors,
                line,
                "unterminated block comment".to_owned(),
                ParseErrorSeverity::Warning,
            );
        },
        _ => {},
    }
    let ghost first = error_models(errors@);
    let ghost rest = pending.map_values(|b: Bracket| unclosed(b));
    let mut n: usize = 0;
    assert(first + rest.take(0) =~= first);
    while n < stack.len()
        invariant
            n <= stack@.len(),
            pending == brackets(stack@),
            pending.len() == stack@.len(),
            rest == pending.map_values(|b: Bracket| unclosed(b)),
            error_models(errors@) == first + rest.take(n as int),
        decreases stack@.len() - n,
    {
        let message = quoted("unclosed delimiter '", stack[n].open, "'");
        push_error(&mut errors, stack[n].line, message, ParseErrorSeverity::Error);
        proof {
            assert(rest[n as int] == unclosed(pending[n as int]));
            assert((first + rest.take(n as int)).push(rest[n as int]) =~= first + rest.take(n + 1));
        }
        n += 1;
    }
    proof {
        assert(rest.take(n as int) =~= rest);
        assert(first + rest =~= found + left_open(goal));
    }
    errors
}

/// How many line feeds a text holds.
pub open spec fn feeds(s: Seq<char>) -> nat {
    s.filter(|c: char| c == '\n').len()
}

proof fn lemma_feeds_push(s: Seq<char>, c: char)
    ensures
        feeds(s.push(c)) == feeds(s) + (if c == '\n' {
            1nat
        } else {
            0nat
        }),
{
    reveal(Seq::filter);
    assert(s.push(c).drop_last() =~= s);
}

/// A stretch that stands for nothing but itself is read without more than its line feeds
/// being counted.
proof fn lemma_plain_stretch(s: Seq<char>, style: CommentStyle, i: int, j: int, m: ScanModel)
    requires
        0 <= i <= j <= s.len(),
        forall|k: int| i <= k < j ==> is_plain(#[trigger] s[k]),
        m.within == Within::Code,
    ensures
        scanned(s, style, i, m) == scanned(
            s,
            style,
            j,
            ScanModel { line: m.line + feeds(s.subrange(i, j)), ..m },
        ),
    decreases j - i,
{
    reveal(Seq::filter);
    if i == j {
        assert(s.subrange(i, j) =~= Seq::<char>::empty());
        assert(ScanModel { line: m.line + feeds(s.subrange(i, j)), ..m } == m);
    } else {
        lemma_plain_stretch(s, style, i, j - 1, m);
        let n = ScanModel { line: m.line + feeds(s.subrange(i, j - 1)), ..m };
        lemma_feeds_push(s.subrange(i, j - 1), s[j - 1]);
        assert(s.subrange(i, j - 1).push(s[j - 1]) =~= s.subrange(i, j));
        assert(is_plain(s[j - 1]));
    }
}

/// A bracket that is closed by its own is no error; one that is not closed is told with the
/// line that opens it, one that closes nothing with its own line, and one that is closed by
/// another is told as that.
pub proof fn law_brackets_come_in_pairs(
    before: Seq<char>,
    within: Seq<char>,
    after: Seq<char>,
    open: char,
    close: char,
    language: Seq<char>,
)
    requires
        forall|i: int| 0 <= i < before.len() ==> is_plain(#[trigger] before[i]),
        forall|i: int| 0 <= i < within.len() ==> is_plain(#[trigger] within[i]),
        forall|i: int| 0 <= i < after.len() ==> is_plain(#[trigger] after[i]),
        open == '(' || open == '[' || open == '{',
        close == ')' || close == ']' || close == '}',
    ensures
        ({
            let at = 1 + feeds(before);
            let all = parse_errors(
                before + seq![open] + within + seq![close] + after,
                language,
            );
            let own = (open == '(' && close == ')') || (open == '[' && close == ']') || (open
                == '{' && close == '}');
            &&& own ==> all.len() == 0
            &&& !own ==> all.len() == 1 && all[0].line == at + feeds(within)
                && all[0].severity is Error && all[0].message
                == "mismatched delimiter: expected '"@ + seq![
                if open == '(' {
                    ')'
                } else if open == '[' {
                    ']'
                } else {
                    '}'
                }
            ] + "' to close '"@ + seq![open] + "' from line "@ + decimal(at)
        }),
        ({
            let all = parse_errors(before + seq![open] + after, language);
            &&& all.len() == 1
            &&& all[0].line == 1 + feeds(before)
            &&& all[0].severity is Error
            &&& all[0].message == "unclosed delimiter '"@ + seq![open] + "'"@
        }),
        ({
            let all = parse_errors(before + seq![close] + after, language);
            &&& all.len() == 1
            &&& all[0].line == 1 + feeds(before)
            &&& all[0].severity is Error
            &&& all[0].message == "unexpected closing delimiter '"@ + seq![close] + "'"@
        }),
{
    let style = style_of(language);
    let start = scan_start();
    let p = before.len() as int;
    let line = (1 + feeds(before)) as nat;
    // One bracket.
    assert forall|c: char|
        c == open || c == close implies #[trigger] scanned(
        before + seq![c] + after,
        style,
        0,
        start,
    ) == ({
        let m = with_bracket(ScanModel { line, ..start }, c);
        ScanModel { line: m.line + feeds(after), ..m }
    }) by {
        let s = before + seq![c] + after;
        lemma_plain_stretch(s, style, 0, p, start);
        assert(s.subrange(0, p) =~= before);
        let m = with_bracket(ScanModel { line, ..start }, c);
        assert(s[p] == c);
        lemma_plain_stretch(s, style, p + 1, s.len() as int, m);
        assert(s.subrange(p + 1, s.len() as int) =~= after);
    }
    let one = scanned(before + seq![open] + after, style, 0, start);
    assert(one.open =~= seq![Bracket { open, line }]);
    assert(left_open(one) =~= seq![unclosed(Bracket { open, line })]);
    assert(parse_errors(before + seq![open] + after, language) =~= seq![
        unclosed(Bracket { open, line }),
    ]);
    let other = scanned(before + seq![close] + after, style, 0, start);
    assert(left_open(other) =~= Seq::<ParseErrorModel>::empty());
    assert(parse_errors(before + seq![close] + after, language) =~= seq![unexpected(line, close)]);
    // Two.
    let s = before + seq![open] + within + seq![close] + after;
    let q = p + 1 + within.len();
    lemma_plain_stretch(s, style, 0, p, start);
    assert(s.subrange(0, p) =~= before);
    let m = with_bracket(ScanModel { line, ..start }, open);
    assert(s[p] == open);
    lemma_plain_stretch(s, style, p + 1, q, m);
    assert(s.subrange(p + 1, q) =~= within);
    let inner = ScanModel { line: m.line + feeds(within), ..m };
    let n = with_bracket(inner, close);
    assert(s[q] == close);
    lemma_plain_stretch(s, style, q + 1, s.len() as int, n);
    assert(m.open =~= seq![Bracket { open, line }]);
    assert(n.open =~= Seq::<Bracket>::empty());
    let last = scanned(s, style, 0, start);
    assert(left_open(last) =~= Seq::<ParseErrorModel>::empty());
}

/// What stands in quotes is no code: whatever brackets it holds, it is no error, and quotes
/// that do not close are a warning.
pub proof fn law_quoted_brackets_do_not_count(
    before: Seq<char>,
    quoted: Seq<char>,
    after: Seq<char>,
    quote: char,
    language: Seq<char>,
)
    requires
        forall|i: int| 0 <= i < before.len() ==> is_plain(#[trigger] before[i]),
        forall|i: int|
            0 <= i < quoted.len() ==> #[trigger] quoted[i] != quote && quoted[i] != '\\'
                && quoted[i] != '\n',
        forall|i: int| 0 <= i < after.len() ==> is_plain(#[trigger] after[i]),
        quote == '"' || quote == '\'' || quote == '`',
    ensures
        parse_errors(before + seq![quote] + quoted + seq![quote] + after, language).len() == 0,
        ({
            let all = parse_errors(before + seq![quote] + quoted, language);
            &&& all.len() == 1
            &&& all[0].severity is Warning
            &&& all[0].line == 1 + feeds(before)
        }),
{
    let style = style_of(language);
    let start = scan_start();
    let p = before.len() as int;
    let q = p + 1 + quoted.len();
    let line = (1 + feeds(before)) as nat;
    let m = ScanModel { line, within: Within::Quotes { quote, escaped: false }, ..start };
    let s = before + seq![quote] + quoted + seq![quote] + after;
    lemma_plain_stretch(s, style, 0, p, start);
    assert(s.subrange(0, p) =~= before);
    assert(s[p] == quote);
    assert forall|k: int| p + 1 <= k < q implies #[trigger] s[k] != quote && s[k] != '\\' && s[k]
        != '\n' by {
        assert(s[k] == quoted[k - p - 1]);
    }
    lemma_quoted_stretch(s, style, p + 1, q, m);
    assert(s[q] == quote);
    let n = ScanModel { within: Within::Code, ..m };
    lemma_plain_stretch(s, style, q + 1, s.len() as int, n);
    assert(left_open(scanned(s, style, 0, start)) =~= Seq::<ParseErrorModel>::empty());
    let t = before + seq![quote] + quoted;
    lemma_plain_stretch(t, style, 0, p, start);
    assert(t.subrange(0, p) =~= before);
    assert(t[p] == quote);
    assert forall|k: int| p + 1 <= k < q implies #[trigger] t[k] != quote && t[k] != '\\' && t[k]
        != '\n' by {
        assert(t[k] == quoted[k - p - 1]);
    }
    lemma_quoted_stretch(t, style, p + 1, q, m);
    assert(scanned(t, style, q, m) == m);
    assert(parse_errors(t, language) =~= seq![unterminated_text(line, quote)]);
}

proof fn lemma_quoted_stretch(s: Seq<char>, style: CommentStyle, i: int, j: int, m: ScanModel)
    requires
        0 <= i <= j <= s.len(),
        m.within is Quotes,
        !m.within->escaped,
        forall|k: int|
            i <= k < j ==> #[trigger] s[k] != m.within->quote && s[k] != '\\' && s[k] != '\n',
    ensures
        scanned(s, style, i, m) == scanned(s, style, j, m),
    decreases j - i,
{
    if i < j {
        assert(s[i] != '\n');
        lemma_quoted_stretch(s, style, i + 1, j, m);
    }
}

/// A comment is no code: whatever follows its sign on the line does not count, in the
/// languages that have the sign.
pub proof fn law_comments_do_not_count(
    before: Seq<char>,
    said: Seq<char>,
    after: Seq<char>,
    language: Seq<char>,
)
    requires
        forall|i: int| 0 <= i < before.len() ==> is_plain(#[trigger] before[i]),
        forall|i: int| 0 <= i < said.len() ==> #[trigger] said[i] != '\n',
        forall|i: int| 0 <= i < after.len() ==> is_plain(#[trigger] after[i]),
    ensures
        language == "rust"@ || language == "typescript"@ || language == "javascript"@ || language
            == "go"@ || language == "java"@ ==> parse_errors(
            before + "//"@ + said + "\n"@ + after,
            language,
        ).len() == 0,
        language == "python"@ ==> parse_errors(
            before + "#"@ + said + "\n"@ + after,
            language,
        ).len() == 0,
{
    reveal_strlit("//");
    reveal_strlit("#");
    reveal_strlit("\n");
    let style = style_of(language);
    let all = slash_languages();
    assert(all[0] == "rust"@ && all[1] == "typescript"@ && all[2] == "javascript"@ && all[3]
        == "go"@ && all[4] == "java"@);
    let start = scan_start();
    let p = before.len() as int;
    let m = ScanModel {
        line: (1 + feeds(before)) as nat,
        within: Within::LineComment,
        ..start
    };
    let n = ScanModel { line: (m.line + 1) as nat, within: Within::Code, ..m };
    if style.slashes {
        let s = before + "//"@ + said + "\n"@ + after;
        let q = p + 2 + said.len();
        lemma_plain_stretch(s, style, 0, p, start);
        assert(s.subrange(0, p) =~= before);
        assert(s[p] == '/' && s[p + 1] == '/');
        assert forall|k: int| p + 2 <= k < q implies #[trigger] s[k] != '\n' by {
            assert(s[k] == said[k - p - 2]);
        }
        lemma_comment_stretch(s, style, p + 2, q, m);
        assert(s[q] == '\n');
        lemma_plain_stretch(s, style, q + 1, s.len() as int, n);
        assert(left_open(scanned(s, style, 0, start)) =~= Seq::<ParseErrorModel>::empty());
    }
    if style.hash {
        reveal_strlit("python");
        reveal_strlit("rust");
        reveal_strlit("typescript");
        reveal_strlit("javascript");
        reveal_strlit("go");
        reveal_strlit("java");
        let s = before + "#"@ + said + "\n"@ + after;
        let q = p + 1 + said.len();
        lemma_plain_stretch(s, style, 0, p, start);
        assert(s.subrange(0, p) =~= before);
        assert(s[p] == '#');
        assert forall|k: int| p + 1 <= k < q implies #[trigger] s[k] != '\n' by {
            assert(s[k] == said[k - p - 1]);
        }
        lemma_comment_stretch(s, style, p + 1, q, m);
        assert(s[q] == '\n');
        lemma_plain_stretch(s, style, q + 1, s.len() as int, n);
        assert(left_open(scanned(s, style, 0, start)) =~= Seq::<ParseErrorModel>::empty());
    }
}

proof fn lemma_comment_stretch(s: Seq<char>, style: CommentStyle, i: int, j: int, m: ScanModel)
    requires
        0 <= i <= j <= s.len(),
        m.within is LineComment,
        forall|k: int| i <= k < j ==> #[trigger] s[k] != '\n',
    ensures
        scanned(s, style, i, m) == scanned(s, style, j, m),
    decreases j - i,
{
    if i < j {
        assert(s[i] != '\n');
        lemma_comment_stretch(s, style, i + 1, j, m);
    }
}

} // verus!

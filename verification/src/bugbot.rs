//! Reviews of code by a model: what it is asked, and what is made of its
//! answer.

use crate::json::{json_value, list_models, lemma_list_models, parse_json, Json, JsonModel};
use crate::numeral::{decimal, decimal_text, law_numerals_read_back};
use crate::split::{lines, lines_of};
use crate::text::{
    chars_of, contains_text, find_char, find_from, find_text_from, index_of_char,
    lemma_contains_part, lemma_find_from, lemma_index_of_char, occurs_at, same_text, starts_with,
    str_starts_with, text_of, trim, trimmed,
};
use vstd::prelude::*;
use vstd::slice::slice_subrange;
use vstd::string::*;

verus! {

// ── Findings ───────────────────────────────────────────────────────────────
/// How bad a finding is.
#[derive(Debug, Clone, Copy, PartialEq, Eq, Structural)]
pub enum FindingSeverity {
    Critical,
    High,
    Medium,
    Low,
    Info,
}

impl FindingSeverity {
    /// The severity in words.
    pub open spec fn words(self) -> Seq<char> {
        match self {
            FindingSeverity::Critical => "CRITICAL"@,
            FindingSeverity::High => "HIGH"@,
            FindingSeverity::Medium => "MEDIUM"@,
            FindingSeverity::Low => "LOW"@,
            FindingSeverity::Info => "INFO"@,
        }
    }

    /// The severity in words.
    pub fn text(&self) -> (r: &'static str)
        ensures
            r@ == self.words(),
    {
        match self {
            FindingSeverity::Critical => "CRITICAL",
            FindingSeverity::High => "HIGH",
            FindingSeverity::Medium => "MEDIUM",
            FindingSeverity::Low => "LOW",
            FindingSeverity::Info => "INFO",
        }
    }

    /// The severity of a name. One that is not known is low.
    pub open spec fn named(name: Seq<char>) -> FindingSeverity {
        if name == "Critical"@ {
            FindingSeverity::Critical
        } else if name == "High"@ {
            FindingSeverity::High
        } else if name == "Medium"@ {
            FindingSeverity::Medium
        } else if name == "Info"@ {
            FindingSeverity::Info
        } else {
            FindingSeverity::Low
        }
    }

    /// The severity of a name. One that is not known is low.
    pub fn from_name(name: &str) -> (r: FindingSeverity)
        ensures
            r == FindingSeverity::named(name@),
    {
        if same_text(name, "Critical") {
            FindingSeverity::Critical
        } else if same_text(name, "High") {
            FindingSeverity::High
        } else if same_text(name, "Medium") {
            FindingSeverity::Medium
        } else if same_text(name, "Info") {
            FindingSeverity::Info
        } else {
            FindingSeverity::Low
        }
    }
}

/// What a finding is about.
#[derive(Debug, Clone, Copy, PartialEq, Eq, Structural)]
pub enum FindingCategory {
    Bug,
    Security,
    Performance,
    Style,
    Logic,
}

impl FindingCategory {
    /// The category in words.
    pub open spec fn words(self) -> Seq<char> {
        match self {
            FindingCategory::Bug => "Bug"@,
            FindingCategory::Security => "Security"@,
            FindingCategory::Performance => "Performance"@,
            FindingCategory::Style => "Style"@,
            FindingCategory::Logic => "Logic"@,
        }
    }

    /// The category in words.
    pub fn text(&self) -> (r: &'static str)
        ensures
            r@ == self.words(),
    {
        match self {
            FindingCategory::Bug => "Bug",
            FindingCategory::Security => "Security",
            FindingCategory::Performance => "Performance",
            FindingCategory::Style => "Style",
            FindingCategory::Logic => "Logic",
        }
    }

    /// The category of a name. One that is not known is a bug.
    pub open spec fn named(name: Seq<char>) -> FindingCategory {
        if name == "Security"@ {
            FindingCategory::Security
        } else if name == "Performance"@ {
            FindingCategory::Performance
        } else if name == "Style"@ {
            FindingCategory::Style
        } else if name == "Logic"@ {
            FindingCategory::Logic
        } else {
            FindingCategory::Bug
        }
    }

    /// The category of a name. One that is not known is a bug.
    pub fn from_name(name: &str) -> (r: FindingCategory)
        ensures
            r == FindingCategory::named(name@),
    {
        if same_text(name, "Security") {
            FindingCategory::Security
        } else if same_text(name, "Performance") {
            FindingCategory::Performance
        } else if same_text(name, "Style") {
            FindingCategory::Style
        } else if same_text(name, "Logic") {
            FindingCategory::Logic
        } else {
            FindingCategory::Bug
        }
    }
}

/// Something that a review found.
#[derive(Debug, Clone)]
pub struct BugBotFinding {
    pub severity: FindingSeverity,
    pub file: String,
    pub line: Option<usize>,
    pub description: String,
    pub suggestion: Option<String>,
    pub category: FindingCategory,
}

/// Something that a review found.
pub struct FindingModel {
    pub severity: FindingSeverity,
    pub file: Seq<char>,
    pub line: Option<nat>,
    pub description: Seq<char>,
    pub suggestion: Option<Seq<char>>,
    pub category: FindingCategory,
}

impl View for BugBotFinding {
    type V = FindingModel;

    open spec fn view(&self) -> FindingModel {
        FindingModel {
            severity: self.severity,
            file: self.file@,
            line: match self.line {
                Some(n) => Some(n as nat),
                None => None,
            },
            description: self.description@,
            suggestion: match self.suggestion {
                Some(s) => Some(s@),
                None => None,
            },
            category: self.category,
        }
    }
}

/// What a review found.
pub open spec fn finding_models(v: Seq<BugBotFinding>) -> Seq<FindingModel> {
    v.map_values(|f: BugBotFinding| f@)
}

/// Where a finding is.
pub open spec fn location(f: FindingModel) -> Seq<char> {
    match f.line {
        Some(n) => f.file + ":"@ + decimal(n),
        None => f.file,
    }
}

/// A finding in words.
pub open spec fn finding_text(f: FindingModel) -> Seq<char> {
    let base = "["@ + f.severity.words() + "]["@ + f.category.words() + "] "@ + location(f)
        + " — "@ + f.description;
    match f.suggestion {
        Some(s) => base + "\n  Suggestion: "@ + s,
        None => base,
    }
}

impl BugBotFinding {
    /// The finding in words.
    pub fn text(&self) -> (r: String)
        ensures
            r@ == finding_text(self@),
    {
        let mut place = self.file.clone();
        if let Some(n) = self.line {
            let number = decimal_text(n as u64);
            place.append(":");
            place.append(number.as_str());
        }
        let mut out = "[".to_owned();
        out.append(self.severity.text());
        out.append("][");
        out.append(self.category.text());
        out.append("] ");
        out.append(place.as_str());
        out.append(" — ");
        out.append(self.description.as_str());
        if let Some(s) = &self.suggestion {
            out.append("\n  Suggestion: ");
            out.append(s.as_str());
        }
        out
    }
}

// ── Reports ────────────────────────────────────────────────────────────────
/// What a review found, in how many files.
#[derive(Debug, Clone)]
pub struct BugBotReport {
    pub findings: Vec<BugBotFinding>,
    pub files_reviewed: usize,
    pub summary: String,
}

/// How many findings are of a severity.
pub open spec fn severity_count(v: Seq<FindingModel>, s: FindingSeverity) -> nat
    decreases v.len(),
{
    if v.len() == 0 {
        0
    } else if v.last().severity == s {
        severity_count(v.drop_last(), s) + 1
    } else {
        severity_count(v.drop_last(), s)
    }
}

/// The lines of the first `n` findings.
pub open spec fn finding_lines(v: Seq<FindingModel>, n: nat) -> Seq<char>
    decreases n,
{
    if n == 0 {
        Seq::empty()
    } else {
        finding_lines(v, (n - 1) as nat) + ("  "@ + finding_text(v[n - 1]) + "\n"@)
    }
}

/// A report in words.
pub open spec fn report_text(files: nat, summary: Seq<char>, v: Seq<FindingModel>) -> Seq<char> {
    let head = "BugBot Report — "@ + decimal(files) + " file(s) reviewed\n"@ + summary + "\n"@;
    if v.len() == 0 {
        head + "✓ No issues found.\n"@
    } else {
        head + "\n"@ + decimal(v.len()) + " finding(s):\n"@ + finding_lines(v, v.len())
    }
}

impl BugBotReport {
    /// Whether nothing was found.
    pub fn is_clean(&self) -> (r: bool)
        ensures
            r == (self.findings@.len() == 0),
    {
        self.findings.len() == 0
    }

    fn count_of(&self, s: FindingSeverity) -> (r: usize)
        ensures
            r == severity_count(finding_models(self.findings@), s),
    {
        let ghost all = finding_models(self.findings@);
        let mut n: usize = 0;
        let mut i: usize = 0;
        assert(all.take(0) =~= Seq::empty());
        while i < self.findings.len()
            invariant
                n <= i <= self.findings@.len(),
                all == finding_models(self.findings@),
                n == severity_count(all.take(i as int), s),
            decreases self.findings@.len() - i,
        {
            proof {
                assert(all.take(i + 1).drop_last() =~= all.take(i as int));
                assert(all.take(i + 1).last() == self.findings@[i as int]@);
            }
            if self.findings[i].severity == s {
                n += 1;
            }
            i += 1;
        }
        assert(all.take(i as int) =~= all);
        n
    }

    /// How many findings are critical.
    pub fn critical_count(&self) -> (r: usize)
        ensures
            r == severity_count(finding_models(self.findings@), FindingSeverity::Critical),
    {
        self.count_of(FindingSeverity::Critical)
    }

    /// How many findings are of high severity.
    pub fn high_count(&self) -> (r: usize)
        ensures
            r == severity_count(finding_models(self.findings@), FindingSeverity::High),
    {
        self.count_of(FindingSeverity::High)
    }

    /// The report in words.
    pub fn text(&self) -> (r: String)
        ensures
            r@ == report_text(
                self.files_reviewed as nat,
                self.summary@,
                finding_models(self.findings@),
            ),
    {
        let ghost all = finding_models(self.findings@);
        let files = decimal_text(self.files_reviewed as u64);
        let mut out = "BugBot Report — ".to_owned();
        out.append(files.as_str());
        out.append(" file(s) reviewed\n");
        out.append(self.summary.as_str());
        out.append("\n");
        if self.findings.len() == 0 {
            out.append("✓ No issues found.\n");
            return out;
        }
        let count = decimal_text(self.findings.len() as u64);
        out.append("\n");
        out.append(count.as_str());
        out.append(" finding(s):\n");
        let ghost start = out@;
        let mut i: usize = 0;
        assert(start + finding_lines(all, 0) =~= start);
        while i < self.findings.len()
            invariant
                i <= self.findings@.len(),
                all == finding_models(self.findings@),
                out@ == start + finding_lines(all, i as nat),
            decreases self.findings@.len() - i,
        {
            let text = self.findings[i].text();
            let mut line = "  ".to_owned();
            line.append(text.as_str());
            line.append("\n");
            out.append(line.as_str());
            proof {
                assert(all[i as int] == self.findings@[i as int]@);
                assert(out@ =~= start + finding_lines(all, (i + 1) as nat));
            }
            i += 1;
        }
        out
    }
}

// ── Requests ───────────────────────────────────────────────────────────────
/// What a model is told before it reviews code.
pub const REVIEW_SYSTEM_PROMPT: &'static str = "You are BugBot, an expert at reviewing code, focused on finding real issues.\n\nYour job is to identify:\n1. **Bugs** — logic errors, off-by-one, null/None handling, panics\n2. **Security** — injection, secrets in code, unsafe input handling, path traversal\n3. **Logic** — incorrect algorithms, race conditions, deadlocks, infinite loops\n4. **Edge cases** — empty inputs, overflow, underflow, out-of-bounds\n\nDO NOT report style preferences, formatting, or cosmetic issues unless they mask bugs.\nFocus on correctness and safety.\n\nRespond with a JSON object like this:\n{\n  \"summary\": \"Brief overview of what was reviewed and key concerns\",\n  \"findings\": [\n    {\n      \"severity\": \"Critical|High|Medium|Low|Info\",\n      \"category\": \"Bug|Security|Performance|Style|Logic\",\n      \"file\": \"path/to/file.rs\",\n      \"line\": 42,\n      \"description\": \"What the issue is\",\n      \"suggestion\": \"How to fix it\"\n    }\n  ]\n}\n\nIf no issues are found, return an empty findings array.\n";

/// What a model is told before it mends code.
pub const FIX_SYSTEM_PROMPT: &'static str =
    "You are a code fix generator. Output only corrected code.";

/// Asks a model for reviews.
#[derive(Debug)]
pub struct BugBot {
    pub model: String,
}

/// What a model is asked.
#[derive(Debug)]
pub struct BotRequest {
    pub model: String,
    pub prompt: String,
    pub system: String,
    pub max_tokens: u32,
}

/// What comes of a review: a report, if there is nothing to review, or else what
/// a model is asked and in how many files.
#[derive(Debug)]
pub enum Review {
    Done(BugBotReport),
    Ask { prompt: String, files_reviewed: usize },
}

/// A report on nothing.
pub open spec fn is_empty_report(r: BugBotReport, summary: Seq<char>) -> bool {
    r.findings@.len() == 0 && r.files_reviewed == 0 && r.summary@ == summary
}

fn empty_report(summary: &str) -> (r: BugBotReport)
    ensures
        is_empty_report(r, summary@),
{
    BugBotReport { findings: Vec::new(), files_reviewed: 0, summary: summary.to_owned() }
}

/// The line names a file of a diff.
pub open spec fn names_file(l: Seq<char>) -> bool {
    starts_with(l, "--- a/"@) || starts_with(l, "+++ b/"@)
}

/// How many of the lines name a file of a diff.
pub open spec fn file_names(ls: Seq<Seq<char>>) -> nat
    decreases ls.len(),
{
    if ls.len() == 0 {
        0
    } else if names_file(ls.last()) {
        file_names(ls.drop_last()) + 1
    } else {
        file_names(ls.drop_last())
    }
}

/// How many files a diff changes: each is named twice.
pub fn count_files_in_diff(diff: &str) -> (r: usize)
    ensures
        r == file_names(lines(diff@)) / 2,
{
    let all = lines_of(diff);
    let ghost ls = lines(diff@);
    let mut n: usize = 0;
    let mut i: usize = 0;
    assert(ls.take(0) =~= Seq::empty());
    while i < all.len()
        invariant
            n <= i <= all@.len() == ls.len(),
            forall|k: int| 0 <= k < ls.len() ==> #[trigger] ls[k] == all@[k]@,
            n == file_names(ls.take(i as int)),
        decreases all@.len() - i,
    {
        proof {
            assert(ls.take(i + 1).drop_last() =~= ls.take(i as int));
            assert(ls.take(i + 1).last() == ls[i as int]);
        }
        if str_starts_with(all[i].as_str(), "--- a/") || str_starts_with(all[i].as_str(), "+++ b/")
        {
            n += 1;
        }
        i += 1;
    }
    assert(ls.take(i as int) =~= ls);
    n / 2
}

/// What is asked on a diff.
pub open spec fn diff_prompt(diff: Seq<char>) -> Seq<char> {
    "Review the following git diff for bugs, security issues, and logic errors:\n\n```diff\n"@
        + diff + "\n```"@
}

/// A file to review: its path, and what it holds or why it cannot be read.
#[derive(Debug)]
pub struct FileText {
    pub path: String,
    pub content: Result<String, String>,
}

/// A file as the model sees it.
pub open spec fn file_section(f: FileText) -> Seq<char> {
    match f.content {
        Ok(c) => "=== "@ + f.path@ + " ===\n"@ + c@ + "\n\n"@,
        Err(e) => "=== "@ + f.path@ + " === [ERROR: "@ + e@ + "]\n\n"@,
    }
}

/// The first `n` files as the model sees them.
pub open spec fn file_sections(files: Seq<FileText>, n: nat) -> Seq<char>
    decreases n,
{
    if n == 0 {
        Seq::empty()
    } else {
        file_sections(files, (n - 1) as nat) + file_section(files[n - 1])
    }
}

/// How many of the first `n` files can be read.
pub open spec fn readable(files: Seq<FileText>, n: nat) -> nat
    decreases n,
{
    if n == 0 {
        0
    } else if files[n - 1].content is Ok {
        readable(files, (n - 1) as nat) + 1
    } else {
        readable(files, (n - 1) as nat)
    }
}

/// What is asked on a finding.
pub open spec fn fix_prompt(f: FindingModel) -> Seq<char> {
    "Generate a minimal code fix for this issue:\n\nFile: "@ + f.file + "\nLine: "@ + (
    match f.line {
        Some(n) => decimal(n),
        None => "unknown"@,
    }) + "\nIssue: "@ + f.description + "\nCategory: "@ + f.category.words() + "\nSeverity: "@
        + f.severity.words()
        + "\n\nProvide ONLY the corrected code snippet, no explanation."@
}

impl BugBot {
    /// Asks a model.
    pub fn new(model: &str) -> (r: BugBot)
        ensures
            r.model@ == model@,
    {
        BugBot { model: model.to_owned() }
    }

    /// Asks another model.
    pub fn with_model(self, model: &str) -> (r: BugBot)
        ensures
            r.model@ == model@,
    {
        BugBot { model: model.to_owned() }
    }

    /// What a model is asked in a review.
    pub fn review_request(&self, prompt: &str) -> (r: BotRequest)
        ensures
            r.model@ == self.model@,
            r.prompt@ == prompt@,
            r.system@ == REVIEW_SYSTEM_PROMPT@,
            r.max_tokens == 4096,
    {
        BotRequest {
            model: self.model.clone(),
            prompt: prompt.to_owned(),
            system: REVIEW_SYSTEM_PROMPT.to_owned(),
            max_tokens: 4096,
        }
    }

    /// What comes of the review of a diff.
    pub fn review_diff(diff_text: &str) -> (r: Review)
        ensures
            match r {
                Review::Done(report) => trim(diff_text@).len() == 0 && is_empty_report(
                    report,
                    "No diff to review."@,
                ),
                Review::Ask { prompt, files_reviewed } => trim(diff_text@).len() > 0 && prompt@
                    == diff_prompt(diff_text@) && files_reviewed == file_names(lines(diff_text@))
                    / 2,
            },
    {
        let chars = chars_of(diff_text);
        if trimmed(chars.as_slice()).len() == 0 {
            return Review::Done(empty_report("No diff to review."));
        }
        let mut prompt =
            "Review the following git diff for bugs, security issues, and logic errors:\n\n```diff\n".to_owned();
        prompt.append(diff_text);
        prompt.append("\n```");
        Review::Ask { prompt, files_reviewed: count_files_in_diff(diff_text) }
    }

    /// What comes of the review of files.
    pub fn review_files(files: &[FileText]) -> (r: Review)
        ensures
            match r {
                Review::Done(report) => files@.len() == 0 && is_empty_report(
                    report,
                    "No files to review."@,
                ),
                Review::Ask { prompt, files_reviewed } => files@.len() > 0 && prompt@
                    == "Review the following source files for bugs, security issues, and logic errors:\n\n"@
                    + file_sections(files@, files@.len()) && files_reviewed == readable(
                    files@,
                    files@.len(),
                ),
            },
    {
        if files.len() == 0 {
            return Review::Done(empty_report("No files to review."));
        }
        let mut contents = String::new();
        let mut count: usize = 0;
        let mut i: usize = 0;
        assert(contents@ =~= Seq::empty());
        while i < files.len()
            invariant
                count <= i <= files@.len(),
                contents@ == file_sections(files@, i as nat),
                count == readable(files@, i as nat),
            decreases files@.len() - i,
        {
            let mut section = "=== ".to_owned();
            section.append(files[i].path.as_str());
            match &files[i].content {
                Ok(c) => {
                    section.append(" ===\n");
                    section.append(c.as_str());
                    section.append("\n\n");
                    count += 1;
                },
                Err(e) => {
                    section.append(" === [ERROR: ");
                    section.append(e.as_str());
                    section.append("]\n\n");
                },
            }
            contents.append(section.as_str());
            i += 1;
        }
        let mut prompt =
            "Review the following source files for bugs, security issues, and logic errors:\n\n".to_owned();
        prompt.append(contents.as_str());
        Review::Ask { prompt, files_reviewed: count }
    }

    /// What a model is asked to mend a finding.
    pub fn fix_request(&self, finding: &BugBotFinding) -> (r: BotRequest)
        ensures
            r.model@ == self.model@,
            r.prompt@ == fix_prompt(finding@),
            r.system@ == FIX_SYSTEM_PROMPT@,
            r.max_tokens == 1024,
    {
        let line = match finding.line {
            Some(n) => decimal_text(n as u64),
            None => "unknown".to_owned(),
        };
        let mut prompt = "Generate a minimal code fix for this issue:\n\nFile: ".to_owned();
        prompt.append(finding.file.as_str());
        prompt.append("\nLine: ");
        prompt.append(line.as_str());
        prompt.append("\nIssue: ");
        prompt.append(finding.description.as_str());
        prompt.append("\nCategory: ");
        prompt.append(finding.category.text());
        prompt.append("\nSeverity: ");
        prompt.append(finding.severity.text());
        prompt.append("\n\nProvide ONLY the corrected code snippet, no explanation.");
        BotRequest {
            model: self.model.clone(),
            prompt,
            system: FIX_SYSTEM_PROMPT.to_owned(),
            max_tokens: 1024,
        }
    }
}

// ── Answers ────────────────────────────────────────────────────────────────
/// The last place of a character before `n`, or -1 if there is none.
pub open spec fn last_index(s: Seq<char>, c: char, n: nat) -> int
    decreases n,
{
    if n == 0 {
        -1
    } else if s[n - 1] == c {
        n - 1
    } else {
        last_index(s, c, (n - 1) as nat)
    }
}

/// What stands between the first opening and the last closing brace, or all if
/// that is nothing.
pub open spec fn braced(s: Seq<char>) -> Seq<char> {
    let a = index_of_char(s, '{', 0);
    let b = last_index(s, '}', s.len());
    if a < s.len() && a <= b {
        s.subrange(a, b + 1)
    } else {
        s
    }
}

/// The JSON text in an answer: what is fenced as such, or what stands in braces,
/// or all of it.
pub open spec fn json_part(s: Seq<char>) -> Seq<char> {
    match find_from(s, "```json"@, 0) {
        Some(i) => {
            let rest = s.skip(i + 7);
            match find_from(rest, "```"@, 0) {
                Some(e) => trim(rest.take(e)),
                None => braced(s),
            }
        },
        None => braced(s),
    }
}

fn braced_part(s: &[char]) -> (r: String)
    ensures
        r@ == braced(s@),
{
    let a: usize = find_char(s, '{', 0);
    let mut n: usize = s.len();
    while n > 0 && s[n - 1] != '}'
        invariant
            n <= s@.len(),
            last_index(s@, '}', n as nat) == last_index(s@, '}', s@.len()),
        decreases n,
    {
        n -= 1;
    }
    proof {
        lemma_index_of_char(s@, '{', 0);
    }
    if a < s.len() && n > a {
        text_of(slice_subrange(s, a, n))
    } else {
        text_of(s)
    }
}

/// The JSON text in an answer.
pub fn extract_json(text: &str) -> (r: String)
    ensures
        r@ == json_part(text@),
{
    let s = chars_of(text);
    let open = chars_of("```json");
    let close = chars_of("```");
    proof {
        reveal_strlit("```json");
        lemma_find_from(s@, open@, 0);
    }
    if let Some(i) = find_text_from(s.as_slice(), open.as_slice(), 0) {
        let len: usize = s.len();
        assert(i + open@.len() <= len);
        let rest = slice_subrange(s.as_slice(), i + 7, len);
        assert(rest@ =~= s@.skip(i + 7));
        proof {
            lemma_find_from(rest@, close@, 0);
        }
        if let Some(e) = find_text_from(rest, close.as_slice(), 0) {
            let body = slice_subrange(rest, 0, e);
            assert(body@ =~= rest@.take(e as int));
            return text_of(trimmed(body));
        }
    }
    braced_part(s.as_slice())
}

/// A text, or another one if it is missing.
pub open spec fn or_text(t: Option<Seq<char>>, other: Seq<char>) -> Seq<char> {
    match t {
        Some(s) => s,
        None => other,
    }
}

/// What a model's answer says of one finding. A line number is cut to the width
/// of a `usize`.
pub open spec fn finding_of(j: JsonModel) -> FindingModel {
    FindingModel {
        severity: FindingSeverity::named(or_text(j.member_text("severity"@), "Low"@)),
        file: or_text(j.member_text("file"@), "unknown"@),
        line: match j.member("line"@) {
            Some(n) => match n.number() {
                Some(k) => Some((k as u64 as usize) as nat),
                None => None,
            },
            None => None,
        },
        description: or_text(j.member_text("description"@), "No description"@),
        suggestion: j.member_text("suggestion"@),
        category: FindingCategory::named(or_text(j.member_text("category"@), "Bug"@)),
    }
}

/// The findings of a model's answer.
pub open spec fn findings_of(j: JsonModel) -> Seq<FindingModel> {
    match j.member("findings"@) {
        Some(f) => match f.elements() {
            Some(v) => v.map_values(|x: JsonModel| finding_of(x)),
            None => Seq::empty(),
        },
        None => Seq::empty(),
    }
}

fn owned_or(t: Option<&str>, other: &str) -> (r: String)
    ensures
        r@ == (match t {
            Some(s) => s@,
            None => other@,
        }),
{
    match t {
        Some(s) => s.to_owned(),
        None => other.to_owned(),
    }
}

fn read_finding(j: &Json) -> (r: BugBotFinding)
    ensures
        r@ == finding_of(j@),
{
    let severity = owned_or(j.get_str("severity"), "Low");
    let category = owned_or(j.get_str("category"), "Bug");
    let line: Option<usize> = match j.get("line") {
        Some(n) => match n.as_u64() {
            Some(k) => Some(
                #[verifier::truncate]
                (k as usize),
            ),
            None => None,
        },
        None => None,
    };
    BugBotFinding {
        severity: FindingSeverity::from_name(severity.as_str()),
        file: owned_or(j.get_str("file"), "unknown"),
        line,
        description: owned_or(j.get_str("description"), "No description"),
        suggestion: match j.get_str("suggestion") {
            Some(s) => Some(s.to_owned()),
            None => None,
        },
        category: FindingCategory::from_name(category.as_str()),
    }
}

/// The report of a model's answer, once it is read. `None` stands for an answer
/// that is no JSON text: all of it is the summary then.
pub open spec fn is_report_of(
    r: BugBotReport,
    parsed: Option<JsonModel>,
    answer: Seq<char>,
    files: usize,
) -> bool {
    &&& r.files_reviewed == files
    &&& r.summary@ == (match parsed {
        Some(j) => or_text(j.member_text("summary"@), "Review complete."@),
        None => answer,
    })
    &&& finding_models(r.findings@) == (match parsed {
        Some(j) => findings_of(j),
        None => Seq::empty(),
    })
}

/// The report of a model's answer, once it is read.
pub fn report_of(parsed: Option<&Json>, answer: String, files_reviewed: usize) -> (r: BugBotReport)
    ensures
        is_report_of(
            r,
            match parsed {
                Some(j) => Some(j@),
                None => None,
            },
            answer@,
            files_reviewed,
        ),
{
    let mut findings: Vec<BugBotFinding> = Vec::new();
    assert(finding_models(findings@) =~= Seq::empty());
    let j = match parsed {
        Some(j) => j,
        None => {
            return BugBotReport { findings, files_reviewed, summary: answer };
        },
    };
    let summary = owned_or(j.get_str("summary"), "Review complete.");
    if let Some(f) = j.get("findings") {
        if let Some(v) = f.as_array() {
            let ghost all = list_models(v@, v@.len()).map_values(|x: JsonModel| finding_of(x));
            let mut i: usize = 0;
            proof {
                lemma_list_models(v@, v@.len());
                assert(all.take(0) =~= Seq::empty());
            }
            while i < v.len()
                invariant
                    i <= v@.len() == all.len(),
                    all == list_models(v@, v@.len()).map_values(|x: JsonModel| finding_of(x)),
                    finding_models(findings@) == all.take(i as int),
                decreases v@.len() - i,
            {
                let ghost before = finding_models(findings@);
                findings.push(read_finding(&v[i]));
                proof {
                    lemma_list_models(v@, v@.len());
                    assert(list_models(v@, v@.len())[i as int] == v@[i as int]@);
                    assert(finding_models(findings@) =~= before.push(all[i as int]));
                    assert(finding_models(findings@) =~= all.take(i + 1));
                }
                i += 1;
            }
            assert(all.take(i as int) =~= all);
        }
    }
    BugBotReport { findings, files_reviewed, summary }
}

/// The report of a model's answer.
pub fn parse_report(json_str: String, files_reviewed: usize) -> (r: BugBotReport)
    ensures
        is_report_of(r, json_value(json_part(json_str@)), json_str@, files_reviewed),
{
    let part = extract_json(json_str.as_str());
    match parse_json(part.as_str()) {
        Some(j) => report_of(Some(&j), json_str, files_reviewed),
        None => report_of(None, json_str, files_reviewed),
    }
}

// ── Laws ───────────────────────────────────────────────────────────────────
/// A finding that a model writes down is read back field by field: a text from the
/// member of its name, and a line from its numeral.
pub proof fn law_findings_are_read_back(
    j: JsonModel,
    severity: Seq<char>,
    category: Seq<char>,
    file: Seq<char>,
    line: usize,
    description: Seq<char>,
    suggestion: Seq<char>,
)
    ensures
        j.member("severity"@) == Some(JsonModel::Text(severity)) ==> finding_of(j).severity
            == FindingSeverity::named(severity),
        j.member("category"@) == Some(JsonModel::Text(category)) ==> finding_of(j).category
            == FindingCategory::named(category),
        j.member("file"@) == Some(JsonModel::Text(file)) ==> finding_of(j).file == file,
        j.member("line"@) == Some(JsonModel::Number(decimal(line as nat))) ==> finding_of(j).line
            == Some(line as nat),
        j.member("description"@) == Some(JsonModel::Text(description)) ==> finding_of(
            j,
        ).description == description,
        j.member("suggestion"@) == Some(JsonModel::Text(suggestion)) ==> finding_of(j).suggestion
            == Some(suggestion),
{
    law_numerals_read_back(line as u64);
}

/// What a model leaves out of a finding is not made up from another part of it.
pub proof fn law_missing_parts_have_their_defaults(j: JsonModel)
    ensures
        j.member("severity"@) is None ==> finding_of(j).severity == FindingSeverity::Low,
        j.member("category"@) is None ==> finding_of(j).category == FindingCategory::Bug,
        j.member("file"@) is None ==> finding_of(j).file == "unknown"@,
        j.member("line"@) is None ==> finding_of(j).line is None,
        j.member("description"@) is None ==> finding_of(j).description == "No description"@,
        j.member("suggestion"@) is None ==> finding_of(j).suggestion is None,
{
    lemma_names_differ();
}

proof fn lemma_names_differ()
    ensures
        "Critical"@.len() == 8,
        "High"@.len() == 4 && "High"@[0] == 'H',
        "Medium"@.len() == 6,
        "Low"@.len() == 3,
        "Info"@.len() == 4 && "Info"@[0] == 'I',
        "Bug"@.len() == 3,
        "Security"@.len() == 8,
        "Performance"@.len() == 11,
        "Style"@.len() == 5 && "Style"@[0] == 'S',
        "Logic"@.len() == 5 && "Logic"@[0] == 'L',
{
    reveal_strlit("Critical");
    reveal_strlit("High");
    reveal_strlit("Medium");
    reveal_strlit("Low");
    reveal_strlit("Info");
    reveal_strlit("Bug");
    reveal_strlit("Security");
    reveal_strlit("Performance");
    reveal_strlit("Style");
    reveal_strlit("Logic");
}

/// Each severity and each category has one name, and any other text stands for the
/// mildest: a low severity, and a bug.
pub proof fn law_names_stand_for_one_thing(name: Seq<char>)
    ensures
        FindingSeverity::named(name) == FindingSeverity::Critical <==> name == "Critical"@,
        FindingSeverity::named(name) == FindingSeverity::High <==> name == "High"@,
        FindingSeverity::named(name) == FindingSeverity::Medium <==> name == "Medium"@,
        FindingSeverity::named(name) == FindingSeverity::Info <==> name == "Info"@,
        FindingCategory::named(name) == FindingCategory::Security <==> name == "Security"@,
        FindingCategory::named(name) == FindingCategory::Performance <==> name == "Performance"@,
        FindingCategory::named(name) == FindingCategory::Style <==> name == "Style"@,
        FindingCategory::named(name) == FindingCategory::Logic <==> name == "Logic"@,
{
    lemma_names_differ();
}

/// A report has one finding for each element of the list of findings, in its order,
/// and the summary that the model gave; of an answer that is no JSON it has no
/// findings, and all of the answer is the summary.
pub proof fn law_reports_hold_what_the_model_found(
    r: BugBotReport,
    j: JsonModel,
    found: Seq<JsonModel>,
    summary: Seq<char>,
    answer: Seq<char>,
    files: usize,
    i: int,
)
    requires
        is_report_of(r, Some(j), answer, files),
    ensures
        r.files_reviewed == files,
        j.member("summary"@) == Some(JsonModel::Text(summary)) ==> r.summary@ == summary,
        j.member("findings"@) == Some(JsonModel::List(found)) ==> r.findings@.len()
            == found.len() && (0 <= i < found.len() ==> r.findings@[i]@ == finding_of(found[i])),
        j.member("findings"@) is None ==> r.findings@.len() == 0,
{
    let models = finding_models(r.findings@);
    assert(models.len() == r.findings@.len());
    if j.member("findings"@) == Some(JsonModel::List(found)) {
        assert(models.len() == found.len());
        if 0 <= i < found.len() {
            assert(models[i] == r.findings@[i]@);
        }
    }
}

/// An answer that is no JSON text is a report without findings, whose summary is the
/// answer.
pub proof fn law_other_answers_are_summaries(r: BugBotReport, answer: Seq<char>, files: usize)
    requires
        is_report_of(r, None, answer, files),
    ensures
        r.summary@ == answer,
        r.findings@.len() == 0,
        r.files_reviewed == files,
{
    assert(finding_models(r.findings@).len() == r.findings@.len());
}

/// The JSON text of an answer is what stands between the fences, whatever is said
/// before and after them.
pub proof fn law_fenced_json_is_taken_out(before: Seq<char>, body: Seq<char>, after: Seq<char>)
    requires
        find_from(before + "```json"@ + body + "```"@ + after, "```json"@, 0) == Some(
            before.len() as int,
        ),
        find_from(body + "```"@ + after, "```"@, 0) == Some(body.len() as int),
    ensures
        json_part(before + "```json"@ + body + "```"@ + after) == trim(body),
{
    reveal_strlit("```json");
    let s = before + "```json"@ + body + "```"@ + after;
    assert(s.skip((before.len() + 7) as int) =~= body + "```"@ + after);
    assert((body + "```"@ + after).take(body.len() as int) =~= body);
}

/// Without fences the JSON text is what stands in braces: from the first that opens
/// to the last that closes.
pub proof fn law_braced_json_is_taken_out(before: Seq<char>, body: Seq<char>, after: Seq<char>)
    requires
        !before.contains('{'),
        !after.contains('}'),
        body.len() >= 2,
        body[0] == '{',
        body.last() == '}',
        !contains_text(before + body + after, "```json"@),
    ensures
        json_part(before + body + after) == body,
{
    let s = before + body + after;
    lemma_find_from(s, "```json"@, 0);
    let a = index_of_char(s, '{', 0);
    lemma_index_of_char(s, '{', 0);
    assert(s[before.len() as int] == '{');
    if a < before.len() {
        assert(before[a] == '{');
    }
    let e = before.len() + body.len();
    assert(s[e - 1] == '}');
    assert forall|i: int| e <= i < s.len() implies s[i] != '}' by {
        assert(s[i] == after[i - e]);
    }
    lemma_last_index(s, '}', s.len(), e - 1);
    assert(s.subrange(before.len() as int, e as int) =~= body);
}

proof fn lemma_last_index(s: Seq<char>, c: char, n: nat, k: int)
    requires
        0 <= k < n <= s.len(),
        s[k] == c,
        forall|i: int| k < i < n ==> s[i] != c,
    ensures
        last_index(s, c, n) == k,
    decreases n,
{
    if k < n - 1 {
        lemma_last_index(s, c, (n - 1) as nat, k);
    }
}

/// The findings of a severity are counted one by one.
pub proof fn law_severities_are_counted(v: Seq<FindingModel>, s: FindingSeverity)
    ensures
        severity_count(v, s) == v.filter(|f: FindingModel| f.severity == s).len(),
    decreases v.len(),
{
    reveal(Seq::filter);
    if v.len() > 0 {
        law_severities_are_counted(v.drop_last(), s);
    }
}

/// The model sees the whole diff, and all of each file that can be read, with its
/// path.
pub proof fn law_reviews_show_the_code(diff: Seq<char>, files: Seq<FileText>, n: nat, i: int)
    requires
        0 <= i < n <= files.len(),
    ensures
        contains_text(diff_prompt(diff), diff),
        contains_text(file_sections(files, n), files[i].path@),
        files[i].content matches Ok(c) ==> contains_text(file_sections(files, n), c@),
    decreases n,
{
    let head =
        "Review the following git diff for bugs, security issues, and logic errors:\n\n```diff\n"@;
    lemma_contains_part(head, diff, "\n```"@);
    let rest = file_sections(files, (n - 1) as nat);
    let last = file_section(files[n - 1]);
    if i < n - 1 {
        law_reviews_show_the_code(diff, files, (n - 1) as nat, i);
        lemma_contains_more(rest, files[i].path@, Seq::empty(), last);
        if let Ok(c) = files[i].content {
            lemma_contains_more(rest, c@, Seq::empty(), last);
        }
        assert(Seq::<char>::empty() + rest + last =~= rest + last);
    } else {
        let path = files[i].path@;
        match files[i].content {
            Ok(c) => {
                let tail = " ===\n"@ + c@ + "\n\n"@;
                lemma_contains_part(rest + "=== "@, path, tail);
                assert(rest + "=== "@ + path + tail =~= rest + last);
                lemma_contains_part(rest + ("=== "@ + path + " ===\n"@), c@, "\n\n"@);
                assert(rest + ("=== "@ + path + " ===\n"@) + c@ + "\n\n"@ =~= rest + last);
            },
            Err(e) => {
                let tail = " === [ERROR: "@ + e@ + "]\n\n"@;
                lemma_contains_part(rest + "=== "@, path, tail);
                assert(rest + "=== "@ + path + tail =~= rest + last);
            },
        }
    }
}

/// What a text contains, a longer one does too.
proof fn lemma_contains_more(s: Seq<char>, p: Seq<char>, a: Seq<char>, b: Seq<char>)
    requires
        contains_text(s, p),
    ensures
        contains_text(a + s + b, p),
{
    let i = choose|i: int| occurs_at(s, p, i);
    assert((a + s + b).subrange(a.len() + i, a.len() + i + p.len()) =~= p);
    assert(occurs_at(a + s + b, p, a.len() + i));
}

/// Only files that can be read count, each once.
pub proof fn law_readable_files_are_counted(files: Seq<FileText>)
    ensures
        readable(files, files.len()) == files.filter(|f: FileText| f.content is Ok).len(),
    decreases files.len(),
{
    lemma_readable(files, files.len());
    assert(files.take(files.len() as int) =~= files);
}

proof fn lemma_readable(files: Seq<FileText>, n: nat)
    requires
        n <= files.len(),
    ensures
        readable(files, n) == files.take(n as int).filter(|f: FileText| f.content is Ok).len(),
    decreases n,
{
    reveal(Seq::filter);
    if n > 0 {
        lemma_readable(files, (n - 1) as nat);
        assert(files.take(n as int).drop_last() =~= files.take(n - 1));
    }
}

/// The lines that name the two sides of a file make one file more in a diff; no other
/// line counts.
pub proof fn law_each_file_of_a_diff_counts_once(
    ls: Seq<Seq<char>>,
    from: Seq<char>,
    to: Seq<char>,
    other: Seq<char>,
)
    ensures
        file_names(ls.push("--- a/"@ + from).push("+++ b/"@ + to)) / 2 == file_names(ls) / 2 + 1,
        !starts_with(other, "--- a/"@) && !starts_with(other, "+++ b/"@) ==> file_names(
            ls.push(other),
        ) == file_names(ls),
        file_names(Seq::empty()) == 0,
{
    let a = "--- a/"@ + from;
    let b = "+++ b/"@ + to;
    assert(a.subrange(0, "--- a/"@.len() as int) =~= "--- a/"@);
    assert(b.subrange(0, "+++ b/"@.len() as int) =~= "+++ b/"@);
    assert(ls.push(a).push(b).drop_last() =~= ls.push(a));
    assert(ls.push(a).drop_last() =~= ls);
    assert(ls.push(a).last() == a);
    assert(file_names(ls.push(a)) == file_names(ls) + 1);
    assert(file_names(ls.push(a).push(b)) == file_names(ls.push(a)) + 1);
    assert(ls.push(other).drop_last() =~= ls);
}

/// A request to mend a finding names the file and the issue, not the remedy.
pub proof fn law_fix_requests_name_the_issue(f: FindingModel, other: Option<Seq<char>>)
    ensures
        contains_text(fix_prompt(f), "\nIssue: "@ + f.description + "\n"@),
        contains_text(fix_prompt(f), "\n\nFile: "@ + f.file + "\n"@),
        fix_prompt(FindingModel { suggestion: other, ..f }) == fix_prompt(f),
{
    let line = match f.line {
        Some(n) => decimal(n),
        None => "unknown"@,
    };
    reveal_strlit("Generate a minimal code fix for this issue:\n\nFile: ");
    reveal_strlit("Generate a minimal code fix for this issue:");
    reveal_strlit("\n\nFile: ");
    reveal_strlit("\nLine: ");
    reveal_strlit("Line: ");
    reveal_strlit("\n");
    reveal_strlit("\nCategory: ");
    reveal_strlit("Category: ");
    let p = fix_prompt(f);
    let tail = f.category.words() + "\nSeverity: "@ + f.severity.words()
        + "\n\nProvide ONLY the corrected code snippet, no explanation."@;
    let start = "Generate a minimal code fix for this issue:"@;
    let issue = "\nIssue: "@ + f.description + "\n"@;
    let head = "Generate a minimal code fix for this issue:\n\nFile: "@ + f.file + "\nLine: "@
        + line;
    lemma_contains_part(head, issue, "Category: "@ + tail);
    assert(head + issue + ("Category: "@ + tail) =~= p);
    let file = "\n\nFile: "@ + f.file + "\n"@;
    let after = "Line: "@ + line + "\nIssue: "@ + f.description + "\nCategory: "@ + tail;
    lemma_contains_part(start, file, after);
    assert(start + file + after =~= p);
}

} // verus!

//! What went wrong, and what else could be tried.

use crate::sorting::{
    ahead, by_text, in_text_order, law_sorting_sorts, law_texts_are_in_order,
    lemma_by_text_is_order, sort_texts, sorted_order, text_less,
};
use crate::split::{lines, lines_of};
use crate::text::{
    chars_end_with, chars_of, contains_any, contains_text, ends_with, find_from, find_text_from,
    has_one_of, holds_text, is_space, lemma_find_from, lemma_texts_push, lowercase, occurs_at,
    str_has, str_views, text_of, texts, trim_start, trimmed_start,
};
use vstd::prelude::*;
use vstd::slice::slice_subrange;
use vstd::string::*;

verus! {

broadcast use lemma_texts_push;

// ── Categories ─────────────────────────────────────────────────────────────
/// What went wrong.
#[derive(Debug, Clone, Copy, PartialEq, Eq, Structural)]
pub enum ErrorCategory {
    CompileError,
    RuntimeError,
    TestFailure,
    Timeout,
    ResourceExhausted,
    LogicError,
    Unknown,
}

/// What a log in lower case speaks of.
pub open spec fn category_of(log: Seq<char>) -> ErrorCategory {
    if contains_any(log, seq!["error[e"@, "error: cannot"@, "mismatched types"@]) || contains_text(
        log,
        "expected"@,
    ) && contains_text(log, "found"@) {
        ErrorCategory::CompileError
    } else if contains_any(log, seq!["panicked"@, "panic"@, "segfault"@, "signal"@]) {
        ErrorCategory::RuntimeError
    } else if contains_any(
        log,
        seq![
            "test failed"@,
            "assertion failed"@,
            "failures:"@,
            "failed test"@,
            "test result:"@,
        ],
    ) {
        ErrorCategory::TestFailure
    } else if contains_any(log, seq!["timeout"@, "timed out"@, "deadline exceeded"@]) {
        ErrorCategory::Timeout
    } else if contains_any(
        log,
        seq!["out of memory"@, "oom"@, "disk full"@, "resource exhausted"@],
    ) {
        ErrorCategory::ResourceExhausted
    } else if contains_any(log, seq!["logic"@, "incorrect result"@, "wrong output"@]) {
        ErrorCategory::LogicError
    } else {
        ErrorCategory::Unknown
    }
}

/// Looks back at what was tried.
pub struct BranchReflector;

impl ErrorCategory {
    /// Why it went wrong.
    pub open spec fn cause(self) -> Seq<char> {
        match self {
            ErrorCategory::CompileError => "Type or syntax error detected in source code"@,
            ErrorCategory::RuntimeError => "Program panicked or crashed at runtime"@,
            ErrorCategory::TestFailure => "One or more test assertions failed"@,
            ErrorCategory::Timeout => "Operation exceeded its time limit"@,
            ErrorCategory::ResourceExhausted => "System resource limit reached"@,
            ErrorCategory::LogicError => "Incorrect logic producing wrong results"@,
            ErrorCategory::Unknown => "Could not determine root cause"@,
        }
    }

    /// How bad it is.
    pub open spec fn severity(self) -> Seq<char> {
        match self {
            ErrorCategory::CompileError => "high"@,
            ErrorCategory::RuntimeError => "high"@,
            ErrorCategory::TestFailure => "medium"@,
            ErrorCategory::LogicError => "medium"@,
            ErrorCategory::Timeout => "high"@,
            ErrorCategory::ResourceExhausted => "high"@,
            ErrorCategory::Unknown => "low"@,
        }
    }

    fn cause_text(&self) -> (r: &'static str)
        ensures
            r@ == self.cause(),
    {
        match self {
            ErrorCategory::CompileError => "Type or syntax error detected in source code",
            ErrorCategory::RuntimeError => "Program panicked or crashed at runtime",
            ErrorCategory::TestFailure => "One or more test assertions failed",
            ErrorCategory::Timeout => "Operation exceeded its time limit",
            ErrorCategory::ResourceExhausted => "System resource limit reached",
            ErrorCategory::LogicError => "Incorrect logic producing wrong results",
            ErrorCategory::Unknown => "Could not determine root cause",
        }
    }

    fn severity_text(&self) -> (r: &'static str)
        ensures
            r@ == self.severity(),
    {
        match self {
            ErrorCategory::CompileError => "high",
            ErrorCategory::RuntimeError => "high",
            ErrorCategory::TestFailure => "medium",
            ErrorCategory::LogicError => "medium",
            ErrorCategory::Timeout => "high",
            ErrorCategory::ResourceExhausted => "high",
            ErrorCategory::Unknown => "low",
        }
    }
}

// ── Files ──────────────────────────────────────────────────────────────────
/// The character ends a path.
pub open spec fn ends_path(c: char) -> bool {
    is_space(c) || c == ':' || c == ')'
}

/// How long the path at the head of a text is.
pub open spec fn path_len(s: Seq<char>) -> int
    decreases s.len(),
{
    if s.len() == 0 || ends_path(s[0]) {
        0
    } else {
        1 + path_len(s.skip(1))
    }
}

/// The path at the head of a text.
pub open spec fn path_head(s: Seq<char>) -> Seq<char> {
    s.take(path_len(s))
}

/// The path is one of a source file.
pub open spec fn is_source(p: Seq<char>) -> bool {
    ends_with(p, ".rs"@) || ends_with(p, ".go"@) || ends_with(p, ".ts"@)
}

/// The source file that a line names behind an arrow.
pub open spec fn file_behind_arrow(line: Seq<char>) -> Option<Seq<char>> {
    match find_from(line, "-->"@, 0) {
        Some(i) => {
            let p = path_head(trim_start(line.skip(i + 3)));
            if is_source(p) {
                Some(p)
            } else {
                None
            }
        },
        None => None,
    }
}

/// The source file that a line names: below `src/`, or else behind an arrow.
pub open spec fn file_in(line: Seq<char>) -> Option<Seq<char>> {
    match find_from(line, "src/"@, 0) {
        Some(i) => {
            let p = path_head(line.skip(i));
            if is_source(p) {
                Some(p)
            } else {
                file_behind_arrow(line)
            }
        },
        None => file_behind_arrow(line),
    }
}

/// The source files that lines name, each once.
pub open spec fn files_in(ls: Seq<Seq<char>>) -> Seq<Seq<char>>
    decreases ls.len(),
{
    if ls.len() == 0 {
        Seq::empty()
    } else {
        let before = files_in(ls.drop_last());
        match file_in(ls.last()) {
            Some(f) => if before.contains(f) {
                before
            } else {
                before.push(f)
            },
            None => before,
        }
    }
}

proof fn lemma_files_differ(ls: Seq<Seq<char>>)
    ensures
        files_in(ls).no_duplicates(),
    decreases ls.len(),
{
    if ls.len() > 0 {
        lemma_files_differ(ls.drop_last());
    }
}

/// The files that a log names come in order, each of them once.
pub proof fn law_affected_files_are_in_order(ls: Seq<Seq<char>>)
    ensures
        ({
            let files = in_text_order(files_in(ls));
            forall|a: int, b: int|
                0 <= a < b < files.len() ==> text_less(#[trigger] files[a], #[trigger] files[b])
        }),
{
    let found = files_in(ls);
    let before = by_text(found);
    lemma_files_differ(ls);
    lemma_by_text_is_order(found);
    law_sorting_sorts(found.len(), before);
    let order = sorted_order(found.len(), before);
    let files = in_text_order(found);
    assert forall|a: int, b: int| 0 <= a < b < files.len() implies text_less(
        #[trigger] files[a],
        #[trigger] files[b],
    ) by {
        assert(ahead(order[a], order[b], before));
        assert(0 <= order[a] < found.len());
        assert(0 <= order[b] < found.len());
        assert(order[a] != order[b]);
        assert(found[order[a]] != found[order[b]]);
        law_texts_are_in_order(found[order[a]], found[order[b]], found[order[a]]);
    }
}

fn head_path(s: &[char]) -> (r: Vec<char>)
    ensures
        r@ == path_head(s@),
{
    let mut out: Vec<char> = Vec::new();
    let mut n: usize = 0;
    assert(s@.skip(0) =~= s@);
    assert(out@ =~= s@.take(0));
    while n < s.len() && !s[n].is_whitespace() && s[n] != ':' && s[n] != ')'
        invariant
            n <= s@.len(),
            out@ == s@.take(n as int),
            path_len(s@) == n + path_len(s@.skip(n as int)),
        decreases s@.len() - n,
    {
        proof {
            assert(s@.skip(n as int)[0] == s@[n as int]);
            assert(s@.skip(n as int).skip(1) =~= s@.skip(n + 1));
        }
        out.push(s[n]);
        assert(out@ =~= s@.take(n + 1));
        n += 1;
    }
    proof {
        if n < s@.len() {
            assert(s@.skip(n as int)[0] == s@[n as int]);
        }
    }
    out
}

fn source_path(s: &[char]) -> (r: Option<String>)
    ensures
        match r {
            Some(p) => is_source(path_head(s@)) && p@ == path_head(s@),
            None => !is_source(path_head(s@)),
        },
{
    let p = head_path(s);
    if chars_end_with(p.as_slice(), ".rs") || chars_end_with(p.as_slice(), ".go")
        || chars_end_with(p.as_slice(), ".ts") {
        Some(text_of(p.as_slice()))
    } else {
        None
    }
}

/// The source file that a line names.
pub fn find_file(line: &str) -> (r: Option<String>)
    ensures
        match r {
            Some(p) => file_in(line@) == Some(p@),
            None => file_in(line@) is None,
        },
{
    let s = chars_of(line);
    let len: usize = s.len();
    let src = chars_of("src/");
    let arrow = chars_of("-->");
    proof {
        reveal_strlit("-->");
        lemma_find_from(s@, src@, 0);
        lemma_find_from(s@, arrow@, 0);
    }
    if let Some(i) = find_text_from(s.as_slice(), src.as_slice(), 0) {
        let rest = slice_subrange(s.as_slice(), i, len);
        assert(rest@ =~= s@.skip(i as int));
        if let Some(p) = source_path(rest) {
            return Some(p);
        }
    }
    match find_text_from(s.as_slice(), arrow.as_slice(), 0) {
        Some(i) => {
            assert(i + arrow@.len() <= len);
            let rest = slice_subrange(s.as_slice(), i + 3, len);
            assert(rest@ =~= s@.skip(i + 3));
            source_path(trimmed_start(rest))
        },
        None => None,
    }
}

fn find_files(log: &str) -> (r: Vec<String>)
    ensures
        texts(r@) == files_in(lines(log@)),
{
    let all = lines_of(log);
    let ghost ls = lines(log@);
    let mut out: Vec<String> = Vec::new();
    let mut i: usize = 0;
    assert(texts(out@) =~= files_in(ls.take(0)));
    while i < all.len()
        invariant
            i <= all@.len() == ls.len(),
            ls == texts(all@),
            texts(out@) == files_in(ls.take(i as int)),
        decreases all@.len() - i,
    {
        proof {
            assert(ls.take(i + 1).drop_last() =~= ls.take(i as int));
            assert(ls.take(i + 1).last() == all@[i as int]@);
        }
        if let Some(f) = find_file(all[i].as_str()) {
            if !holds_text(out.as_slice(), f.as_str()) {
                out.push(f);
            }
        }
        i += 1;
    }
    assert(ls.take(i as int) =~= ls);
    out
}

// ── Analyses ───────────────────────────────────────────────────────────────
/// What went wrong, why, where, and how bad it is.
#[derive(Debug, Clone)]
pub struct ErrorAnalysis {
    pub category: ErrorCategory,
    pub root_cause: String,
    pub affected_files: Vec<String>,
    pub severity: String,
}

/// Something else that could be tried. `confidence` is in percent.
#[derive(Debug, Clone)]
pub struct AlternativeApproach {
    pub description: String,
    pub confidence: u8,
    pub estimated_effort: String,
}

/// Something else that could be tried.
pub struct ApproachModel {
    pub description: Seq<char>,
    pub confidence: u8,
    pub estimated_effort: Seq<char>,
}

impl View for AlternativeApproach {
    type V = ApproachModel;

    open spec fn view(&self) -> ApproachModel {
        approach(self.description@, self.confidence, self.estimated_effort@)
    }
}

/// Something else that could be tried.
pub open spec fn approach(
    description: Seq<char>,
    confidence: u8,
    estimated_effort: Seq<char>,
) -> ApproachModel {
    ApproachModel { description, confidence, estimated_effort }
}

/// What else could be tried.
pub open spec fn approach_models(v: Seq<AlternativeApproach>) -> Seq<ApproachModel> {
    v.map_values(|a: AlternativeApproach| a@)
}

/// What else could be tried for a category.
pub open spec fn alternatives(c: ErrorCategory) -> Seq<ApproachModel> {
    match c {
        ErrorCategory::CompileError => seq![
            approach("Fix type annotations and ensure trait bounds are satisfied"@, 85, "low"@),
            approach("Refactor to use concrete types instead of generics"@, 60, "medium"@),
        ],
        ErrorCategory::RuntimeError => seq![
            approach("Add bounds checking and handle edge cases explicitly"@, 80, "medium"@),
            approach("Use Result/Option instead of unwrap to propagate errors"@, 90, "low"@),
        ],
        ErrorCategory::TestFailure => seq![
            approach("Review test expectations against actual implementation behavior"@, 75, "low"@),
            approach("Add additional fixtures or mock data to isolate failure"@, 65, "medium"@),
        ],
        ErrorCategory::Timeout => seq![
            approach("Profile and optimize the critical path"@, 70, "high"@),
            approach("Increase timeout threshold or add caching"@, 80, "low"@),
        ],
        ErrorCategory::ResourceExhausted => seq![
            approach("Stream data instead of loading into memory"@, 75, "high"@),
            approach("Add resource limits and backpressure mechanisms"@, 70, "medium"@),
        ],
        ErrorCategory::LogicError => seq![
            approach("Add property-based tests to surface edge cases"@, 65, "medium"@),
            approach("Step through logic with a debugger and verify invariants"@, 80, "medium"@),
        ],
        ErrorCategory::Unknown => seq![
            approach("Increase logging verbosity and reproduce the failure"@, 50, "low"@),
        ],
    }
}

fn push_approach(
    out: &mut Vec<AlternativeApproach>,
    description: &str,
    confidence: u8,
    estimated_effort: &str,
)
    ensures
        approach_models(final(out)@) == approach_models(old(out)@).push(
            approach(description@, confidence, estimated_effort@),
        ),
{
    let ghost before = approach_models(out@);
    let a = AlternativeApproach {
        description: description.to_owned(),
        confidence,
        estimated_effort: estimated_effort.to_owned(),
    };
    let ghost m = a@;
    out.push(a);
    assert(approach_models(out@) =~= before.push(m));
}

impl BranchReflector {
    /// What a log speaks of, whatever its case.
    pub fn classify_error(error: &str) -> (r: ErrorCategory)
        ensures
            r == category_of(lowercase(error@)),
    {
        let lower = error.to_lowercase();
        BranchReflector::classify_lower(lower.as_str())
    }

    /// What a log in lower case speaks of.
    pub fn classify_lower(log: &str) -> (r: ErrorCategory)
        ensures
            r == category_of(log@),
    {
        let compile: [&str; 3] = ["error[e", "error: cannot", "mismatched types"];
        let crash: [&str; 4] = ["panicked", "panic", "segfault", "signal"];
        let failure: [&str; 5] = [
            "test failed",
            "assertion failed",
            "failures:",
            "failed test",
            "test result:",
        ];
        let late: [&str; 3] = ["timeout", "timed out", "deadline exceeded"];
        let full: [&str; 4] = ["out of memory", "oom", "disk full", "resource exhausted"];
        let logic: [&str; 3] = ["logic", "incorrect result", "wrong output"];
        proof {
            assert(str_views(compile@) =~= seq![
                "error[e"@,
                "error: cannot"@,
                "mismatched types"@,
            ]);
            assert(str_views(crash@) =~= seq!["panicked"@, "panic"@, "segfault"@, "signal"@]);
            assert(str_views(failure@) =~= seq![
                "test failed"@,
                "assertion failed"@,
                "failures:"@,
                "failed test"@,
                "test result:"@,
            ]);
            assert(str_views(late@) =~= seq!["timeout"@, "timed out"@, "deadline exceeded"@]);
            assert(str_views(full@) =~= seq![
                "out of memory"@,
                "oom"@,
                "disk full"@,
                "resource exhausted"@,
            ]);
            assert(str_views(logic@) =~= seq!["logic"@, "incorrect result"@, "wrong output"@]);
        }
        if has_one_of(log, compile.as_slice()) || str_has(log, "expected") && str_has(
            log,
            "found",
        ) {
            ErrorCategory::CompileError
        } else if has_one_of(log, crash.as_slice()) {
            ErrorCategory::RuntimeError
        } else if has_one_of(log, failure.as_slice()) {
            ErrorCategory::TestFailure
        } else if has_one_of(log, late.as_slice()) {
            ErrorCategory::Timeout
        } else if has_one_of(log, full.as_slice()) {
            ErrorCategory::ResourceExhausted
        } else if has_one_of(log, logic.as_slice()) {
            ErrorCategory::LogicError
        } else {
            ErrorCategory::Unknown
        }
    }

    /// What a log tells: what went wrong, why, how bad it is, and which source
    /// files it names, in order.
    pub fn analyze_error(error_log: &str) -> (r: ErrorAnalysis)
        ensures
            r.category == category_of(lowercase(error_log@)),
            r.root_cause@ == r.category.cause(),
            r.severity@ == r.category.severity(),
            texts(r.affected_files@) == in_text_order(files_in(lines(error_log@))),
    {
        let category = BranchReflector::classify_error(error_log);
        let files = find_files(error_log);
        ErrorAnalysis {
            category,
            root_cause: category.cause_text().to_owned(),
            affected_files: sort_texts(files.as_slice()),
            severity: category.severity_text().to_owned(),
        }
    }

    /// What else could be tried.
    pub fn suggest_alternatives(analysis: &ErrorAnalysis) -> (r: Vec<AlternativeApproach>)
        ensures
            approach_models(r@) == alternatives(analysis.category),
    {
        let mut out: Vec<AlternativeApproach> = Vec::new();
        assert(approach_models(out@) =~= Seq::empty());
        match analysis.category {
            ErrorCategory::CompileError => {
                push_approach(
                    &mut out,
                    "Fix type annotations and ensure trait bounds are satisfied",
                    85,
                    "low",
                );
                push_approach(
                    &mut out,
                    "Refactor to use concrete types instead of generics",
                    60,
                    "medium",
                );
            },
            ErrorCategory::RuntimeError => {
                push_approach(
                    &mut out,
                    "Add bounds checking and handle edge cases explicitly",
                    80,
                    "medium",
                );
                push_approach(
                    &mut out,
                    "Use Result/Option instead of unwrap to propagate errors",
                    90,
                    "low",
                );
            },
            ErrorCategory::TestFailure => {
                push_approach(
                    &mut out,
                    "Review test expectations against actual implementation behavior",
                    75,
                    "low",
                );
                push_approach(
                    &mut out,
                    "Add additional fixtures or mock data to isolate failure",
                    65,
                    "medium",
                );
            },
            ErrorCategory::Timeout => {
                push_approach(
                    &mut out,
                    "Profile and optimize the critical path",
                    70,
                    "high",
                );
                push_approach(
                    &mut out,
                    "Increase timeout threshold or add caching",
                    80,
                    "low",
                );
            },
            ErrorCategory::ResourceExhausted => {
                push_approach(
                    &mut out,
                    "Stream data instead of loading into memory",
                    75,
                    "high",
                );
                push_approach(
                    &mut out,
                    "Add resource limits and backpressure mechanisms",
                    70,
                    "medium",
                );
            },
            ErrorCategory::LogicError => {
                push_approach(
                    &mut out,
                    "Add property-based tests to surface edge cases",
                    65,
                    "medium",
                );
                push_approach(
                    &mut out,
                    "Step through logic with a debugger and verify invariants",
                    80,
                    "medium",
                );
            },
            ErrorCategory::Unknown => {
                push_approach(
                    &mut out,
                    "Increase logging verbosity and reproduce the failure",
                    50,
                    "low",
                );
            },
        }
        assert(approach_models(out@) =~= alternatives(analysis.category));
        out
    }
}

/// A file is named by a log exactly if one of its lines names it.
pub proof fn law_named_files_are_found(ls: Seq<Seq<char>>, f: Seq<char>)
    ensures
        files_in(ls).contains(f) <==> exists|i: int|
            0 <= i < ls.len() && file_in(#[trigger] ls[i]) == Some(f),
    decreases ls.len(),
{
    if ls.len() > 0 {
        let rest = ls.drop_last();
        law_named_files_are_found(rest, f);
        let before = files_in(rest);
        let all = files_in(ls);
        if file_in(ls.last()) is Some && !before.contains(file_in(ls.last())->0) {
            assert(all[before.len() as int] == file_in(ls.last())->0);
        }
        if before.contains(f) {
            let k = choose|k: int| 0 <= k < before.len() && before[k] == f;
            assert(all[k] == f);
            let i = choose|i: int| 0 <= i < rest.len() && file_in(#[trigger] rest[i]) == Some(f);
            assert(ls[i] == rest[i]);
        }
        if exists|i: int| 0 <= i < ls.len() && file_in(#[trigger] ls[i]) == Some(f) {
            let i = choose|i: int| 0 <= i < ls.len() && file_in(#[trigger] ls[i]) == Some(f);
            if i < rest.len() {
                assert(rest[i] == ls[i]);
            } else {
                assert(ls[i] == ls.last());
            }
        }
        if all.contains(f) && !before.contains(f) {
            let k = choose|k: int| 0 <= k < all.len() && all[k] == f;
            if k < before.len() {
                assert(before[k] == f);
            }
            assert(ls[ls.len() - 1] == ls.last());
        }
    }
}

/// A line names the source file below `src/`, up to the line number behind it.
pub proof fn law_paths_end_before_the_line_number(
    before: Seq<char>,
    name: Seq<char>,
    after: Seq<char>,
)
    requires
        !before.contains('s'),
        forall|i: int| 0 <= i < name.len() ==> !ends_path(#[trigger] name[i]),
    ensures
        file_in(before + "src/"@ + name + ".rs"@ + ":"@ + after) == Some(
            "src/"@ + name + ".rs"@,
        ),
        file_in(before + "src/"@ + name + ".go"@ + ":"@ + after) == Some(
            "src/"@ + name + ".go"@,
        ),
        file_in(before + "src/"@ + name + ".ts"@ + ":"@ + after) == Some(
            "src/"@ + name + ".ts"@,
        ),
{
    reveal_strlit(".rs");
    reveal_strlit(".go");
    reveal_strlit(".ts");
    lemma_path_below_src(before, name, ".rs"@, after);
    lemma_path_below_src(before, name, ".go"@, after);
    lemma_path_below_src(before, name, ".ts"@, after);
}

proof fn lemma_path_below_src(
    before: Seq<char>,
    name: Seq<char>,
    ext: Seq<char>,
    after: Seq<char>,
)
    requires
        !before.contains('s'),
        forall|i: int| 0 <= i < name.len() ==> !ends_path(#[trigger] name[i]),
        forall|i: int| 0 <= i < ext.len() ==> !ends_path(#[trigger] ext[i]),
        ext == ".rs"@ || ext == ".go"@ || ext == ".ts"@,
    ensures
        file_in(before + "src/"@ + name + ext + ":"@ + after) == Some("src/"@ + name + ext),
{
    reveal_strlit("src/");
    let path = "src/"@ + name + ext;
    let line = before + "src/"@ + name + ext + ":"@ + after;
    assert(line =~= before + path + ":"@ + after);
    assert(path.subrange(0, 4) =~= "src/"@);
    assert(path.subrange(path.len() - ext.len(), path.len() as int) =~= ext);
    assert(ends_with(path, ext));
    assert forall|k: int| 0 <= k < path.len() implies !ends_path(#[trigger] path[k]) by {
        if k >= 4 && k < 4 + name.len() {
            assert(path[k] == name[k - 4]);
        } else if k >= 4 + name.len() {
            assert(path[k] == ext[k - 4 - name.len()]);
        }
    }
    lemma_path_in_line(before, path, after);
}

#[verifier::spinoff_prover]
proof fn lemma_path_in_line(before: Seq<char>, path: Seq<char>, after: Seq<char>)
    requires
        !before.contains('s'),
        path.len() >= 4,
        path.subrange(0, 4) == "src/"@,
        forall|k: int| 0 <= k < path.len() ==> !ends_path(#[trigger] path[k]),
        is_source(path),
    ensures
        file_in(before + path + ":"@ + after) == Some(path),
{
    reveal_strlit("src/");
    reveal_strlit(":");
    let line = before + path + ":"@ + after;
    let at = before.len() as int;
    assert(line.subrange(at, at + 4) =~= path.subrange(0, 4));
    assert(occurs_at(line, "src/"@, at));
    lemma_find_from(line, "src/"@, 0);
    let i = find_from(line, "src/"@, 0)->0;
    assert(line.subrange(i, i + 4)[0] == line[i]);
    if i < at {
        assert(before.contains(before[i]));
    }
    let rest = line.skip(at);
    assert forall|k: int| 0 <= k < path.len() implies !ends_path(#[trigger] rest[k]) by {
        assert(rest[k] == path[k]);
    }
    assert(rest[path.len() as int] == ':');
    lemma_path_len(rest, path.len() as int);
    assert(path_head(rest) =~= path);
}

proof fn lemma_path_len(s: Seq<char>, n: int)
    requires
        0 <= n < s.len(),
        forall|k: int| 0 <= k < n ==> !ends_path(#[trigger] s[k]),
        ends_path(s[n]),
    ensures
        path_len(s) == n,
    decreases n,
{
    if n > 0 {
        let rest = s.skip(1);
        assert forall|k: int| 0 <= k < n - 1 implies !ends_path(#[trigger] rest[k]) by {
            assert(rest[k] == s[k + 1]);
        }
        assert(rest[n - 1] == s[n]);
        lemma_path_len(rest, n - 1);
    }
}

} // verus!

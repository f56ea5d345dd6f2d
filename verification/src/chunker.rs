//! Code in chunks: one for each symbol of a file, or windows of lines where no
//! symbol is found.

use crate::languages::{detect_language, extension, language_of};
use crate::numeral::{byte_count, byte_len, decimal, decimal_text, lemma_byte_len_concat};
use crate::split::{join, join_texts, lines, lines_of, words, words_of};
use crate::symbols::{
    extract_go_symbol, extract_java_symbol, extract_js_ts_symbol, extract_python_symbol,
    extract_rust_symbol, go_symbol, java_symbol, js_symbol, python_symbol, rust_symbol,
    symbol_model, SymbolType,
};
use crate::text::{
    chars_end_with, chars_of, chars_start_with, ends_with, is_space, last_is,
    law_trimmed_texts_end_with_their_last, law_trimming_takes_off_the_space, same_text,
    starts_with, text_of, texts, trim, trim_start, trimmed, trimmed_start,
};
use std::collections::hash_map::DefaultHasher;
use std::hash::Hasher;
use vstd::prelude::*;
use vstd::slice::slice_subrange;
use vstd::std_specs::hash::DefaultHasherAdditionalSpecFns;
use vstd::string::*;

verus! {

// ── Chunks ─────────────────────────────────────────────────────────────────
/// A piece of code. Lines are counted from one.
#[derive(Debug)]
pub struct CodeChunk {
    pub file_path: String,
    pub symbol_name: String,
    pub symbol_type: SymbolType,
    pub language: String,
    pub start_line: usize,
    pub end_line: usize,
    pub content: String,
    pub content_hash: String,
}

/// A piece of code.
pub struct ChunkModel {
    pub file_path: Seq<char>,
    pub symbol_name: Seq<char>,
    pub symbol_type: SymbolType,
    pub language: Seq<char>,
    pub start_line: nat,
    pub end_line: nat,
    pub content: Seq<char>,
    pub content_hash: Seq<char>,
}

impl View for CodeChunk {
    type V = ChunkModel;

    open spec fn view(&self) -> ChunkModel {
        ChunkModel {
            file_path: self.file_path@,
            symbol_name: self.symbol_name@,
            symbol_type: self.symbol_type,
            language: self.language@,
            start_line: self.start_line as nat,
            end_line: self.end_line as nat,
            content: self.content@,
            content_hash: self.content_hash@,
        }
    }
}

impl Clone for CodeChunk {
    fn clone(&self) -> (r: CodeChunk)
        ensures
            r == *self,
    {
        CodeChunk {
            file_path: self.file_path.clone(),
            symbol_name: self.symbol_name.clone(),
            symbol_type: self.symbol_type,
            language: self.language.clone(),
            start_line: self.start_line,
            end_line: self.end_line,
            content: self.content.clone(),
            content_hash: self.content_hash.clone(),
        }
    }
}

/// The chunks.
pub open spec fn chunk_models(v: Seq<CodeChunk>) -> Seq<ChunkModel> {
    v.map_values(|c: CodeChunk| c@)
}

/// A hexadecimal digit.
pub open spec fn hex(d: int) -> char {
    if d < 10 {
        ('0' as u32 + d) as char
    } else {
        ('a' as u32 + (d - 10)) as char
    }
}

/// The last `n` hexadecimal digits of a number.
pub open spec fn hex_digits(v: nat, n: nat) -> Seq<char>
    decreases n,
{
    if n == 0 {
        Seq::empty()
    } else {
        hex_digits(v / 16, (n - 1) as nat).push(hex((v % 16) as int))
    }
}

/// The hash of a text, by the standard library's hasher, in 16 digits.
pub open spec fn content_digest(s: Seq<char>) -> Seq<char> {
    hex_digits(
        DefaultHasher::spec_finish(seq![vstd::utf8::encode_utf8(s), seq![0xffu8]]) as nat,
        16,
    )
}

fn hex_digit(d: u64) -> (r: char)
    requires
        d < 16,
    ensures
        r == hex(d as int),
{
    let digits: [char; 16] = [
        '0', '1', '2', '3', '4', '5', '6', '7', '8', '9', 'a', 'b', 'c', 'd', 'e', 'f',
    ];
    digits[d as usize]
}

fn hex_text(v: u64, n: usize) -> (r: String)
    ensures
        r@ == hex_digits(v as nat, n as nat),
    decreases n,
{
    if n == 0 {
        let empty = String::new();
        assert(empty@ =~= Seq::empty());
        return empty;
    }
    let mut out = hex_text(v / 16, n - 1);
    out.push(hex_digit(v % 16));
    out
}

/// The hash of a text, by the standard library's hasher, in 16 digits.
pub fn compute_content_hash(content: &str) -> (r: String)
    ensures
        r@ == content_digest(content@),
{
    let mut hasher = DefaultHasher::new();
    let end: [u8; 1] = [0xffu8];
    hasher.write(content.as_bytes());
    hasher.write(end.as_slice());
    assert(end@ =~= seq![0xffu8]);
    assert(hasher@ =~= seq![vstd::utf8::encode_utf8(content@), seq![0xffu8]]);
    let v: u64 = hasher.finish();
    hex_text(v, 16)
}

/// The chunk of the lines from `a` to before `b`.
pub open spec fn chunk_of(
    path: Seq<char>,
    language: Seq<char>,
    ls: Seq<Seq<char>>,
    a: int,
    b: int,
    kind: SymbolType,
    name: Seq<char>,
) -> ChunkModel {
    let content = join(ls.subrange(a, b), "\n"@);
    ChunkModel {
        file_path: path,
        symbol_name: name,
        symbol_type: kind,
        language,
        start_line: (a + 1) as nat,
        end_line: b as nat,
        content,
        content_hash: content_digest(content),
    }
}

fn make_chunk(
    path: &str,
    language: &str,
    ls: &[String],
    a: usize,
    b: usize,
    kind: SymbolType,
    name: String,
) -> (r: CodeChunk)
    requires
        a < b <= ls@.len(),
    ensures
        r@ == chunk_of(path@, language@, texts(ls@), a as int, b as int, kind, name@),
{
    let part = slice_subrange(ls, a, b);
    assert(texts(part@) =~= texts(ls@).subrange(a as int, b as int));
    let content = join_texts(part, "\n");
    let content_hash = compute_content_hash(content.as_str());
    CodeChunk {
        file_path: path.to_owned(),
        symbol_name: name,
        symbol_type: kind,
        language: language.to_owned(),
        start_line: a + 1,
        end_line: b,
        content,
        content_hash,
    }
}

fn push_chunk(out: &mut Vec<CodeChunk>, c: CodeChunk)
    ensures
        chunk_models(final(out)@) == chunk_models(old(out)@).push(c@),
{
    let ghost before = chunk_models(out@);
    let ghost m = c@;
    out.push(c);
    assert(chunk_models(out@) =~= before.push(m));
}

// ── Windows ────────────────────────────────────────────────────────────────
/// Where a window that starts at `a` ends.
pub open spec fn window_end(len: int, a: int, size: int) -> int {
    if len - a <= size {
        len
    } else {
        a + size
    }
}

/// The windows of the lines from `a` on. Each starts `overlap` lines before the
/// end of the one before it.
pub open spec fn windows(
    path: Seq<char>,
    language: Seq<char>,
    ls: Seq<Seq<char>>,
    a: int,
    size: int,
    overlap: int,
) -> Seq<ChunkModel>
    decreases ls.len() - a,
{
    if a < 0 || a >= ls.len() || size <= 0 {
        Seq::empty()
    } else {
        let end = window_end(ls.len() as int, a, size);
        let first = chunk_of(
            path,
            language,
            ls,
            a,
            end,
            SymbolType::Other,
            "chunk_"@ + decimal((a + 1) as nat),
        );
        if end >= ls.len() || overlap >= size || overlap < 0 {
            seq![first]
        } else {
            seq![first] + windows(path, language, ls, end - overlap, size, overlap)
        }
    }
}

/// The windows cover every line: what they start and end with, how each overlaps
/// the one before it, and how long they are: all but the last take `size` lines,
/// and the last takes no more.
#[verifier::spinoff_prover]
#[verifier::rlimit(40)]
pub proof fn law_windows_cover_all_lines(
    path: Seq<char>,
    language: Seq<char>,
    ls: Seq<Seq<char>>,
    a: int,
    size: int,
    overlap: int,
)
    requires
        0 <= a < ls.len(),
        0 <= overlap < size,
    ensures
        ({
            let w = windows(path, language, ls, a, size, overlap);
            &&& w.len() > 0
            &&& w[0].start_line == a + 1
            &&& w.last().end_line == ls.len()
            &&& forall|i: int|
                0 < i < w.len() ==> (#[trigger] w[i]).start_line == w[i - 1].end_line + 1 - overlap
            &&& forall|i: int|
                0 <= i < w.len() - 1 ==> (#[trigger] w[i]).end_line - w[i].start_line + 1 == size
            &&& 1 <= w.last().end_line - w.last().start_line + 1 <= size
        }),
    decreases ls.len() - a,
{
    let w = windows(path, language, ls, a, size, overlap);
    let end = window_end(ls.len() as int, a, size);
    if end < ls.len() {
        law_windows_cover_all_lines(path, language, ls, end - overlap, size, overlap);
        let rest = windows(path, language, ls, end - overlap, size, overlap);
        assert(w.len() == 1 + rest.len());
        assert(w.last() == rest.last());
        assert forall|i: int| 0 < i < w.len() implies (#[trigger] w[i]).start_line == w[i
            - 1].end_line + 1 - overlap by {
            assert(w[i] == rest[i - 1]);
            if i > 1 {
                assert(w[i - 1] == rest[i - 2]);
            }
        }
        assert forall|i: int| 0 <= i < w.len() - 1 implies (#[trigger] w[i]).end_line
            - w[i].start_line + 1 == size by {
            if i > 0 {
                assert(w[i] == rest[i - 1]);
            }
        }
    }
}

// ── Languages with braces ──────────────────────────────────────────────────
/// The languages whose blocks stand in braces.
#[derive(Clone, Copy, PartialEq, Eq, Structural)]
pub enum BraceLanguage {
    Rust,
    Script,
    Go,
    Java,
}

/// What a line declares.
pub open spec fn line_symbol(l: BraceLanguage, line: Seq<char>) -> Option<(SymbolType, Seq<char>)> {
    match l {
        BraceLanguage::Rust => rust_symbol(line),
        BraceLanguage::Script => js_symbol(line),
        BraceLanguage::Go => go_symbol(line),
        BraceLanguage::Java => java_symbol(line),
    }
}

fn detect_symbol(l: BraceLanguage, line: &str) -> (r: Option<(SymbolType, String)>)
    ensures
        symbol_model(r) == line_symbol(l, line@),
{
    match l {
        BraceLanguage::Rust => extract_rust_symbol(line),
        BraceLanguage::Script => extract_js_ts_symbol(line),
        BraceLanguage::Go => extract_go_symbol(line),
        BraceLanguage::Java => extract_java_symbol(line),
    }
}

/// How many braces a text opens more than it closes.
pub open spec fn brace_depth(s: Seq<char>) -> int
    decreases s.len(),
{
    if s.len() == 0 {
        0
    } else if s.last() == '{' {
        brace_depth(s.drop_last()) + 1
    } else if s.last() == '}' {
        brace_depth(s.drop_last()) - 1
    } else {
        brace_depth(s.drop_last())
    }
}

/// The last line of a block that starts before `i` with `depth` braces open:
/// the first one at whose end no brace is open, or that ends a declaration
/// without a block, or the last of all.
pub open spec fn block_end(ls: Seq<Seq<char>>, i: int, depth: int, opened: bool) -> int
    decreases ls.len() - i,
{
    if i < 0 || i >= ls.len() - 1 {
        ls.len() - 1
    } else {
        let d = depth + brace_depth(ls[i]);
        let o = opened || ls[i].contains('{');
        if o && d == 0 || !o && ends_with(trim(ls[i]), ";"@) {
            i
        } else {
            block_end(ls, i + 1, d, o)
        }
    }
}

/// The line declares nothing by itself: it is blank or a comment.
pub open spec fn is_skipped(t: Seq<char>) -> bool {
    t.len() == 0 || starts_with(t, "//"@) || starts_with(t, "#"@)
}

/// The chunks of the lines from `i` on.
pub open spec fn brace_chunks(
    path: Seq<char>,
    language: Seq<char>,
    l: BraceLanguage,
    ls: Seq<Seq<char>>,
    i: int,
) -> Seq<ChunkModel>
    decreases ls.len() - i,
    via brace_chunks_shrink
{
    if i < 0 || i >= ls.len() {
        Seq::empty()
    } else {
        let t = trim(ls[i]);
        match line_symbol(l, t) {
            Some(s) if !is_skipped(t) => {
                let end = if ends_with(t, ";"@) && !t.contains('{') {
                    i
                } else {
                    block_end(ls, i, 0, false)
                };
                seq![chunk_of(path, language, ls, i, end + 1, s.0, s.1)] + brace_chunks(
                    path,
                    language,
                    l,
                    ls,
                    end + 1,
                )
            },
            _ => brace_chunks(path, language, l, ls, i + 1),
        }
    }
}

proof fn lemma_block_end(ls: Seq<Seq<char>>, i: int, depth: int, opened: bool)
    requires
        0 <= i < ls.len(),
    ensures
        i <= block_end(ls, i, depth, opened) < ls.len(),
    decreases ls.len() - i,
{
    if i < ls.len() - 1 {
        lemma_block_end(
            ls,
            i + 1,
            depth + brace_depth(ls[i]),
            opened || ls[i].contains('{'),
        );
    }
}

#[via_fn]
proof fn brace_chunks_shrink(
    path: Seq<char>,
    language: Seq<char>,
    l: BraceLanguage,
    ls: Seq<Seq<char>>,
    i: int,
) {
    if 0 <= i < ls.len() {
        lemma_block_end(ls, i, 0, false);
    }
}

/// Chunks lie within the file, one behind the other.
pub proof fn law_chunks_do_not_overlap(
    path: Seq<char>,
    language: Seq<char>,
    l: BraceLanguage,
    ls: Seq<Seq<char>>,
    i: int,
)
    requires
        0 <= i,
    ensures
        ({
            let c = brace_chunks(path, language, l, ls, i);
            &&& forall|k: int|
                0 <= k < c.len() ==> i < (#[trigger] c[k]).start_line <= c[k].end_line <= ls.len()
            &&& forall|a: int, b: int|
                0 <= a < b < c.len() ==> (#[trigger] c[a]).end_line < (#[trigger] c[b]).start_line
        }),
    decreases ls.len() - i,
{
    if i < ls.len() {
        let t = trim(ls[i]);
        lemma_block_end(ls, i, 0, false);
        match line_symbol(l, t) {
            Some(s) if !is_skipped(t) => {
                let end = if ends_with(t, ";"@) && !t.contains('{') {
                    i
                } else {
                    block_end(ls, i, 0, false)
                };
                law_chunks_do_not_overlap(path, language, l, ls, end + 1);
                let rest = brace_chunks(path, language, l, ls, end + 1);
                let c = brace_chunks(path, language, l, ls, i);
                assert(c.len() == 1 + rest.len());
                assert forall|k: int| 0 <= k < c.len() implies i < (#[trigger] c[k]).start_line
                    <= c[k].end_line <= ls.len() by {
                    if k > 0 {
                        assert(c[k] == rest[k - 1]);
                    }
                }
                assert forall|a: int, b: int| 0 <= a < b < c.len() implies (
                #[trigger] c[a]).end_line < (#[trigger] c[b]).start_line by {
                    assert(c[b] == rest[b - 1]);
                    if a > 0 {
                        assert(c[a] == rest[a - 1]);
                    }
                }
            },
            _ => {
                law_chunks_do_not_overlap(path, language, l, ls, i + 1);
            },
        }
    }
}

// ── Python ─────────────────────────────────────────────────────────────────
/// How far a line is indented, in bytes.
pub open spec fn indent(line: Seq<char>) -> int {
    byte_len(line) - byte_len(trim_start(line))
}

/// The first line from `i` on that is not blank and not indented further than
/// `base`.
pub open spec fn outdent(ls: Seq<Seq<char>>, i: int, base: int) -> int
    decreases ls.len() - i,
{
    if i < 0 || i >= ls.len() {
        ls.len() as int
    } else if trim(ls[i]).len() > 0 && indent(ls[i]) <= base {
        i
    } else {
        outdent(ls, i + 1, base)
    }
}

/// The first of the lines that decorate line `i`.
pub open spec fn decorated_from(ls: Seq<Seq<char>>, i: int) -> int
    decreases i,
{
    if i > 0 && starts_with(trim(ls[i - 1]), "@"@) {
        decorated_from(ls, i - 1)
    } else {
        i
    }
}

/// The last line from `low` to `i` that is not blank, or `low`.
pub open spec fn last_filled(ls: Seq<Seq<char>>, low: int, i: int) -> int
    decreases i - low,
{
    if i > low && trim(ls[i]).len() == 0 {
        last_filled(ls, low, i - 1)
    } else {
        i
    }
}

/// The line is an import.
pub open spec fn is_python_import(t: Seq<char>) -> bool {
    starts_with(t, "import "@) || starts_with(t, "from "@)
}

/// What an import names: its second word.
pub open spec fn second_word(t: Seq<char>) -> Seq<char> {
    if words(t).len() > 1 {
        words(t)[1]
    } else {
        "*"@
    }
}

/// The chunks of the lines from `i` on.
pub open spec fn python_chunks(path: Seq<char>, ls: Seq<Seq<char>>, i: int) -> Seq<ChunkModel>
    decreases ls.len() - i,
    via python_chunks_shrink
{
    if i < 0 || i >= ls.len() {
        Seq::empty()
    } else {
        let t = trim(ls[i]);
        if is_python_import(t) {
            seq![
                chunk_of(path, "python"@, ls, i, i + 1, SymbolType::Import, second_word(t)),
            ] + python_chunks(path, ls, i + 1)
        } else {
            match python_symbol(t) {
                Some(s) => {
                    let start = decorated_from(ls, i);
                    let next = outdent(ls, i + 1, indent(ls[i]));
                    let end = last_filled(ls, start, next - 1);
                    seq![chunk_of(path, "python"@, ls, start, end + 1, s.0, s.1)] + python_chunks(
                        path,
                        ls,
                        next,
                    )
                },
                None => python_chunks(path, ls, i + 1),
            }
        }
    }
}

proof fn lemma_outdent(ls: Seq<Seq<char>>, i: int, base: int)
    requires
        0 <= i <= ls.len(),
    ensures
        i <= outdent(ls, i, base) <= ls.len(),
    decreases ls.len() - i,
{
    if i < ls.len() && !(trim(ls[i]).len() > 0 && indent(ls[i]) <= base) {
        lemma_outdent(ls, i + 1, base);
    }
}

proof fn lemma_decorated(ls: Seq<Seq<char>>, i: int)
    requires
        0 <= i,
    ensures
        0 <= decorated_from(ls, i) <= i,
    decreases i,
{
    if i > 0 && starts_with(trim(ls[i - 1]), "@"@) {
        lemma_decorated(ls, i - 1);
    }
}

proof fn lemma_last_filled(ls: Seq<Seq<char>>, low: int, i: int)
    requires
        low <= i,
    ensures
        low <= last_filled(ls, low, i) <= i,
    decreases i - low,
{
    if i > low && trim(ls[i]).len() == 0 {
        lemma_last_filled(ls, low, i - 1);
    }
}

#[via_fn]
proof fn python_chunks_shrink(path: Seq<char>, ls: Seq<Seq<char>>, i: int) {
    if 0 <= i < ls.len() {
        lemma_outdent(ls, i + 1, indent(ls[i]));
    }
}

/// Chunks lie within the file.
pub proof fn law_python_chunks_lie_within(path: Seq<char>, ls: Seq<Seq<char>>, i: int)
    requires
        0 <= i,
    ensures
        forall|k: int|
            0 <= k < python_chunks(path, ls, i).len() ==> 1 <= (#[trigger] python_chunks(
                path,
                ls,
                i,
            )[k]).start_line <= python_chunks(path, ls, i)[k].end_line <= ls.len(),
    decreases ls.len() - i,
{
    if i < ls.len() {
        let t = trim(ls[i]);
        lemma_outdent(ls, i + 1, indent(ls[i]));
        lemma_decorated(ls, i);
        let start = decorated_from(ls, i);
        let next = outdent(ls, i + 1, indent(ls[i]));
        lemma_last_filled(ls, start, next - 1);
        law_python_chunks_lie_within(path, ls, i + 1);
        law_python_chunks_lie_within(path, ls, next);
        let c = python_chunks(path, ls, i);
        assert forall|k: int| 0 <= k < c.len() implies 1 <= (#[trigger] c[k]).start_line
            <= c[k].end_line <= ls.len() by {
            if is_python_import(t) {
                if k > 0 {
                    assert(c[k] == python_chunks(path, ls, i + 1)[k - 1]);
                }
            } else if python_symbol(t) is Some {
                if k > 0 {
                    assert(c[k] == python_chunks(path, ls, next)[k - 1]);
                }
            }
        }
    }
}

// ── The chunker ────────────────────────────────────────────────────────────
/// Cuts code into chunks. Where no symbol is found, windows of so many lines
/// overlap by so many.
#[derive(Debug, Clone, Copy, PartialEq, Eq, Structural)]
pub struct CodeChunker {
    pub fallback_chunk_size: usize,
    pub fallback_overlap: usize,
}

/// Windows move on: they are longer than they overlap, or one of them takes all
/// the lines.
pub open spec fn windows_move(c: CodeChunker, len: nat) -> bool {
    c.fallback_overlap < c.fallback_chunk_size || len <= c.fallback_chunk_size
}

/// The chunks of lines, or windows if there are none.
pub open spec fn or_windows(
    c: CodeChunker,
    path: Seq<char>,
    language: Seq<char>,
    ls: Seq<Seq<char>>,
    chunks: Seq<ChunkModel>,
) -> Seq<ChunkModel> {
    if chunks.len() == 0 {
        windows(
            path,
            language,
            ls,
            0,
            c.fallback_chunk_size as int,
            c.fallback_overlap as int,
        )
    } else {
        chunks
    }
}

/// The brace language of a name, if it is one.
pub open spec fn brace_language(language: Seq<char>) -> Option<BraceLanguage> {
    if language == "rust"@ {
        Some(BraceLanguage::Rust)
    } else if language == "typescript"@ || language == "javascript"@ {
        Some(BraceLanguage::Script)
    } else if language == "go"@ {
        Some(BraceLanguage::Go)
    } else if language == "java"@ {
        Some(BraceLanguage::Java)
    } else {
        None
    }
}

/// The chunks of the lines of a file that hold a symbol each.
pub open spec fn symbol_chunks(
    path: Seq<char>,
    language: Seq<char>,
    ls: Seq<Seq<char>>,
) -> Seq<ChunkModel> {
    match brace_language(language) {
        Some(l) => brace_chunks(path, language, l, ls, 0),
        None => if language == "python"@ {
            python_chunks(path, ls, 0)
        } else {
            Seq::empty()
        },
    }
}

/// The chunks of the lines of a file.
pub open spec fn file_chunks(
    c: CodeChunker,
    path: Seq<char>,
    language: Seq<char>,
    ls: Seq<Seq<char>>,
) -> Seq<ChunkModel> {
    or_windows(c, path, language, ls, symbol_chunks(path, language, ls))
}

/// The chunker comes to an end: there are symbols, or its windows move on.
pub open spec fn can_chunk(
    c: CodeChunker,
    path: Seq<char>,
    language: Seq<char>,
    ls: Seq<Seq<char>>,
) -> bool {
    symbol_chunks(path, language, ls).len() > 0 || windows_move(c, ls.len())
}

/// How many braces a line opens and closes.
fn count_braces(line: &[char]) -> (r: (usize, usize))
    ensures
        r.0 - r.1 == brace_depth(line@),
        r.0 > 0 <==> line@.contains('{'),
{
    let mut opens: usize = 0;
    let mut closes: usize = 0;
    let mut i: usize = 0;
    assert(line@.take(0) =~= Seq::empty());
    while i < line.len()
        invariant
            opens <= i <= line@.len(),
            closes <= i,
            opens - closes == brace_depth(line@.take(i as int)),
            opens > 0 <==> line@.take(i as int).contains('{'),
        decreases line@.len() - i,
    {
        let ghost before = line@.take(i as int);
        let ghost next = line@.take(i + 1);
        proof {
            assert(next.drop_last() =~= before);
            assert(next.last() == line@[i as int]);
            if before.contains('{') {
                let k = choose|k: int| 0 <= k < before.len() && before[k] == '{';
                assert(next[k] == '{');
            }
            if next.contains('{') && line@[i as int] != '{' {
                let k = choose|k: int| 0 <= k < next.len() && next[k] == '{';
                assert(before[k] == '{');
            }
        }
        if line[i] == '{' {
            opens += 1;
            assert(next[i as int] == '{');
        } else if line[i] == '}' {
            closes += 1;
        }
        i += 1;
    }
    assert(line@.take(i as int) =~= line@);
    (opens, closes)
}

fn find_block_end(ls: &[String], start: usize) -> (r: usize)
    requires
        start < ls@.len(),
    ensures
        r == block_end(texts(ls@), start as int, 0, false),
        start <= r < ls@.len(),
{
    let ghost all = texts(ls@);
    let mut opens: u128 = 0;
    let mut closes: u128 = 0;
    let mut i: usize = start;
    proof {
        lemma_block_end(all, start as int, 0, false);
    }
    while i < ls.len() - 1
        invariant
            start <= i < ls@.len(),
            all == texts(ls@),
            opens <= i * usize::MAX,
            closes <= i * usize::MAX,
            block_end(all, i as int, opens - closes, opens > 0) == block_end(
                all,
                start as int,
                0,
                false,
            ),
        decreases ls@.len() - i,
    {
        let line = chars_of(ls[i].as_str());
        assert(all[i as int] == line@);
        let (o, c) = count_braces(line.as_slice());
        proof {
            assert(i * usize::MAX + usize::MAX == (i + 1) * usize::MAX) by (nonlinear_arith);
            assert((i + 1) * usize::MAX <= u64::MAX * u64::MAX) by (nonlinear_arith)
                requires
                    i + 1 <= usize::MAX,
                    usize::MAX <= u64::MAX,
            ;
        }
        opens += o as u128;
        closes += c as u128;
        if opens > 0 && opens == closes {
            return i;
        }
        if opens == 0 && chars_end_with(trimmed(line.as_slice()), ";") {
            return i;
        }
        i += 1;
    }
    i
}

impl CodeChunker {
    /// Windows of so many lines that overlap by so many.
    pub fn new(fallback_chunk_size: usize, fallback_overlap: usize) -> (r: CodeChunker)
        ensures
            r.fallback_chunk_size == fallback_chunk_size,
            r.fallback_overlap == fallback_overlap,
    {
        CodeChunker { fallback_chunk_size, fallback_overlap }
    }

    fn chunk_brace_language(
        &self,
        path: &str,
        ls: &[String],
        language: &str,
        l: BraceLanguage,
    ) -> (r: Vec<CodeChunk>)
        requires
            brace_chunks(path@, language@, l, texts(ls@), 0).len() > 0 || windows_move(
                *self,
                ls@.len(),
            ),
        ensures
            chunk_models(r@) == or_windows(
                *self,
                path@,
                language@,
                texts(ls@),
                brace_chunks(path@, language@, l, texts(ls@), 0),
            ),
    {
        let ghost all = texts(ls@);
        let ghost goal = brace_chunks(path@, language@, l, all, 0);
        let mut chunks: Vec<CodeChunk> = Vec::new();
        let mut i: usize = 0;
        assert(chunk_models(chunks@) + goal =~= goal);
        while i < ls.len()
            invariant
                i <= ls@.len(),
                all == texts(ls@),
                chunk_models(chunks@) + brace_chunks(path@, language@, l, all, i as int) == goal,
            decreases ls@.len() - i,
        {
            let line = chars_of(ls[i].as_str());
            let t = trimmed(line.as_slice());
            let ghost before = chunk_models(chunks@);
            assert(all[i as int] == line@);
            if t.len() == 0 || chars_start_with(t, "//") || chars_start_with(t, "#") {
                i += 1;
                continue;
            }
            let text = text_of(t);
            match detect_symbol(l, text.as_str()) {
                Some((kind, name)) => {
                    let end: usize = if chars_end_with(t, ";") && count_braces(t).0 == 0 {
                        i
                    } else {
                        find_block_end(ls, i)
                    };
                    let ghost c = chunk_of(
                        path@,
                        language@,
                        all,
                        i as int,
                        end + 1,
                        kind,
                        name@,
                    );
                    let ghost rest = brace_chunks(path@, language@, l, all, end + 1);
                    push_chunk(
                        &mut chunks,
                        make_chunk(path, language, ls, i, end + 1, kind, name),
                    );
                    assert(before + (seq![c] + rest) =~= before.push(c) + rest);
                    i = end + 1;
                },
                None => {
                    i += 1;
                },
            }
        }
        proof {
            assert(brace_chunks(path@, language@, l, all, i as int) =~= Seq::empty());
            assert(chunk_models(chunks@) + Seq::<ChunkModel>::empty() =~= chunk_models(chunks@));
        }
        if chunks.len() == 0 {
            return self.chunk_fallback(path, ls, language);
        }
        chunks
    }

    fn chunk_python(&self, path: &str, ls: &[String]) -> (r: Vec<CodeChunk>)
        requires
            python_chunks(path@, texts(ls@), 0).len() > 0 || windows_move(*self, ls@.len()),
        ensures
            chunk_models(r@) == or_windows(
                *self,
                path@,
                "python"@,
                texts(ls@),
                python_chunks(path@, texts(ls@), 0),
            ),
    {
        let ghost all = texts(ls@);
        let ghost goal = python_chunks(path@, all, 0);
        let mut chunks: Vec<CodeChunk> = Vec::new();
        let mut i: usize = 0;
        assert(chunk_models(chunks@) + goal =~= goal);
        while i < ls.len()
            invariant
                i <= ls@.len(),
                all == texts(ls@),
                chunk_models(chunks@) + python_chunks(path@, all, i as int) == goal,
            decreases ls@.len() - i,
        {
            let line = chars_of(ls[i].as_str());
            let t = trimmed(line.as_slice());
            let ghost before = chunk_models(chunks@);
            assert(all[i as int] == line@);
            let text = text_of(t);
            if chars_start_with(t, "import ") || chars_start_with(t, "from ") {
                let ws = words_of(text.as_str());
                let name = if ws.len() > 1 {
                    assert(words(t@)[1] == ws@[1]@);
                    ws[1].clone()
                } else {
                    "*".to_owned()
                };
                let ghost c = chunk_of(
                    path@,
                    "python"@,
                    all,
                    i as int,
                    i + 1,
                    SymbolType::Import,
                    name@,
                );
                let ghost rest = python_chunks(path@, all, i + 1);
                push_chunk(
                    &mut chunks,
                    make_chunk(path, "python", ls, i, i + 1, SymbolType::Import, name),
                );
                assert(before + (seq![c] + rest) =~= before.push(c) + rest);
                i += 1;
                continue;
            }
            match extract_python_symbol(text.as_str()) {
                Some((kind, name)) => {
                    let start: usize = find_decorated(ls, i);
                    let base: usize = indent_of(ls[i].as_str());
                    let next: usize = find_outdent(ls, i + 1, base);
                    let end: usize = find_last_filled(ls, start, next - 1);
                    let ghost c = chunk_of(
                        path@,
                        "python"@,
                        all,
                        start as int,
                        end + 1,
                        kind,
                        name@,
                    );
                    let ghost rest = python_chunks(path@, all, next as int);
                    push_chunk(
                        &mut chunks,
                        make_chunk(path, "python", ls, start, end + 1, kind, name),
                    );
                    assert(before + (seq![c] + rest) =~= before.push(c) + rest);
                    i = next;
                },
                None => {
                    i += 1;
                },
            }
        }
        proof {
            assert(python_chunks(path@, all, i as int) =~= Seq::empty());
            assert(chunk_models(chunks@) + Seq::<ChunkModel>::empty() =~= chunk_models(chunks@));
        }
        if chunks.len() == 0 {
            return self.chunk_fallback(path, ls, "python");
        }
        chunks
    }

    /// The windows of lines.
    pub fn chunk_fallback(&self, path: &str, ls: &[String], language: &str) -> (r: Vec<CodeChunk>)
        requires
            windows_move(*self, ls@.len()),
        ensures
            chunk_models(r@) == windows(
                path@,
                language@,
                texts(ls@),
                0,
                self.fallback_chunk_size as int,
                self.fallback_overlap as int,
            ),
    {
        let ghost all = texts(ls@);
        let size: usize = self.fallback_chunk_size;
        let overlap: usize = self.fallback_overlap;
        let ghost goal = windows(path@, language@, all, 0, size as int, overlap as int);
        let mut chunks: Vec<CodeChunk> = Vec::new();
        let mut start: usize = 0;
        let mut done = ls.len() == 0;
        assert(chunk_models(chunks@) + goal =~= goal);
        assert(done ==> goal =~= Seq::empty());
        while !done
            invariant
                all == texts(ls@),
                size == self.fallback_chunk_size,
                overlap == self.fallback_overlap,
                windows_move(*self, ls@.len()),
                !done ==> start < ls@.len() && chunk_models(chunks@) + windows(
                    path@,
                    language@,
                    all,
                    start as int,
                    size as int,
                    overlap as int,
                ) == goal,
                done ==> chunk_models(chunks@) == goal,
            decreases
                    ls@.len() - start + (if done {
                        0int
                    } else {
                        1int
                    }),
        {
            let ghost before = chunk_models(chunks@);
            let end: usize = if ls.len() - start <= size {
                ls.len()
            } else {
                start + size
            };
            let number = decimal_text(start as u64 + 1);
            let mut name = "chunk_".to_owned();
            name.append(number.as_str());
            let ghost c = chunk_of(
                path@,
                language@,
                all,
                start as int,
                end as int,
                SymbolType::Other,
                name@,
            );
            push_chunk(
                &mut chunks,
                make_chunk(path, language, ls, start, end, SymbolType::Other, name),
            );
            if end >= ls.len() {
                done = true;
                assert(before + seq![c] =~= before.push(c));
            } else {
                let ghost rest = windows(
                    path@,
                    language@,
                    all,
                    end - overlap,
                    size as int,
                    overlap as int,
                );
                assert(before + (seq![c] + rest) =~= before.push(c) + rest);
                start = end - overlap;
            }
        }
        chunks
    }

    /// The chunks of a file.
    pub fn chunk_file(&self, path: &str, content: &str) -> (r: Vec<CodeChunk>)
        requires
            can_chunk(*self, path@, language_of(extension(path@)), lines(content@)),
        ensures
            chunk_models(r@) == file_chunks(
                *self,
                path@,
                language_of(extension(path@)),
                lines(content@),
            ),
    {
        let language = detect_language(path);
        let all = lines_of(content);
        let ls = all.as_slice();
        let lang = language.as_str();
        if same_text(lang, "rust") {
            self.chunk_brace_language(path, ls, lang, BraceLanguage::Rust)
        } else if same_text(lang, "typescript") || same_text(lang, "javascript") {
            self.chunk_brace_language(path, ls, lang, BraceLanguage::Script)
        } else if same_text(lang, "go") {
            self.chunk_brace_language(path, ls, lang, BraceLanguage::Go)
        } else if same_text(lang, "java") {
            self.chunk_brace_language(path, ls, lang, BraceLanguage::Java)
        } else if same_text(lang, "python") {
            self.chunk_python(path, ls)
        } else {
            self.chunk_fallback(path, ls, lang)
        }
    }
}

impl Default for CodeChunker {
    fn default() -> (r: CodeChunker)
        ensures
            r.fallback_chunk_size == 50,
            r.fallback_overlap == 10,
    {
        CodeChunker::new(50, 10)
    }
}

proof fn lemma_trim_start_bytes(s: Seq<char>)
    ensures
        byte_len(trim_start(s)) <= byte_len(s),
    decreases s.len(),
{
    if s.len() > 0 && is_space(s[0]) {
        let rest = s.subrange(1, s.len() as int);
        lemma_trim_start_bytes(rest);
        assert(s =~= seq![s[0]] + rest);
        lemma_byte_len_concat(seq![s[0]], rest);
    }
}

fn indent_of(line: &str) -> (r: usize)
    ensures
        r == indent(line@),
{
    let chars = chars_of(line);
    let rest = text_of(trimmed_start(chars.as_slice()));
    proof {
        lemma_trim_start_bytes(line@);
    }
    byte_count(line) - byte_count(rest.as_str())
}

fn find_decorated(ls: &[String], i: usize) -> (r: usize)
    requires
        i < ls@.len(),
    ensures
        r == decorated_from(texts(ls@), i as int),
        r <= i,
{
    let ghost all = texts(ls@);
    let mut n: usize = i;
    while n > 0
        invariant
            n <= i < ls@.len(),
            all == texts(ls@),
            decorated_from(all, n as int) == decorated_from(all, i as int),
        decreases n,
    {
        let line = chars_of(ls[n - 1].as_str());
        assert(all[n - 1] == line@);
        if !chars_start_with(trimmed(line.as_slice()), "@") {
            return n;
        }
        n -= 1;
    }
    n
}

fn find_outdent(ls: &[String], from: usize, base: usize) -> (r: usize)
    requires
        from <= ls@.len(),
    ensures
        r == outdent(texts(ls@), from as int, base as int),
        from <= r <= ls@.len(),
{
    let ghost all = texts(ls@);
    let mut i: usize = from;
    proof {
        lemma_outdent(all, from as int, base as int);
    }
    while i < ls.len()
        invariant
            from <= i <= ls@.len(),
            all == texts(ls@),
            outdent(all, i as int, base as int) == outdent(all, from as int, base as int),
        decreases ls@.len() - i,
    {
        let line = chars_of(ls[i].as_str());
        assert(all[i as int] == line@);
        if trimmed(line.as_slice()).len() > 0 && indent_of(ls[i].as_str()) <= base {
            return i;
        }
        i += 1;
    }
    i
}

fn find_last_filled(ls: &[String], low: usize, from: usize) -> (r: usize)
    requires
        low <= from < ls@.len(),
    ensures
        r == last_filled(texts(ls@), low as int, from as int),
        low <= r <= from,
{
    let ghost all = texts(ls@);
    let mut i: usize = from;
    while i > low
        invariant
            low <= i <= from < ls@.len(),
            all == texts(ls@),
            last_filled(all, low as int, i as int) == last_filled(
                all,
                low as int,
                from as int,
            ),
        decreases i,
    {
        let line = chars_of(ls[i].as_str());
        assert(all[i as int] == line@);
        if trimmed(line.as_slice()).len() > 0 {
            return i;
        }
        i -= 1;
    }
    i
}

// ── Laws ───────────────────────────────────────────────────────────────────
/// How often a character occurs in the lines from `a` to before `b`.
pub open spec fn occurrences(ls: Seq<Seq<char>>, a: int, b: int, c: char) -> nat {
    ls.subrange(a, b).flatten().to_multiset().count(c)
}

/// A declaration that begins in line `a` is complete with line `k`: a brace has been
/// opened and as many are closed as opened, or none has been opened and the line ends
/// with a semicolon.
pub open spec fn complete_at(ls: Seq<Seq<char>>, a: int, k: int) -> bool {
    if occurrences(ls, a, k + 1, '{') > 0 {
        occurrences(ls, a, k + 1, '{') == occurrences(ls, a, k + 1, '}')
    } else {
        last_is(ls[k], ';')
    }
}

proof fn lemma_brace_depth(s: Seq<char>)
    ensures
        brace_depth(s) == s.to_multiset().count('{') - s.to_multiset().count('}'),
        s.contains('{') <==> s.to_multiset().count('{') > 0,
    decreases s.len(),
{
    broadcast use vstd::seq_lib::group_to_multiset_ensures;

    if s.len() > 0 {
        lemma_brace_depth(s.drop_last());
        assert(s =~= s.drop_last().push(s.last()));
        assert(s.to_multiset() =~= s.drop_last().to_multiset().insert(s.last()));
    }
}

proof fn lemma_occurrences(ls: Seq<Seq<char>>, a: int, k: int, c: char)
    requires
        0 <= a <= k < ls.len(),
    ensures
        occurrences(ls, a, k + 1, c) == occurrences(ls, a, k, c) + ls[k].to_multiset().count(c),
{
    let before = ls.subrange(a, k);
    assert(ls.subrange(a, k + 1) =~= before.push(ls[k]));
    before.lemma_flatten_push(ls[k]);
    vstd::seq_lib::lemma_multiset_commutative(before.flatten(), ls[k]);
}

proof fn lemma_block_end_is_complete(ls: Seq<Seq<char>>, a: int, i: int)
    requires
        0 <= a <= i < ls.len(),
        forall|k: int| a <= k < i ==> !#[trigger] complete_at(ls, a, k),
    ensures
        ({
            let e = block_end(
                ls,
                i,
                occurrences(ls, a, i, '{') - occurrences(ls, a, i, '}'),
                occurrences(ls, a, i, '{') > 0,
            );
            &&& i <= e < ls.len()
            &&& e < ls.len() - 1 ==> complete_at(ls, a, e)
            &&& forall|k: int| a <= k < e ==> !#[trigger] complete_at(ls, a, k)
        }),
    decreases ls.len() - i,
{
    if i < ls.len() - 1 {
        lemma_occurrences(ls, a, i, '{');
        lemma_occurrences(ls, a, i, '}');
        lemma_brace_depth(ls[i]);
        reveal_strlit(";");
        law_trimmed_texts_end_with_their_last(ls[i], ";"@);
        if !complete_at(ls, a, i) {
            lemma_block_end_is_complete(ls, a, i + 1);
        }
    }
}

proof fn lemma_no_occurrences(ls: Seq<Seq<char>>, a: int, c: char)
    requires
        0 <= a <= ls.len(),
    ensures
        occurrences(ls, a, a, c) == 0,
{
    broadcast use vstd::seq_lib::group_to_multiset_ensures;

    let none = ls.subrange(a, a).flatten();
    assert(none =~= Seq::<char>::empty());
    if none.to_multiset().count(c) > 0 {
        assert(none.contains(c));
    }
}

/// The chunk of a declaration holds its block: it ends with the first line at whose
/// end the declaration is complete, and with the last line if it never is.
pub proof fn law_blocks_end_where_they_are_complete(ls: Seq<Seq<char>>, a: int)
    requires
        0 <= a < ls.len(),
    ensures
        a <= block_end(ls, a, 0, false) < ls.len(),
        block_end(ls, a, 0, false) < ls.len() - 1 ==> complete_at(
            ls,
            a,
            block_end(ls, a, 0, false),
        ),
        forall|k: int|
            a <= k < block_end(ls, a, 0, false) ==> !#[trigger] complete_at(ls, a, k),
{
    lemma_no_occurrences(ls, a, '{');
    lemma_no_occurrences(ls, a, '}');
    lemma_block_end_is_complete(ls, a, a);
}

/// The line declares a symbol: it says so, and is neither blank nor a comment.
pub open spec fn declares(l: BraceLanguage, line: Seq<char>, kind: SymbolType, name: Seq<char>) -> bool {
    &&& line_symbol(l, trim(line)) == Some((kind, name))
    &&& trim(line).len() > 0
    &&& !starts_with(trim(line), "//"@)
    &&& !starts_with(trim(line), "#"@)
}

proof fn lemma_one_line(ls: Seq<Seq<char>>, a: int)
    requires
        0 <= a < ls.len(),
        ends_with(trim(ls[a]), ";"@),
        !trim(ls[a]).contains('{'),
    ensures
        complete_at(ls, a, a),
{
    reveal_strlit(";");
    let s = ls[a];
    law_trimmed_texts_end_with_their_last(s, ";"@);
    law_trimming_takes_off_the_space(s);
    let (x, y) = choose|x: int, y: int|
        {
            &&& 0 <= x <= y <= s.len()
            &&& trim(s) == #[trigger] s.subrange(x, y)
            &&& forall|i: int| 0 <= i < x || y <= i < s.len() ==> is_space(#[trigger] s[i])
            &&& x < y ==> !is_space(s[x]) && !is_space(s[y - 1])
        };
    if s.contains('{') {
        let k = choose|k: int| 0 <= k < s.len() && s[k] == '{';
        assert(x <= k < y);
        assert(s.subrange(x, y)[k - x] == '{');
    }
    lemma_no_occurrences(ls, a, '{');
    lemma_occurrences(ls, a, a, '{');
    lemma_brace_depth(s);
}

/// Where the chunk of a declaration in line `a` ends.
pub open spec fn ends_chunk(ls: Seq<Seq<char>>, a: int, e: int) -> bool {
    &&& a <= e < ls.len()
    &&& e < ls.len() - 1 ==> complete_at(ls, a, e)
    &&& forall|k: int| a <= k < e ==> !#[trigger] complete_at(ls, a, k)
}

/// The chunk begins with a line that declares its symbol, holds the lines up to where
/// the declaration is complete, and holds all of them.
#[verifier::opaque]
pub open spec fn holds_declaration(
    path: Seq<char>,
    language: Seq<char>,
    l: BraceLanguage,
    ls: Seq<Seq<char>>,
    c: ChunkModel,
) -> bool {
    let a = c.start_line - 1;
    &&& 0 <= a < ls.len()
    &&& declares(l, ls[a], c.symbol_type, c.symbol_name)
    &&& ends_chunk(ls, a, c.end_line - 1)
    &&& c.content == join(ls.subrange(a, c.end_line as int), "\n"@)
    &&& c.file_path == path && c.language == language
    &&& c.content_hash == content_digest(c.content)
}

/// Where the chunk of the declaration in line `i` ends.
spec fn chunk_end(ls: Seq<Seq<char>>, i: int) -> int {
    if ends_with(trim(ls[i]), ";"@) && !trim(ls[i]).contains('{') {
        i
    } else {
        block_end(ls, i, 0, false)
    }
}

proof fn lemma_chunk_end(
    path: Seq<char>,
    language: Seq<char>,
    l: BraceLanguage,
    ls: Seq<Seq<char>>,
    i: int,
    s: (SymbolType, Seq<char>),
)
    requires
        0 <= i < ls.len(),
        line_symbol(l, trim(ls[i])) == Some(s),
        !is_skipped(trim(ls[i])),
    ensures
        i <= chunk_end(ls, i) < ls.len(),
        holds_declaration(
            path,
            language,
            l,
            ls,
            chunk_of(path, language, ls, i, chunk_end(ls, i) + 1, s.0, s.1),
        ),
{
    reveal(holds_declaration);
    law_blocks_end_where_they_are_complete(ls, i);
    if ends_with(trim(ls[i]), ";"@) && !trim(ls[i]).contains('{') {
        lemma_one_line(ls, i);
    }
}

/// Each chunk holds a declaration, whole.
#[verifier::spinoff_prover]
pub proof fn law_chunks_hold_declarations(
    path: Seq<char>,
    language: Seq<char>,
    l: BraceLanguage,
    ls: Seq<Seq<char>>,
    i: int,
)
    requires
        0 <= i,
    ensures
        forall|k: int|
            0 <= k < brace_chunks(path, language, l, ls, i).len() ==> holds_declaration(
                path,
                language,
                l,
                ls,
                #[trigger] brace_chunks(path, language, l, ls, i)[k],
            ),
    decreases ls.len() - i,
{
    if i < ls.len() {
        let c = brace_chunks(path, language, l, ls, i);
        let t = trim(ls[i]);
        match line_symbol(l, t) {
            Some(s) if !is_skipped(t) => {
                lemma_chunk_end(path, language, l, ls, i, s);
                let end = chunk_end(ls, i);
                law_chunks_hold_declarations(path, language, l, ls, end + 1);
                let rest = brace_chunks(path, language, l, ls, end + 1);
                assert(c == seq![chunk_of(path, language, ls, i, end + 1, s.0, s.1)] + rest);
                assert forall|k: int| 0 <= k < c.len() implies holds_declaration(
                    path,
                    language,
                    l,
                    ls,
                    #[trigger] c[k],
                ) by {
                    if k > 0 {
                        assert(c[k] == rest[k - 1]);
                    }
                }
            },
            _ => {
                law_chunks_hold_declarations(path, language, l, ls, i + 1);
                assert(c == brace_chunks(path, language, l, ls, i + 1));
            },
        }
    } else {
        assert(brace_chunks(path, language, l, ls, i).len() == 0);
    }
}

/// Each line that declares a symbol is in a chunk.
pub proof fn law_declarations_are_in_chunks(
    path: Seq<char>,
    language: Seq<char>,
    l: BraceLanguage,
    ls: Seq<Seq<char>>,
    i: int,
    j: int,
)
    requires
        0 <= i <= j < ls.len(),
        line_symbol(l, trim(ls[j])) is Some,
        trim(ls[j]).len() > 0,
        !starts_with(trim(ls[j]), "//"@),
        !starts_with(trim(ls[j]), "#"@),
    ensures
        exists|k: int|
            0 <= k < brace_chunks(path, language, l, ls, i).len() && (#[trigger] brace_chunks(
                path,
                language,
                l,
                ls,
                i,
            )[k]).start_line <= j + 1 <= brace_chunks(path, language, l, ls, i)[k].end_line,
    decreases ls.len() - i,
{
    let c = brace_chunks(path, language, l, ls, i);
    let t = trim(ls[i]);
    match line_symbol(l, t) {
        Some(s) if !is_skipped(t) => {
            lemma_chunk_end(path, language, l, ls, i, s);
            let end = chunk_end(ls, i);
            let rest = brace_chunks(path, language, l, ls, end + 1);
            let head = chunk_of(path, language, ls, i, end + 1, s.0, s.1);
            assert(c == seq![head] + rest);
            if j <= end {
                assert(c[0] == head);
            } else {
                law_declarations_are_in_chunks(path, language, l, ls, end + 1, j);
                let k = choose|k: int|
                    0 <= k < rest.len() && (#[trigger] rest[k]).start_line <= j + 1
                        <= rest[k].end_line;
                assert(c[k + 1] == rest[k]);
            }
        },
        _ => {
            assert(i < j);
            law_declarations_are_in_chunks(path, language, l, ls, i + 1, j);
        },
    }
}

/// Lines `a` to `e` are the block of the declaration in line `i`, and `next` is the first
/// line behind it: the decorators stand before it, all that is indented further belongs to
/// it, and blank lines at its end do not.
pub open spec fn is_python_block(ls: Seq<Seq<char>>, i: int, a: int, e: int, next: int) -> bool {
    &&& 0 <= a <= i < next <= ls.len()
    &&& a <= e < next
    &&& forall|k: int| a <= k < i ==> starts_with(trim(#[trigger] ls[k]), "@"@)
    &&& a > 0 ==> !starts_with(trim(ls[a - 1]), "@"@)
    &&& forall|k: int|
        i < k < next ==> trim(#[trigger] ls[k]).len() == 0 || indent(ls[k]) > indent(ls[i])
    &&& next < ls.len() ==> trim(ls[next]).len() > 0 && indent(ls[next]) <= indent(ls[i])
    &&& forall|k: int| e < k < next ==> trim(#[trigger] ls[k]).len() == 0
    &&& e > a ==> trim(ls[e]).len() > 0
}

/// The chunk of a declaration is its block, under its name, and the rest of the lines are
/// looked through from behind it.
pub proof fn law_python_chunks_hold_the_block(path: Seq<char>, ls: Seq<Seq<char>>, i: int)
    requires
        0 <= i < ls.len(),
        !starts_with(trim(ls[i]), "import "@),
        !starts_with(trim(ls[i]), "from "@),
        python_symbol(trim(ls[i])) is Some,
    ensures
        exists|a: int, e: int, next: int|
            #![trigger is_python_block(ls, i, a, e, next)]
            {
                let all = python_chunks(path, ls, i);
                let found = python_symbol(trim(ls[i]))->0;
                &&& is_python_block(ls, i, a, e, next)
                &&& all.len() > 0
                &&& all[0].start_line == a + 1
                &&& all[0].end_line == e + 1
                &&& all[0].content == join(ls.subrange(a, e + 1), "\n"@)
                &&& all[0].symbol_type == found.0
                &&& all[0].symbol_name == found.1
                &&& all[0].file_path == path
                &&& all.skip(1) == python_chunks(path, ls, next)
            },
{
    let a = decorated_from(ls, i);
    let next = outdent(ls, i + 1, indent(ls[i]));
    let e = last_filled(ls, a, next - 1);
    lemma_outdent(ls, i + 1, indent(ls[i]));
    lemma_decorated(ls, i);
    lemma_block_end_of(ls, i + 1, indent(ls[i]));
    lemma_decorators(ls, i);
    lemma_filled(ls, a, next - 1);
    assert(is_python_block(ls, i, a, e, next));
    let all = python_chunks(path, ls, i);
    assert(all.skip(1) =~= python_chunks(path, ls, next));
}

proof fn lemma_block_end_of(ls: Seq<Seq<char>>, i: int, base: int)
    requires
        0 <= i <= ls.len(),
    ensures
        ({
            let n = outdent(ls, i, base);
            &&& i <= n <= ls.len()
            &&& n < ls.len() ==> trim(ls[n]).len() > 0 && indent(ls[n]) <= base
            &&& forall|k: int|
                i <= k < n ==> trim(#[trigger] ls[k]).len() == 0 || indent(ls[k]) > base
        }),
    decreases ls.len() - i,
{
    if i < ls.len() && !(trim(ls[i]).len() > 0 && indent(ls[i]) <= base) {
        lemma_block_end_of(ls, i + 1, base);
    }
}

proof fn lemma_decorators(ls: Seq<Seq<char>>, i: int)
    requires
        0 <= i < ls.len(),
    ensures
        ({
            let a = decorated_from(ls, i);
            &&& 0 <= a <= i
            &&& forall|k: int| a <= k < i ==> starts_with(trim(#[trigger] ls[k]), "@"@)
            &&& a > 0 ==> !starts_with(trim(ls[a - 1]), "@"@)
        }),
    decreases i,
{
    if i > 0 && starts_with(trim(ls[i - 1]), "@"@) {
        lemma_decorators(ls, i - 1);
    }
}

proof fn lemma_filled(ls: Seq<Seq<char>>, low: int, i: int)
    requires
        0 <= low <= i < ls.len(),
    ensures
        ({
            let e = last_filled(ls, low, i);
            &&& low <= e <= i
            &&& e > low ==> trim(ls[e]).len() > 0
            &&& forall|k: int| e < k <= i ==> trim(#[trigger] ls[k]).len() == 0
        }),
    decreases i - low,
{
    if i > low && trim(ls[i]).len() == 0 {
        lemma_filled(ls, low, i - 1);
    }
}

/// An import is a chunk of one line that is named by what it imports, and a line that
/// declares nothing starts no chunk.
pub proof fn law_python_imports_are_chunks(path: Seq<char>, ls: Seq<Seq<char>>, i: int)
    requires
        0 <= i < ls.len(),
    ensures
        ({
            let t = trim(ls[i]);
            let all = python_chunks(path, ls, i);
            let imports = starts_with(t, "import "@) || starts_with(t, "from "@);
            &&& imports ==> all.len() > 0 && all[0].start_line == i + 1 && all[0].end_line == i + 1
                && all[0].symbol_type == SymbolType::Import && all.skip(1) == python_chunks(
                path,
                ls,
                i + 1,
            )
            &&& imports && words(t).len() > 1 ==> all[0].symbol_name == words(t)[1]
            &&& !imports && python_symbol(t) is None ==> all == python_chunks(path, ls, i + 1)
        }),
{
    let all = python_chunks(path, ls, i);
    if is_python_import(trim(ls[i])) {
        assert(all.skip(1) =~= python_chunks(path, ls, i + 1));
    }
}

} // verus!

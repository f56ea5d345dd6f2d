//! Symbols: what a line of code declares, by language.

use crate::languages::{find_last, last_place};
use crate::numeral::{
    byte_count, byte_len, char_width, lemma_byte_len_bounds, lemma_byte_len_concat,
};
use crate::text::{
    char_alphanumeric, char_uppercase, chars_of, chars_start_with, chars_strip_front,
    contains_text, find_char, find_from, find_text_from, has_text, index_of_char, is_space,
    lemma_find_from, lemma_nothing_to_trim, lemma_other_start, lemma_starts_with_part,
    starts_with, str_views, strip_front, text_of, trim, trim_start, trimmed, trimmed_start,
};
use vstd::prelude::*;
use vstd::slice::slice_subrange;
use vstd::string::*;

verus! {

/// What a symbol is.
#[derive(Debug, Clone, Copy, PartialEq, Eq, Structural)]
pub enum SymbolType {
    Function,
    Method,
    Class,
    Struct,
    Enum,
    Trait,
    Interface,
    Import,
    Module,
    Other,
}

impl SymbolType {
    /// The kind of symbol in words.
    pub open spec fn words(self) -> Seq<char> {
        match self {
            SymbolType::Function => "function"@,
            SymbolType::Method => "method"@,
            SymbolType::Class => "class"@,
            SymbolType::Struct => "struct"@,
            SymbolType::Enum => "enum"@,
            SymbolType::Trait => "trait"@,
            SymbolType::Interface => "interface"@,
            SymbolType::Import => "import"@,
            SymbolType::Module => "module"@,
            SymbolType::Other => "other"@,
        }
    }

    /// The kind of symbol in words.
    pub fn text(&self) -> (r: &'static str)
        ensures
            r@ == self.words(),
    {
        match self {
            SymbolType::Function => "function",
            SymbolType::Method => "method",
            SymbolType::Class => "class",
            SymbolType::Struct => "struct",
            SymbolType::Enum => "enum",
            SymbolType::Trait => "trait",
            SymbolType::Interface => "interface",
            SymbolType::Import => "import",
            SymbolType::Module => "module",
            SymbolType::Other => "other",
        }
    }
}

/// A symbol that a line declares, if it declares one.
pub open spec fn symbol_model(o: Option<(SymbolType, String)>) -> Option<(SymbolType, Seq<char>)> {
    match o {
        Some(p) => Some((p.0, p.1@)),
        None => None,
    }
}

// ── Pieces of lines ────────────────────────────────────────────────────────
/// The character may be part of a name.
pub open spec fn is_name_char(c: char) -> bool {
    char_alphanumeric(c) || c == '_'
}

/// How many characters at the head of a text may be part of a name.
pub open spec fn name_len(s: Seq<char>) -> int
    decreases s.len(),
{
    if s.len() == 0 || !is_name_char(s[0]) {
        0
    } else {
        1 + name_len(s.skip(1))
    }
}

/// The name at the head of a text, behind white space.
pub open spec fn ident(s: Seq<char>) -> Seq<char> {
    trim_start(s).take(name_len(trim_start(s)))
}

/// The name at the head of a text, behind white space.
pub fn extract_ident(s: &[char]) -> (r: String)
    ensures
        r@ == ident(s@),
{
    let t = trimmed_start(s);
    let mut n: usize = 0;
    assert(t@.skip(0) =~= t@);
    while n < t.len() && (t[n].is_alphanumeric() || t[n] == '_')
        invariant
            n <= t@.len(),
            name_len(t@) == n + name_len(t@.skip(n as int)),
        decreases t@.len() - n,
    {
        proof {
            assert(t@.skip(n as int)[0] == t@[n as int]);
            assert(t@.skip(n as int).skip(1) =~= t@.skip(n + 1));
        }
        n += 1;
    }
    proof {
        if n < t@.len() {
            assert(t@.skip(n as int)[0] == t@[n as int]);
        }
    }
    let head = slice_subrange(t, 0, n);
    assert(head@ =~= t@.take(n as int));
    text_of(head)
}

/// A text without the semicolons at its end.
pub open spec fn without_semicolons(s: Seq<char>) -> Seq<char>
    decreases s.len(),
{
    if s.len() > 0 && s.last() == ';' {
        without_semicolons(s.drop_last())
    } else {
        s
    }
}

fn trim_semicolons(s: &[char]) -> (r: &[char])
    ensures
        r@ == without_semicolons(s@),
{
    let mut n: usize = s.len();
    assert(s@.take(n as int) =~= s@);
    while n > 0 && s[n - 1] == ';'
        invariant
            n <= s@.len(),
            without_semicolons(s@.take(n as int)) == without_semicolons(s@),
        decreases n,
    {
        assert(s@.take(n as int).drop_last() =~= s@.take(n - 1));
        n -= 1;
    }
    let r = slice_subrange(s, 0, n);
    assert(r@ =~= s@.take(n as int));
    r
}

/// A text without the characters at its head that its first `n` bytes are part
/// of.
pub open spec fn skip_bytes(s: Seq<char>, n: nat) -> Seq<char>
    decreases s.len(),
{
    if n == 0 || s.len() == 0 {
        s
    } else if char_width(s[0]) >= n {
        s.skip(1)
    } else {
        skip_bytes(s.skip(1), (n - char_width(s[0])) as nat)
    }
}

fn width_of(c: char) -> (r: usize)
    ensures
        r == char_width(c),
        1 <= r <= 4,
{
    let n: u32 = c as u32;
    if n < 0x80 {
        1
    } else if n < 0x800 {
        2
    } else if n < 0x10000 {
        3
    } else {
        4
    }
}

fn after_bytes(s: &[char], n: usize) -> (r: &[char])
    ensures
        r@ == skip_bytes(s@, n as nat),
{
    let mut left: usize = n;
    let mut i: usize = 0;
    assert(s@.skip(0) =~= s@);
    while i < s.len() && left > 0
        invariant
            i <= s@.len(),
            skip_bytes(s@, n as nat) == skip_bytes(s@.skip(i as int), left as nat),
        decreases s@.len() - i,
    {
        let w: usize = width_of(s[i]);
        proof {
            assert(s@.skip(i as int)[0] == s@[i as int]);
            assert(s@.skip(i as int).skip(1) =~= s@.skip(i + 1));
        }
        if w >= left {
            left = 0;
        } else {
            left -= w;
        }
        i += 1;
    }
    let r = slice_subrange(s, i, s.len());
    assert(r@ =~= s@.skip(i as int));
    r
}

/// A text without a word and the white space behind it, if it begins so.
pub open spec fn without_keyword(s: Seq<char>, keyword: Seq<char>) -> Seq<char> {
    match strip_front(s, keyword) {
        Some(rest) => if rest.len() > 0 && rest[0] == ' ' {
            trim_start(rest)
        } else {
            s
        },
        None => s,
    }
}

fn strip_keyword<'a>(s: &'a [char], keyword: &str) -> (r: &'a [char])
    ensures
        r@ == without_keyword(s@, keyword@),
{
    match chars_strip_front(s, keyword) {
        Some(rest) => {
            if rest.len() > 0 && rest[0] == ' ' {
                return trimmed_start(rest);
            }
            s
        },
        None => s,
    }
}

/// A text without a head, if it has it.
pub open spec fn without_head(s: Seq<char>, head: Seq<char>) -> Seq<char> {
    match strip_front(s, head) {
        Some(rest) => rest,
        None => s,
    }
}

fn strip_head<'a>(s: &'a [char], head: &str) -> (r: &'a [char])
    ensures
        r@ == without_head(s@, head@),
{
    match chars_strip_front(s, head) {
        Some(rest) => rest,
        None => s,
    }
}

/// What is left of a text from a place on.
fn from_place(s: &[char], i: usize) -> (r: &[char])
    requires
        i <= s@.len(),
    ensures
        r@ == s@.skip(i as int),
{
    let r = slice_subrange(s, i, s.len());
    assert(r@ =~= s@.skip(i as int));
    r
}

fn to_place(s: &[char], i: usize) -> (r: &[char])
    requires
        i <= s@.len(),
    ensures
        r@ == s@.take(i as int),
{
    let r = slice_subrange(s, 0, i);
    assert(r@ =~= s@.take(i as int));
    r
}

fn holds(s: &[char], p: &str) -> (r: bool)
    ensures
        r == contains_text(s@, p@),
{
    let q = chars_of(p);
    has_text(s, q.as_slice())
}

fn symbol(kind: SymbolType, rest: &[char]) -> (r: Option<(SymbolType, String)>)
    ensures
        symbol_model(r) == Some((kind, ident(rest@))),
{
    Some((kind, extract_ident(rest)))
}

// ── Rust ───────────────────────────────────────────────────────────────────
/// A text without the visibility at its head.
pub open spec fn without_visibility(s: Seq<char>) -> Seq<char> {
    match strip_front(s, "pub("@) {
        Some(rest) => {
            let close = index_of_char(rest, ')', 0);
            if close < rest.len() {
                trim_start(rest.skip(close + 1))
            } else {
                without_head(s, "pub "@)
            }
        },
        None => without_head(s, "pub "@),
    }
}

fn strip_rust_vis(s: &[char]) -> (r: &[char])
    ensures
        r@ == without_visibility(s@),
{
    if let Some(rest) = chars_strip_front(s, "pub(") {
        let len: usize = rest.len();
        let close: usize = find_char(rest, ')', 0);
        if close < len {
            return trimmed_start(from_place(rest, close + 1));
        }
    }
    strip_head(s, "pub ")
}

/// Where the first angle bracket closes that is open, with `depth` of them open
/// before `i`, or the length of the text if none does.
pub open spec fn angle_end(s: Seq<char>, i: int, depth: int) -> int
    decreases s.len() - i,
{
    if i < 0 || i >= s.len() {
        s.len() as int
    } else if s[i] == '<' {
        angle_end(s, i + 1, depth + 1)
    } else if s[i] == '>' {
        if depth == 1 {
            i
        } else {
            angle_end(s, i + 1, depth - 1)
        }
    } else {
        angle_end(s, i + 1, depth)
    }
}

fn find_matching_angle_bracket(s: &[char]) -> (r: Option<usize>)
    ensures
        match r {
            Some(i) => i == angle_end(s@, 0, 0) && i < s@.len(),
            None => angle_end(s@, 0, 0) == s@.len(),
        },
{
    let mut depth: i128 = 0;
    let mut i: usize = 0;
    while i < s.len()
        invariant
            i <= s@.len(),
            -(i as int) <= depth <= i,
            angle_end(s@, i as int, depth as int) == angle_end(s@, 0, 0),
        decreases s@.len() - i,
    {
        if s[i] == '<' {
            depth += 1;
        } else if s[i] == '>' {
            depth -= 1;
            if depth == 0 {
                return Some(i);
            }
        }
        i += 1;
    }
    None
}

/// The line is an import.
pub open spec fn is_use(t: Seq<char>) -> bool {
    starts_with(t, "use "@) || starts_with(t, "pub use "@) || starts_with(t, "pub(crate) use "@)
        || starts_with(t, "pub(super) use "@)
}

/// What an `impl` is for: what comes behind its parameters.
pub open spec fn impl_name(t: Seq<char>) -> Seq<char> {
    let rest = t.skip(4);
    if rest.len() > 0 && rest[0] == '<' && angle_end(rest, 0, 0) < rest.len() {
        ident(rest.skip(angle_end(rest, 0, 0) + 1))
    } else {
        ident(rest)
    }
}

/// What a line of Rust declares.
pub open spec fn rust_symbol(line: Seq<char>) -> Option<(SymbolType, Seq<char>)> {
    let t = trim(line);
    let s = without_keyword(
        without_keyword(without_keyword(without_visibility(t), "async"@), "unsafe"@),
        "const"@,
    );
    if is_use(t) {
        match find_from(t, "use "@, 0) {
            Some(i) => Some((SymbolType::Import, trim(without_semicolons(t.skip(i + 4))))),
            None => None,
        }
    } else if let Some(rest) = strip_front(s, "fn "@) {
        Some((SymbolType::Function, ident(rest)))
    } else if let Some(rest) = strip_front(s, "struct "@) {
        Some((SymbolType::Struct, ident(rest)))
    } else if let Some(rest) = strip_front(s, "enum "@) {
        Some((SymbolType::Enum, ident(rest)))
    } else if let Some(rest) = strip_front(s, "trait "@) {
        Some((SymbolType::Trait, ident(rest)))
    } else if let Some(rest) = strip_front(s, "mod "@) {
        Some((SymbolType::Module, ident(rest)))
    } else if starts_with(t, "impl"@) && !starts_with(t, "impl!"@) && impl_name(t).len() > 0 {
        Some((SymbolType::Other, "impl "@ + impl_name(t)))
    } else {
        None
    }
}

/// What a line of Rust declares.
pub fn extract_rust_symbol(line: &str) -> (r: Option<(SymbolType, String)>)
    ensures
        symbol_model(r) == rust_symbol(line@),
{
    let chars = chars_of(line);
    let t = trimmed(chars.as_slice());
    if chars_start_with(t, "use ") || chars_start_with(t, "pub use ") || chars_start_with(
        t,
        "pub(crate) use ",
    ) || chars_start_with(t, "pub(super) use ") {
        let word = chars_of("use ");
        proof {
            reveal_strlit("use ");
            lemma_find_from(t@, word@, 0);
        }
        return match find_text_from(t, word.as_slice(), 0) {
            Some(i) => {
                let len: usize = t.len();
                assert(i + word@.len() <= len);
                let path = trimmed(trim_semicolons(from_place(t, i + 4)));
                Some((SymbolType::Import, text_of(path)))
            },
            None => None,
        };
    }
    let s = strip_rust_vis(t);
    let s = strip_keyword(s, "async");
    let s = strip_keyword(s, "unsafe");
    let s = strip_keyword(s, "const");
    if let Some(rest) = chars_strip_front(s, "fn ") {
        return symbol(SymbolType::Function, rest);
    }
    if let Some(rest) = chars_strip_front(s, "struct ") {
        return symbol(SymbolType::Struct, rest);
    }
    if let Some(rest) = chars_strip_front(s, "enum ") {
        return symbol(SymbolType::Enum, rest);
    }
    if let Some(rest) = chars_strip_front(s, "trait ") {
        return symbol(SymbolType::Trait, rest);
    }
    if let Some(rest) = chars_strip_front(s, "mod ") {
        return symbol(SymbolType::Module, rest);
    }
    if chars_start_with(t, "impl") && !chars_start_with(t, "impl!") {
        proof {
            reveal_strlit("impl");
        }
        let rest = from_place(t, 4);
        let mut body = rest;
        if rest.len() > 0 && rest[0] == '<' {
            let len: usize = rest.len();
            if let Some(p) = find_matching_angle_bracket(rest) {
                body = from_place(rest, p + 1);
            }
        }
        let name = extract_ident(body);
        assert(name@ == impl_name(t@));
        if !name.as_str().is_empty() {
            let mut full = "impl ".to_owned();
            full.append(name.as_str());
            return Some((SymbolType::Other, full));
        }
    }
    None
}

// ── JavaScript and TypeScript ──────────────────────────────────────────────
/// A text without the words of an export at its head.
pub open spec fn without_export(s: Seq<char>) -> Seq<char> {
    trim_start(without_head(without_head(s, "export "@), "default "@))
}

/// What is assigned to the name behind `const`, `let` or `var`, if that is a
/// function.
pub open spec fn assigned_function(rest: Seq<char>) -> Option<(SymbolType, Seq<char>)> {
    let name = ident(rest);
    let after = trim(skip_bytes(rest, byte_len(name)));
    if name.len() > 0 && (contains_text(after, "=>"@) || contains_text(after, "function"@)) {
        Some((SymbolType::Function, name))
    } else {
        None
    }
}

/// What an import names.
pub open spec fn js_import(rest: Seq<char>) -> Seq<char> {
    match find_from(rest, " from "@, 0) {
        Some(i) => trim(rest.take(i)),
        None => trim(without_semicolons(rest)),
    }
}

/// What a line of JavaScript or TypeScript declares.
pub open spec fn js_symbol(line: Seq<char>) -> Option<(SymbolType, Seq<char>)> {
    let t = trim(line);
    let s = without_keyword(without_keyword(without_export(t), "async"@), "declare"@);
    if let Some(rest) = strip_front(t, "import "@) {
        Some((SymbolType::Import, js_import(rest)))
    } else if let Some(rest) = strip_front(s, "function "@) {
        Some((SymbolType::Function, ident(rest)))
    } else if let Some(rest) = strip_front(s, "class "@) {
        Some((SymbolType::Class, ident(rest)))
    } else if let Some(rest) = strip_front(s, "interface "@) {
        Some((SymbolType::Interface, ident(rest)))
    } else if starts_with(s, "type "@) && contains_text(s, "="@) {
        Some((SymbolType::Other, ident(s.skip(5))))
    } else if let Some(rest) = strip_front(s, "enum "@) {
        Some((SymbolType::Enum, ident(rest)))
    } else if let Some(rest) = strip_front(s, "const "@) {
        assigned_function(rest)
    } else if let Some(rest) = strip_front(s, "let "@) {
        assigned_function(rest)
    } else if let Some(rest) = strip_front(s, "var "@) {
        assigned_function(rest)
    } else {
        None
    }
}

fn find_assigned(rest: &[char]) -> (r: Option<(SymbolType, String)>)
    ensures
        symbol_model(r) == assigned_function(rest@),
{
    let name = extract_ident(rest);
    if !name.as_str().is_empty() {
        let n: usize = byte_count(name.as_str());
        let after = trimmed(after_bytes(rest, n));
        if holds(after, "=>") || holds(after, "function") {
            return Some((SymbolType::Function, name));
        }
    }
    None
}

/// What a line of JavaScript or TypeScript declares.
pub fn extract_js_ts_symbol(line: &str) -> (r: Option<(SymbolType, String)>)
    ensures
        symbol_model(r) == js_symbol(line@),
{
    let chars = chars_of(line);
    let t = trimmed(chars.as_slice());
    if let Some(rest) = chars_strip_front(t, "import ") {
        let word = chars_of(" from ");
        proof {
            lemma_find_from(rest@, word@, 0);
        }
        let name = match find_text_from(rest, word.as_slice(), 0) {
            Some(i) => text_of(trimmed(to_place(rest, i))),
            None => text_of(trimmed(trim_semicolons(rest))),
        };
        return Some((SymbolType::Import, name));
    }
    let s = trimmed_start(strip_head(strip_head(t, "export "), "default "));
    let s = strip_keyword(s, "async");
    let s = strip_keyword(s, "declare");
    if let Some(rest) = chars_strip_front(s, "function ") {
        return symbol(SymbolType::Function, rest);
    }
    if let Some(rest) = chars_strip_front(s, "class ") {
        return symbol(SymbolType::Class, rest);
    }
    if let Some(rest) = chars_strip_front(s, "interface ") {
        return symbol(SymbolType::Interface, rest);
    }
    if chars_start_with(s, "type ") && holds(s, "=") {
        proof {
            reveal_strlit("type ");
        }
        return symbol(SymbolType::Other, from_place(s, 5));
    }
    if let Some(rest) = chars_strip_front(s, "enum ") {
        return symbol(SymbolType::Enum, rest);
    }
    if let Some(rest) = chars_strip_front(s, "const ") {
        return find_assigned(rest);
    }
    if let Some(rest) = chars_strip_front(s, "let ") {
        return find_assigned(rest);
    }
    if let Some(rest) = chars_strip_front(s, "var ") {
        return find_assigned(rest);
    }
    None
}

// ── Python ─────────────────────────────────────────────────────────────────
/// What a line of Python declares.
pub open spec fn python_symbol(line: Seq<char>) -> Option<(SymbolType, Seq<char>)> {
    let t = trim(line);
    if let Some(rest) = strip_front(t, "async def "@) {
        Some((SymbolType::Function, ident(rest)))
    } else if let Some(rest) = strip_front(t, "def "@) {
        Some((SymbolType::Function, ident(rest)))
    } else if let Some(rest) = strip_front(t, "class "@) {
        Some((SymbolType::Class, ident(rest)))
    } else {
        None
    }
}

/// What a line of Python declares.
pub fn extract_python_symbol(line: &str) -> (r: Option<(SymbolType, String)>)
    ensures
        symbol_model(r) == python_symbol(line@),
{
    let chars = chars_of(line);
    let t = trimmed(chars.as_slice());
    if let Some(rest) = chars_strip_front(t, "async def ") {
        return symbol(SymbolType::Function, rest);
    }
    if let Some(rest) = chars_strip_front(t, "def ") {
        return symbol(SymbolType::Function, rest);
    }
    if let Some(rest) = chars_strip_front(t, "class ") {
        return symbol(SymbolType::Class, rest);
    }
    None
}

// ── Go ─────────────────────────────────────────────────────────────────────
/// What a function is called: a method if it has a receiver and a name behind
/// it.
pub open spec fn go_function(rest: Seq<char>) -> (SymbolType, Seq<char>) {
    let close = index_of_char(rest, ')', 0);
    let name = ident(trim(rest.skip(close + 1)));
    if rest.len() > 0 && rest[0] == '(' && close < rest.len() && name.len() > 0 {
        (SymbolType::Method, name)
    } else {
        (SymbolType::Function, ident(rest))
    }
}

/// What a type is.
pub open spec fn go_type(rest: Seq<char>) -> Option<(SymbolType, Seq<char>)> {
    let name = ident(rest);
    let after = trim(skip_bytes(rest, byte_len(name)));
    if starts_with(after, "struct"@) {
        Some((SymbolType::Struct, name))
    } else if starts_with(after, "interface"@) {
        Some((SymbolType::Interface, name))
    } else if name.len() > 0 {
        Some((SymbolType::Other, name))
    } else {
        None
    }
}

/// What a line of Go declares.
pub open spec fn go_symbol(line: Seq<char>) -> Option<(SymbolType, Seq<char>)> {
    let t = trim(line);
    if let Some(rest) = strip_front(t, "func "@) {
        Some(go_function(rest))
    } else if let Some(rest) = strip_front(t, "type "@) {
        go_type(rest)
    } else if starts_with(t, "import "@) {
        Some((SymbolType::Import, "import"@))
    } else if let Some(rest) = strip_front(t, "package "@) {
        Some((SymbolType::Module, ident(rest)))
    } else {
        None
    }
}

/// What a line of Go declares.
pub fn extract_go_symbol(line: &str) -> (r: Option<(SymbolType, String)>)
    ensures
        symbol_model(r) == go_symbol(line@),
{
    let chars = chars_of(line);
    let t = trimmed(chars.as_slice());
    if let Some(rest) = chars_strip_front(t, "func ") {
        if rest.len() > 0 && rest[0] == '(' {
            let len: usize = rest.len();
            let close: usize = find_char(rest, ')', 0);
            if close < len {
                let name = extract_ident(trimmed(from_place(rest, close + 1)));
                if !name.as_str().is_empty() {
                    return Some((SymbolType::Method, name));
                }
            }
        }
        return symbol(SymbolType::Function, rest);
    }
    if let Some(rest) = chars_strip_front(t, "type ") {
        let name = extract_ident(rest);
        let n: usize = byte_count(name.as_str());
        let after = trimmed(after_bytes(rest, n));
        if chars_start_with(after, "struct") {
            return Some((SymbolType::Struct, name));
        }
        if chars_start_with(after, "interface") {
            return Some((SymbolType::Interface, name));
        }
        if !name.as_str().is_empty() {
            return Some((SymbolType::Other, name));
        }
        return None;
    }
    if chars_start_with(t, "import ") {
        return Some((SymbolType::Import, "import".to_owned()));
    }
    if let Some(rest) = chars_strip_front(t, "package ") {
        return symbol(SymbolType::Module, rest);
    }
    None
}

// ── Java ───────────────────────────────────────────────────────────────────
/// The words that may stand before a declaration.
pub open spec fn java_modifiers() -> Seq<Seq<char>> {
    seq![
        "public "@, "private "@, "protected "@, "static "@, "final "@, "abstract "@,
        "synchronized "@, "native "@, "strictfp "@,
    ]
}

/// A text without each of the first `n` modifiers in turn, where it begins so.
pub open spec fn modifier_pass(s: Seq<char>, n: nat) -> Seq<char>
    decreases n,
{
    if n == 0 {
        s
    } else {
        let t = modifier_pass(s, (n - 1) as nat);
        match strip_front(t, java_modifiers()[n - 1]) {
            Some(rest) => trim_start(rest),
            None => t,
        }
    }
}

proof fn lemma_trim_start_len(s: Seq<char>)
    ensures
        trim_start(s).len() <= s.len(),
    decreases s.len(),
{
    if s.len() > 0 && is_space(s[0]) {
        lemma_trim_start_len(s.subrange(1, s.len() as int));
    }
}

proof fn lemma_modifier_pass(s: Seq<char>, n: nat)
    ensures
        modifier_pass(s, n).len() <= s.len(),
    decreases n,
{
    if n > 0 {
        lemma_modifier_pass(s, (n - 1) as nat);
        let t = modifier_pass(s, (n - 1) as nat);
        match strip_front(t, java_modifiers()[n - 1]) {
            Some(rest) => {
                lemma_trim_start_len(rest);
            },
            None => {},
        }
    }
}

/// A text without the modifiers at its head.
pub open spec fn without_modifiers(s: Seq<char>) -> Seq<char>
    decreases s.len(),
    via without_modifiers_shrink
{
    let t = modifier_pass(s, 9);
    if t.len() == s.len() {
        t
    } else {
        without_modifiers(t)
    }
}

#[via_fn]
proof fn without_modifiers_shrink(s: Seq<char>) {
    lemma_modifier_pass(s, 9);
}

fn strip_java_modifiers(s: &[char]) -> (r: &[char])
    ensures
        r@ == without_modifiers(s@),
{
    let words: [&str; 9] = [
        "public ", "private ", "protected ", "static ", "final ", "abstract ", "synchronized ",
        "native ", "strictfp ",
    ];
    assert(str_views(words@) =~= java_modifiers());
    let mut result = s;
    loop
        invariant
            str_views(words@) == java_modifiers(),
            without_modifiers(result@) == without_modifiers(s@),
        decreases result@.len(),
    {
        let ghost before = result@;
        let len: usize = result.len();
        let mut i: usize = 0;
        while i < 9
            invariant
                i <= 9,
                str_views(words@) == java_modifiers(),
                result@ == modifier_pass(before, i as nat),
            decreases 9 - i,
        {
            assert(java_modifiers()[i as int] == words@[i as int]@);
            if let Some(rest) = chars_strip_front(result, words[i]) {
                result = trimmed_start(rest);
            }
            i += 1;
        }
        proof {
            lemma_modifier_pass(before, 9);
        }
        if result.len() == len {
            return result;
        }
    }
}

/// Each character may be part of a name.
pub open spec fn all_name_chars(s: Seq<char>) -> bool {
    forall|i: int| 0 <= i < s.len() ==> is_name_char(#[trigger] s[i])
}

fn is_name(s: &[char]) -> (r: bool)
    ensures
        r == all_name_chars(s@),
{
    let mut i: usize = 0;
    while i < s.len()
        invariant
            i <= s@.len(),
            forall|j: int| 0 <= j < i ==> is_name_char(#[trigger] s@[j]),
        decreases s@.len() - i,
    {
        if !(s[i].is_alphanumeric() || s[i] == '_') {
            assert(!is_name_char(s@[i as int]));
            return false;
        }
        i += 1;
    }
    true
}

/// The line begins like a statement.
pub open spec fn is_statement(s: Seq<char>) -> bool {
    starts_with(s, "if "@) || starts_with(s, "while "@) || starts_with(s, "for "@) || starts_with(
        s,
        "switch "@,
    ) || starts_with(s, "return "@)
}

/// The method or constructor that a line declares: the last word before the
/// bracket, or the only one if it begins in upper case.
pub open spec fn java_method(s: Seq<char>) -> Option<(SymbolType, Seq<char>)> {
    let paren = index_of_char(s, '(', 0);
    if paren >= s.len() || is_statement(s) {
        None
    } else {
        let before = trim(s.take(paren));
        let space = last_place(before, ' ', before.len());
        if space >= 0 {
            let name = before.skip(space + 1);
            if name.len() > 0 && all_name_chars(name) {
                Some((SymbolType::Function, name))
            } else {
                None
            }
        } else {
            let name = ident(before);
            if name.len() > 0 && char_uppercase(name[0]) {
                Some((SymbolType::Function, name))
            } else {
                None
            }
        }
    }
}

/// What a line of Java declares.
pub open spec fn java_symbol(line: Seq<char>) -> Option<(SymbolType, Seq<char>)> {
    let t = trim(line);
    let s = without_modifiers(t);
    if let Some(rest) = strip_front(t, "import "@) {
        Some((SymbolType::Import, without_semicolons(rest)))
    } else if let Some(rest) = strip_front(t, "package "@) {
        Some((SymbolType::Module, without_semicolons(rest)))
    } else if let Some(rest) = strip_front(s, "class "@) {
        Some((SymbolType::Class, ident(rest)))
    } else if let Some(rest) = strip_front(s, "interface "@) {
        Some((SymbolType::Interface, ident(rest)))
    } else if let Some(rest) = strip_front(s, "enum "@) {
        Some((SymbolType::Enum, ident(rest)))
    } else if let Some(rest) = strip_front(s, "record "@) {
        Some((SymbolType::Struct, ident(rest)))
    } else {
        java_method(s)
    }
}

fn find_java_method(s: &[char]) -> (r: Option<(SymbolType, String)>)
    ensures
        symbol_model(r) == java_method(s@),
{
    let paren: usize = find_char(s, '(', 0);
    if paren >= s.len() || chars_start_with(s, "if ") || chars_start_with(s, "while ")
        || chars_start_with(s, "for ") || chars_start_with(s, "switch ") || chars_start_with(
        s,
        "return ",
    ) {
        return None;
    }
    let before = trimmed(to_place(s, paren));
    let len: usize = before.len();
    match find_last(before, ' ') {
        Some(space) => {
            let name = from_place(before, space + 1);
            if name.len() > 0 && is_name(name) {
                Some((SymbolType::Function, text_of(name)))
            } else {
                None
            }
        },
        None => {
            let name = extract_ident(before);
            let chars = chars_of(name.as_str());
            if chars.len() > 0 && chars[0].is_uppercase() {
                Some((SymbolType::Function, name))
            } else {
                None
            }
        },
    }
}

/// What a line of Java declares.
pub fn extract_java_symbol(line: &str) -> (r: Option<(SymbolType, String)>)
    ensures
        symbol_model(r) == java_symbol(line@),
{
    let chars = chars_of(line);
    let t = trimmed(chars.as_slice());
    if let Some(rest) = chars_strip_front(t, "import ") {
        return Some((SymbolType::Import, text_of(trim_semicolons(rest))));
    }
    if let Some(rest) = chars_strip_front(t, "package ") {
        return Some((SymbolType::Module, text_of(trim_semicolons(rest))));
    }
    let s = strip_java_modifiers(t);
    if let Some(rest) = chars_strip_front(s, "class ") {
        return symbol(SymbolType::Class, rest);
    }
    if let Some(rest) = chars_strip_front(s, "interface ") {
        return symbol(SymbolType::Interface, rest);
    }
    if let Some(rest) = chars_strip_front(s, "enum ") {
        return symbol(SymbolType::Enum, rest);
    }
    if let Some(rest) = chars_strip_front(s, "record ") {
        return symbol(SymbolType::Struct, rest);
    }
    find_java_method(s)
}

// ── Laws ───────────────────────────────────────────────────────────────────
/// A name is read as far as it goes: up to a character that cannot be part of it.
pub proof fn law_names_are_read_whole(name: Seq<char>, tail: Seq<char>)
    requires
        is_identifier(name),
        ends_name(tail),
    ensures
        ident(name + tail) == name,
{
    lemma_name_len(name, tail);
    let s = name + tail;
    assert(s[0] == name[0]);
    assert(s.take(name.len() as int) =~= name);
}

/// The text is a name.
pub open spec fn is_identifier(s: Seq<char>) -> bool {
    s.len() > 0 && all_name_chars(s) && !is_space(s[0])
}

/// The text goes on with something that is not part of a name, and does not end with
/// white space.
pub open spec fn ends_name(s: Seq<char>) -> bool {
    s.len() > 0 ==> !is_name_char(s[0]) && !is_space(s.last())
}

proof fn lemma_name_len(name: Seq<char>, tail: Seq<char>)
    requires
        all_name_chars(name),
        tail.len() > 0 ==> !is_name_char(tail[0]),
    ensures
        name_len(name + tail) == name.len(),
    decreases name.len(),
{
    let s = name + tail;
    if name.len() > 0 {
        let rest = name.skip(1);
        assert forall|i: int| 0 <= i < rest.len() implies is_name_char(#[trigger] rest[i]) by {
            assert(rest[i] == name[i + 1]);
        }
        lemma_name_len(rest, tail);
        assert(s.skip(1) =~= rest + tail);
        assert(s[0] == name[0]);
    } else {
        assert(s =~= tail);
    }
}

/// The line of a declaration: it begins with `head`, then comes the name.
pub open spec fn declaration(head: Seq<char>, name: Seq<char>, tail: Seq<char>) -> Seq<char> {
    head + (name + tail)
}

proof fn lemma_declaration(head: Seq<char>, name: Seq<char>, tail: Seq<char>)
    requires
        head.len() > 0,
        !is_space(head[0]),
        is_identifier(name),
        ends_name(tail),
        tail.len() == 0 ==> !is_space(name.last()),
    ensures
        trim(declaration(head, name, tail)) == declaration(head, name, tail),
        strip_front(declaration(head, name, tail), head) == Some(name + tail),
        ident(name + tail) == name,
{
    let s = declaration(head, name, tail);
    lemma_starts_with_part(head, name + tail);
    law_names_are_read_whole(name, tail);
    assert(s[0] == head[0]);
    if tail.len() > 0 {
        assert(s.last() == tail.last());
    } else {
        assert(s.last() == name.last());
    }
    lemma_nothing_to_trim(s);
}

/// A line of Rust that begins with the word of a declaration, public or not, declares
/// a symbol of that kind with the name that follows.
pub proof fn law_rust_declarations_are_found(name: Seq<char>, tail: Seq<char>)
    requires
        is_identifier(name),
        ends_name(tail),
        tail.len() == 0 ==> !is_space(name.last()),
    ensures
        rust_symbol(declaration("fn "@, name, tail)) == Some((SymbolType::Function, name)),
        rust_symbol(declaration("struct "@, name, tail)) == Some((SymbolType::Struct, name)),
        rust_symbol(declaration("enum "@, name, tail)) == Some((SymbolType::Enum, name)),
        rust_symbol(declaration("trait "@, name, tail)) == Some((SymbolType::Trait, name)),
        rust_symbol(declaration("mod "@, name, tail)) == Some((SymbolType::Module, name)),
        rust_symbol(declaration("pub fn "@, name, tail)) == Some((SymbolType::Function, name)),
        rust_symbol(declaration("pub struct "@, name, tail)) == Some((SymbolType::Struct, name)),
        rust_symbol(declaration("pub enum "@, name, tail)) == Some((SymbolType::Enum, name)),
        rust_symbol(declaration("pub trait "@, name, tail)) == Some((SymbolType::Trait, name)),
        rust_symbol(declaration("pub mod "@, name, tail)) == Some((SymbolType::Module, name)),
{
    reveal_strlit("pub ");
    reveal_strlit("fn ");
    reveal_strlit("struct ");
    reveal_strlit("enum ");
    reveal_strlit("trait ");
    reveal_strlit("mod ");
    reveal_strlit("pub fn ");
    reveal_strlit("pub struct ");
    reveal_strlit("pub enum ");
    reveal_strlit("pub trait ");
    reveal_strlit("pub mod ");
    reveal_strlit("");
    assert(""@ + "fn "@ =~= "fn "@);
    assert(""@ + "struct "@ =~= "struct "@);
    assert(""@ + "enum "@ =~= "enum "@);
    assert(""@ + "trait "@ =~= "trait "@);
    assert(""@ + "mod "@ =~= "mod "@);
    assert("pub "@ + "fn "@ =~= "pub fn "@);
    assert("pub "@ + "struct "@ =~= "pub struct "@);
    assert("pub "@ + "enum "@ =~= "pub enum "@);
    assert("pub "@ + "trait "@ =~= "pub trait "@);
    assert("pub "@ + "mod "@ =~= "pub mod "@);
    lemma_rust(""@, "fn "@, name, tail);
    lemma_rust(""@, "struct "@, name, tail);
    lemma_rust(""@, "enum "@, name, tail);
    lemma_rust(""@, "trait "@, name, tail);
    lemma_rust(""@, "mod "@, name, tail);
    lemma_rust("pub "@, "fn "@, name, tail);
    lemma_rust("pub "@, "struct "@, name, tail);
    lemma_rust("pub "@, "enum "@, name, tail);
    lemma_rust("pub "@, "trait "@, name, tail);
    lemma_rust("pub "@, "mod "@, name, tail);
}

/// A declaration behind a visibility, none or `pub`.
proof fn lemma_rust(vis: Seq<char>, word: Seq<char>, name: Seq<char>, tail: Seq<char>)
    requires
        vis == ""@ || vis == "pub "@,
        word == "fn "@ || word == "struct "@ || word == "enum "@ || word == "trait "@ || word == "mod "@,
        is_identifier(name),
        ends_name(tail),
        tail.len() == 0 ==> !is_space(name.last()),
    ensures
        rust_symbol(declaration(vis + word, name, tail)) == Some(
            (
                if word == "fn "@ {
                    SymbolType::Function
                } else if word == "struct "@ {
                    SymbolType::Struct
                } else if word == "enum "@ {
                    SymbolType::Enum
                } else if word == "trait "@ {
                    SymbolType::Trait
                } else {
                    SymbolType::Module
                },
                name,
            ),
        ),
{
    reveal_strlit("");
    reveal_strlit("pub ");
    reveal_strlit("pub(");
    reveal_strlit("use ");
    reveal_strlit("pub use ");
    reveal_strlit("pub(crate) use ");
    reveal_strlit("pub(super) use ");
    reveal_strlit("async");
    reveal_strlit("unsafe");
    reveal_strlit("const");
    reveal_strlit("fn ");
    reveal_strlit("struct ");
    reveal_strlit("enum ");
    reveal_strlit("trait ");
    reveal_strlit("mod ");
    let t = declaration(vis + word, name, tail);
    let s = declaration(word, name, tail);
    let head = vis + word;
    assert(head[0] == 'p' || head[0] == word[0]);
    lemma_declaration(head, name, tail);
    lemma_declaration(word, name, tail);
    assert(s[0] == word[0] && s[1] == word[1]);
    if vis == "pub "@ {
        assert(t =~= vis + s);
        lemma_starts_with_part(vis, s);
        lemma_other_start(t, "pub("@, 3);
        lemma_other_start(t, "use "@, 0);
        assert(t[4] == s[0]);
        lemma_other_start(t, "pub use "@, 4);
        lemma_other_start(t, "pub(crate) use "@, 3);
        lemma_other_start(t, "pub(super) use "@, 3);
    } else {
        assert(t =~= s);
        lemma_other_start(t, "pub("@, 0);
        lemma_other_start(t, "pub "@, 0);
        lemma_other_start(t, "use "@, 0);
        lemma_other_start(t, "pub use "@, 0);
        lemma_other_start(t, "pub(crate) use "@, 0);
        lemma_other_start(t, "pub(super) use "@, 0);
    }
    lemma_other_start(s, "async"@, 0);
    lemma_other_start(s, "unsafe"@, 0);
    lemma_other_start(s, "const"@, 0);
    assert(without_visibility(t) == s);
    if word != "fn "@ {
        lemma_other_start(s, "fn "@, 0);
    }
    if word != "struct "@ {
        lemma_other_start(s, "struct "@, 0);
    }
    if word != "enum "@ {
        lemma_other_start(s, "enum "@, 0);
    }
    if word != "trait "@ {
        lemma_other_start(s, "trait "@, 0);
    }
    if word != "mod "@ {
        lemma_other_start(s, "mod "@, 0);
    }
}

/// A line of Python that begins with the word of a declaration declares the name that
/// follows.
pub proof fn law_python_declarations_are_found(name: Seq<char>, tail: Seq<char>)
    requires
        is_identifier(name),
        ends_name(tail),
        tail.len() == 0 ==> !is_space(name.last()),
    ensures
        python_symbol(declaration("def "@, name, tail)) == Some((SymbolType::Function, name)),
        python_symbol(declaration("async def "@, name, tail)) == Some((SymbolType::Function, name)),
        python_symbol(declaration("class "@, name, tail)) == Some((SymbolType::Class, name)),
{
    reveal_strlit("async def ");
    reveal_strlit("class ");
    reveal_strlit("def ");
    lemma_declaration("def "@, name, tail);
    let s_def = declaration("def "@, name, tail);
    assert(s_def[0] == "def "@[0]);
    lemma_other_start(s_def, "async def "@, 0);
    assert(s_def[0] == "def "@[0]);
    lemma_other_start(s_def, "class "@, 0);
    lemma_declaration("async def "@, name, tail);
    let s_async_def = declaration("async def "@, name, tail);
    assert(s_async_def[0] == "async def "@[0]);
    lemma_other_start(s_async_def, "def "@, 0);
    assert(s_async_def[0] == "async def "@[0]);
    lemma_other_start(s_async_def, "class "@, 0);
    lemma_declaration("class "@, name, tail);
    let s_class = declaration("class "@, name, tail);
    assert(s_class[0] == "class "@[0]);
    lemma_other_start(s_class, "async def "@, 0);
    assert(s_class[0] == "class "@[0]);
    lemma_other_start(s_class, "def "@, 0);
}

/// A line of JavaScript or TypeScript that begins with the word of a declaration
/// declares the name that follows.
pub proof fn law_js_declarations_are_found(name: Seq<char>, tail: Seq<char>)
    requires
        is_identifier(name),
        ends_name(tail),
        tail.len() == 0 ==> !is_space(name.last()),
    ensures
        js_symbol(declaration("function "@, name, tail)) == Some((SymbolType::Function, name)),
        js_symbol(declaration("class "@, name, tail)) == Some((SymbolType::Class, name)),
        js_symbol(declaration("interface "@, name, tail)) == Some((SymbolType::Interface, name)),
        js_symbol(declaration("enum "@, name, tail)) == Some((SymbolType::Enum, name)),
{
    reveal_strlit("async");
    reveal_strlit("class ");
    reveal_strlit("declare");
    reveal_strlit("default ");
    reveal_strlit("enum ");
    reveal_strlit("export ");
    reveal_strlit("function ");
    reveal_strlit("import ");
    reveal_strlit("interface ");
    reveal_strlit("type ");
    lemma_declaration("function "@, name, tail);
    let s_function = declaration("function "@, name, tail);
    assert(s_function[0] == "function "@[0]);
    lemma_other_start(s_function, "import "@, 0);
    assert(s_function[0] == "function "@[0]);
    lemma_other_start(s_function, "export "@, 0);
    assert(s_function[0] == "function "@[0]);
    lemma_other_start(s_function, "default "@, 0);
    assert(s_function[0] == "function "@[0]);
    lemma_other_start(s_function, "async"@, 0);
    assert(s_function[0] == "function "@[0]);
    lemma_other_start(s_function, "declare"@, 0);
    assert(s_function[0] == "function "@[0]);
    lemma_other_start(s_function, "class "@, 0);
    assert(s_function[0] == "function "@[0]);
    lemma_other_start(s_function, "interface "@, 0);
    assert(s_function[0] == "function "@[0]);
    lemma_other_start(s_function, "type "@, 0);
    assert(s_function[0] == "function "@[0]);
    lemma_other_start(s_function, "enum "@, 0);
    lemma_declaration("class "@, name, tail);
    let s_class = declaration("class "@, name, tail);
    assert(s_class[0] == "class "@[0]);
    lemma_other_start(s_class, "import "@, 0);
    assert(s_class[0] == "class "@[0]);
    lemma_other_start(s_class, "export "@, 0);
    assert(s_class[0] == "class "@[0]);
    lemma_other_start(s_class, "default "@, 0);
    assert(s_class[0] == "class "@[0]);
    lemma_other_start(s_class, "async"@, 0);
    assert(s_class[0] == "class "@[0]);
    lemma_other_start(s_class, "declare"@, 0);
    assert(s_class[0] == "class "@[0]);
    lemma_other_start(s_class, "function "@, 0);
    assert(s_class[0] == "class "@[0]);
    lemma_other_start(s_class, "interface "@, 0);
    assert(s_class[0] == "class "@[0]);
    lemma_other_start(s_class, "type "@, 0);
    assert(s_class[0] == "class "@[0]);
    lemma_other_start(s_class, "enum "@, 0);
    lemma_declaration("interface "@, name, tail);
    let s_interface = declaration("interface "@, name, tail);
    assert(s_interface[1] == "interface "@[1]);
    lemma_other_start(s_interface, "import "@, 1);
    assert(s_interface[0] == "interface "@[0]);
    lemma_other_start(s_interface, "export "@, 0);
    assert(s_interface[0] == "interface "@[0]);
    lemma_other_start(s_interface, "default "@, 0);
    assert(s_interface[0] == "interface "@[0]);
    lemma_other_start(s_interface, "async"@, 0);
    assert(s_interface[0] == "interface "@[0]);
    lemma_other_start(s_interface, "declare"@, 0);
    assert(s_interface[0] == "interface "@[0]);
    lemma_other_start(s_interface, "function "@, 0);
    assert(s_interface[0] == "interface "@[0]);
    lemma_other_start(s_interface, "class "@, 0);
    assert(s_interface[0] == "interface "@[0]);
    lemma_other_start(s_interface, "type "@, 0);
    assert(s_interface[0] == "interface "@[0]);
    lemma_other_start(s_interface, "enum "@, 0);
    lemma_declaration("enum "@, name, tail);
    let s_enum = declaration("enum "@, name, tail);
    assert(s_enum[0] == "enum "@[0]);
    lemma_other_start(s_enum, "import "@, 0);
    assert(s_enum[1] == "enum "@[1]);
    lemma_other_start(s_enum, "export "@, 1);
    assert(s_enum[0] == "enum "@[0]);
    lemma_other_start(s_enum, "default "@, 0);
    assert(s_enum[0] == "enum "@[0]);
    lemma_other_start(s_enum, "async"@, 0);
    assert(s_enum[0] == "enum "@[0]);
    lemma_other_start(s_enum, "declare"@, 0);
    assert(s_enum[0] == "enum "@[0]);
    lemma_other_start(s_enum, "function "@, 0);
    assert(s_enum[0] == "enum "@[0]);
    lemma_other_start(s_enum, "class "@, 0);
    assert(s_enum[0] == "enum "@[0]);
    lemma_other_start(s_enum, "interface "@, 0);
    assert(s_enum[0] == "enum "@[0]);
    lemma_other_start(s_enum, "type "@, 0);
}

/// A line of Go that begins with the word of a declaration declares the name that
/// follows.
pub proof fn law_go_declarations_are_found(name: Seq<char>, tail: Seq<char>)
    requires
        is_identifier(name),
        ends_name(tail),
        tail.len() == 0 ==> !is_space(name.last()),
    ensures
        go_symbol(declaration("package "@, name, tail)) == Some((SymbolType::Module, name)),
{
    reveal_strlit("func ");
    reveal_strlit("import ");
    reveal_strlit("package ");
    reveal_strlit("type ");
    lemma_declaration("package "@, name, tail);
    let s_package = declaration("package "@, name, tail);
    assert(s_package[0] == "package "@[0]);
    lemma_other_start(s_package, "func "@, 0);
    assert(s_package[0] == "package "@[0]);
    lemma_other_start(s_package, "type "@, 0);
    assert(s_package[0] == "package "@[0]);
    lemma_other_start(s_package, "import "@, 0);
}


/// A line of Go that declares a function names it, and one that declares a type tells
/// whether it is a struct or an interface.
pub proof fn law_go_functions_and_types_are_found(name: Seq<char>, tail: Seq<char>)
    requires
        is_identifier(name),
        ends_name(tail),
        tail.len() == 0 ==> !is_space(name.last()),
        name[0] != '(',
    ensures
        go_symbol(declaration("func "@, name, tail)) == Some((SymbolType::Function, name)),
        starts_with(trim(tail), "struct"@) ==> go_symbol(declaration("type "@, name, tail)) == Some(
            (SymbolType::Struct, name),
        ),
        starts_with(trim(tail), "interface"@) ==> go_symbol(declaration("type "@, name, tail))
            == Some((SymbolType::Interface, name)),
        !starts_with(trim(tail), "struct"@) && !starts_with(trim(tail), "interface"@) ==> go_symbol(
            declaration("type "@, name, tail),
        ) == Some((SymbolType::Other, name)),
{
    reveal_strlit("func ");
    reveal_strlit("type ");
    reveal_strlit("struct");
    reveal_strlit("interface");
    lemma_declaration("func "@, name, tail);
    lemma_declaration("type "@, name, tail);
    let s = declaration("type "@, name, tail);
    assert(s[0] == 't');
    lemma_other_start(s, "func "@, 0);
    assert((name + tail)[0] == name[0]);
    lemma_skip_name(name, tail);
    let t = trim(tail);
    if starts_with(t, "interface"@) {
        assert(t.subrange(0, 9)[0] == t[0]);
        lemma_other_start(t, "struct"@, 0);
    }
}

proof fn lemma_skip_name(name: Seq<char>, tail: Seq<char>)
    ensures
        skip_bytes(name + tail, byte_len(name)) == tail,
    decreases name.len(),
{
    let s = name + tail;
    if name.len() == 0 {
        assert(s =~= tail);
    } else {
        let rest = name.skip(1);
        lemma_byte_len_concat(seq![name[0]], rest);
        assert(seq![name[0]] + rest =~= name);
        assert(seq![name[0]].drop_last() =~= Seq::<char>::empty());
        assert(byte_len(seq![name[0]]) == byte_len(Seq::<char>::empty()) + char_width(name[0]));
        assert(s.skip(1) =~= rest + tail);
        lemma_skip_name(rest, tail);
        if byte_len(rest) == 0 {
            lemma_byte_len_bounds(rest);
            assert(rest =~= Seq::<char>::empty());
            assert(rest + tail =~= tail);
        }
    }
}

/// A line of Java that declares a type names it.
#[verifier::spinoff_prover]
pub proof fn law_java_types_are_found(name: Seq<char>, tail: Seq<char>)
    requires
        is_identifier(name),
        ends_name(tail),
        tail.len() == 0 ==> !is_space(name.last()),
    ensures
        java_symbol(declaration("class "@, name, tail)) == Some((SymbolType::Class, name)),
        java_symbol(declaration("interface "@, name, tail)) == Some((SymbolType::Interface, name)),
        java_symbol(declaration("enum "@, name, tail)) == Some((SymbolType::Enum, name)),
        java_symbol(declaration("record "@, name, tail)) == Some((SymbolType::Struct, name)),
{
    lemma_type_heads(name, tail);
    lemma_plain_type(declaration("class "@, name, tail));
    lemma_plain_type(declaration("interface "@, name, tail));
    lemma_plain_type(declaration("enum "@, name, tail));
    lemma_plain_type(declaration("record "@, name, tail));
}

/// A line of Java that declares a public type names it as one that is not public does.
#[verifier::spinoff_prover]
pub proof fn law_public_java_types_are_found(name: Seq<char>, tail: Seq<char>)
    requires
        is_identifier(name),
        ends_name(tail),
        tail.len() == 0 ==> !is_space(name.last()),
    ensures
        java_symbol("public "@ + declaration("class "@, name, tail)) == Some(
            (SymbolType::Class, name),
        ),
        java_symbol("public "@ + declaration("interface "@, name, tail)) == Some(
            (SymbolType::Interface, name),
        ),
        java_symbol("public "@ + declaration("enum "@, name, tail)) == Some(
            (SymbolType::Enum, name),
        ),
        java_symbol("public "@ + declaration("record "@, name, tail)) == Some(
            (SymbolType::Struct, name),
        ),
{
    lemma_type_heads(name, tail);
    lemma_public_type(declaration("class "@, name, tail));
    lemma_public_type(declaration("interface "@, name, tail));
    lemma_public_type(declaration("enum "@, name, tail));
    lemma_public_type(declaration("record "@, name, tail));
}

#[verifier::spinoff_prover]
#[verifier::rlimit(40)]
proof fn lemma_type_heads(name: Seq<char>, tail: Seq<char>)
    requires
        is_identifier(name),
        ends_name(tail),
        tail.len() == 0 ==> !is_space(name.last()),
    ensures
        ({
            let c = declaration("class "@, name, tail);
            let i = declaration("interface "@, name, tail);
            let e = declaration("enum "@, name, tail);
            let r = declaration("record "@, name, tail);
            &&& c.len() > 1 && c[0] == 'c' && trim(c) == c && !is_space(c.last())
            &&& i.len() > 1 && i[0] == 'i' && i[1] == 'n' && trim(i) == i && !is_space(i.last())
            &&& e.len() > 1 && e[0] == 'e' && trim(e) == e && !is_space(e.last())
            &&& r.len() > 1 && r[0] == 'r' && trim(r) == r && !is_space(r.last())
            &&& strip_front(c, "class "@) == Some(name + tail)
            &&& strip_front(i, "interface "@) == Some(name + tail)
            &&& strip_front(e, "enum "@) == Some(name + tail)
            &&& strip_front(r, "record "@) == Some(name + tail)
            &&& !starts_with(i, "class "@)
            &&& !starts_with(e, "class "@)
            &&& !starts_with(r, "class "@)
            &&& !starts_with(e, "interface "@)
            &&& !starts_with(r, "interface "@)
            &&& !starts_with(r, "enum "@)
            &&& ident(name + tail) == name
            &&& !is_space('c') && !is_space('i') && !is_space('e') && !is_space('r')
        }),
{
    reveal_strlit("class ");
    reveal_strlit("interface ");
    reveal_strlit("enum ");
    reveal_strlit("record ");
    lemma_type_head("class "@, name, tail);
    lemma_type_head("interface "@, name, tail);
    lemma_type_head("enum "@, name, tail);
    lemma_type_head("record "@, name, tail);
    let i = declaration("interface "@, name, tail);
    let e = declaration("enum "@, name, tail);
    let r = declaration("record "@, name, tail);
    lemma_other_start(i, "class "@, 0);
    lemma_other_start(e, "class "@, 0);
    lemma_other_start(r, "class "@, 0);
    lemma_other_start(e, "interface "@, 0);
    lemma_other_start(r, "interface "@, 0);
    lemma_other_start(r, "enum "@, 0);
}

proof fn lemma_type_head(head: Seq<char>, name: Seq<char>, tail: Seq<char>)
    requires
        head.len() > 1,
        !is_space(head[0]),
        is_identifier(name),
        ends_name(tail),
        tail.len() == 0 ==> !is_space(name.last()),
    ensures
        ({
            let s = declaration(head, name, tail);
            &&& s.len() > 1
            &&& s[0] == head[0]
            &&& s[1] == head[1]
            &&& trim(s) == s
            &&& !is_space(s.last())
            &&& strip_front(s, head) == Some(name + tail)
            &&& ident(name + tail) == name
        }),
{
    lemma_declaration(head, name, tail);
    let s = declaration(head, name, tail);
    if tail.len() > 0 {
        assert(s.last() == tail.last());
    } else {
        assert(s.last() == name.last());
    }
}

proof fn lemma_no_modifier(s: Seq<char>, n: nat)
    requires
        n <= 9,
        s.len() > 1,
        s[0] == 'c' || s[0] == 'i' || s[0] == 'e' || s[0] == 'r',
    ensures
        modifier_pass(s, n) == s,
    decreases n,
{
    if n > 0 {
        reveal_strlit("public ");
        reveal_strlit("private ");
        reveal_strlit("protected ");
        reveal_strlit("static ");
        reveal_strlit("final ");
        reveal_strlit("abstract ");
        reveal_strlit("synchronized ");
        reveal_strlit("native ");
        reveal_strlit("strictfp ");
        lemma_no_modifier(s, (n - 1) as nat);
        lemma_other_start(s, java_modifiers()[n - 1], 0);
    }
}

proof fn lemma_plain_type(s: Seq<char>)
    requires
        s.len() > 1,
        s[0] == 'c' || (s[0] == 'i' && s[1] == 'n') || s[0] == 'e' || s[0] == 'r',
    ensures
        without_modifiers(s) == s,
        !starts_with(s, "import "@),
        !starts_with(s, "package "@),
{
    reveal_strlit("import ");
    reveal_strlit("package ");
    lemma_no_modifier(s, 9);
    if s[0] == 'i' {
        lemma_other_start(s, "import "@, 1);
    } else {
        lemma_other_start(s, "import "@, 0);
    }
    lemma_other_start(s, "package "@, 0);
}

proof fn lemma_public_type(s: Seq<char>)
    requires
        s.len() > 1,
        s[0] == 'c' || (s[0] == 'i' && s[1] == 'n') || s[0] == 'e' || s[0] == 'r',
        trim(s) == s,
        !is_space(s[0]),
        !is_space(s.last()),
    ensures
        trim("public "@ + s) == "public "@ + s,
        without_modifiers("public "@ + s) == s,
        !starts_with("public "@ + s, "import "@),
        !starts_with("public "@ + s, "package "@),
{
    reveal_strlit("public ");
    reveal_strlit("import ");
    reveal_strlit("package ");
    let p = "public "@ + s;
    assert(p[0] == 'p' && p[1] == 'u');
    assert(p.last() == s.last());
    assert(!is_space('p'));
    lemma_nothing_to_trim(p);
    lemma_nothing_to_trim(s);
    lemma_other_start(p, "import "@, 0);
    lemma_other_start(p, "package "@, 1);
    lemma_starts_with_part("public "@, s);
    assert(modifier_pass(p, 0) == p);
    assert(java_modifiers()[0] == "public "@);
    assert(modifier_pass(p, 1) == s);
    lemma_passes_on(p, s, 9);
    lemma_plain_type(s);
    lemma_no_modifier(s, 9);
}

proof fn lemma_passes_on(p: Seq<char>, s: Seq<char>, n: nat)
    requires
        1 <= n <= 9,
        modifier_pass(p, 1) == s,
        s.len() > 1,
        s[0] == 'c' || s[0] == 'i' || s[0] == 'e' || s[0] == 'r',
    ensures
        modifier_pass(p, n) == s,
    decreases n,
{
    if n > 1 {
        reveal_strlit("public ");
        reveal_strlit("private ");
        reveal_strlit("protected ");
        reveal_strlit("static ");
        reveal_strlit("final ");
        reveal_strlit("abstract ");
        reveal_strlit("synchronized ");
        reveal_strlit("native ");
        reveal_strlit("strictfp ");
        lemma_passes_on(p, s, (n - 1) as nat);
        lemma_other_start(s, java_modifiers()[n - 1], 0);
    }
}

} // verus!

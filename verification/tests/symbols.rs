use caduceus::delimiters::{detect_delimiter_errors, ParseErrorSeverity};
use caduceus::languages::{detect_language, should_index_file, should_skip_dir};
use caduceus::symbols::{
    extract_go_symbol, extract_java_symbol, extract_js_ts_symbol, extract_python_symbol,
    extract_rust_symbol, SymbolType,
};

fn is(got: Option<(SymbolType, String)>, kind: SymbolType, name: &str) {
    assert_eq!(got, Some((kind, name.to_string())));
}

#[test]
fn languages_go_by_extension() {
    assert_eq!(detect_language("src/main.rs"), "rust");
    assert_eq!(detect_language("a/b.tsx"), "typescript");
    assert_eq!(detect_language("b.jsx"), "javascript");
    assert_eq!(detect_language("b.py"), "python");
    assert_eq!(detect_language("x.go"), "go");
    assert_eq!(detect_language("X.java"), "java");
    assert_eq!(detect_language(".rs"), "unknown");
    assert_eq!(detect_language("rs"), "unknown");
    assert_eq!(detect_language("a.rs/"), "rust");
    assert_eq!(detect_language("a.rs/."), "rust");
    assert_eq!(detect_language("a.rs/.."), "unknown");
    assert_eq!(detect_language(".a.rs"), "rust");
    assert_eq!(detect_language("a.RS"), "unknown");
    for path in ["src/main.rs", ".rs", "a.rs/", "a.rs/.", "a.rs/..", "x.", "a/.hidden.go", ""] {
        let ext = std::path::Path::new(path).extension().and_then(|e| e.to_str());
        assert_eq!(detect_language(path) == "rust", ext == Some("rs"), "{path}");
        assert_eq!(detect_language(path) == "go", ext == Some("go"), "{path}");
    }
}

#[test]
fn what_is_indexed() {
    assert!(should_index_file("a.rs"));
    assert!(should_index_file("notes.md"));
    assert!(should_index_file("run.sh"));
    assert!(!should_index_file("a.png"));
    assert!(!should_index_file("Makefile"));
    assert!(should_skip_dir("node_modules"));
    assert!(should_skip_dir(".git"));
    assert!(!should_skip_dir("src"));
}

#[test]
fn rust_symbols() {
    is(extract_rust_symbol("use std::io;"), SymbolType::Import, "std::io");
    is(extract_rust_symbol("pub(crate) use a::{b, c};"), SymbolType::Import, "a::{b, c}");
    is(extract_rust_symbol("pub(super) async unsafe fn go<T>(x: T) {"), SymbolType::Function, "go");
    is(extract_rust_symbol("  pub const fn k() -> u8 {"), SymbolType::Function, "k");
    is(extract_rust_symbol("enum Kind {"), SymbolType::Enum, "Kind");
    is(extract_rust_symbol("pub trait Seen: Clone {"), SymbolType::Trait, "Seen");
    is(extract_rust_symbol("pub mod inner;"), SymbolType::Module, "inner");
    is(extract_rust_symbol("impl<T: Into<U>> Holder<T> {"), SymbolType::Other, "impl Holder");
    is(extract_rust_symbol("impl Point {"), SymbolType::Other, "impl Point");
    assert_eq!(extract_rust_symbol("impl! {"), None);
    assert_eq!(extract_rust_symbol("let x = 1;"), None);
    assert_eq!(extract_rust_symbol("pub(crate fn x() {}"), None);
}

#[test]
fn script_symbols() {
    is(extract_js_ts_symbol("import { a } from 'b';"), SymbolType::Import, "{ a }");
    is(extract_js_ts_symbol("import 'side';"), SymbolType::Import, "'side'");
    is(extract_js_ts_symbol("export default function main() {"), SymbolType::Function, "main");
    is(extract_js_ts_symbol("export interface Shape {"), SymbolType::Interface, "Shape");
    is(extract_js_ts_symbol("type Id = string;"), SymbolType::Other, "Id");
    is(extract_js_ts_symbol("declare enum Level {"), SymbolType::Enum, "Level");
    is(extract_js_ts_symbol("const run = async () => {"), SymbolType::Function, "run");
    is(extract_js_ts_symbol("var old = function () {"), SymbolType::Function, "old");
    assert_eq!(extract_js_ts_symbol("const n = 1;"), None);
    assert_eq!(extract_js_ts_symbol("type Id"), None);
}

#[test]
fn python_go_and_java_symbols() {
    is(extract_python_symbol("    async def fetch(self):"), SymbolType::Function, "fetch");
    is(extract_python_symbol("class A(B):"), SymbolType::Class, "A");
    assert_eq!(extract_python_symbol("import os"), None);
    is(extract_go_symbol("func (s *Server) Run() error {"), SymbolType::Method, "Run");
    is(extract_go_symbol("func main() {"), SymbolType::Function, "main");
    is(extract_go_symbol("type Box struct {"), SymbolType::Struct, "Box");
    is(extract_go_symbol("type Shape interface {"), SymbolType::Interface, "Shape");
    is(extract_go_symbol("type Id int"), SymbolType::Other, "Id");
    is(extract_go_symbol("import (\"fmt\")"), SymbolType::Import, "import");
    is(extract_go_symbol("package main"), SymbolType::Module, "main");
    is(extract_java_symbol("import java.util.List;"), SymbolType::Import, "java.util.List");
    is(extract_java_symbol("package a.b;"), SymbolType::Module, "a.b");
    is(extract_java_symbol("public static final class Inner {"), SymbolType::Class, "Inner");
    is(extract_java_symbol("final public record Point(int x) {"), SymbolType::Struct, "Point");
    is(extract_java_symbol("private static int count(List<A> l) {"), SymbolType::Function, "count");
    is(extract_java_symbol("public Point(int x) {"), SymbolType::Function, "Point");
    assert_eq!(extract_java_symbol("run(1);"), None);
    assert_eq!(extract_java_symbol("if (a) {"), None);
}

#[test]
fn names_of_symbols_are_words() {
    assert_eq!(SymbolType::Function.text(), "function");
    assert_eq!(SymbolType::Other.text(), "other");
}

#[test]
fn brackets_must_match() {
    let errors = detect_delimiter_errors("fn a() {\n  b(1];\n}\n)", "rust");
    let seen: Vec<(usize, &str)> = errors.iter().map(|e| (e.line, e.message.as_str())).collect();
    assert_eq!(
        seen,
        vec![
            (2, "mismatched delimiter: expected ')' to close '(' from line 2"),
            (4, "unexpected closing delimiter ')'"),
        ]
    );
    assert!(errors.iter().all(|e| e.severity == ParseErrorSeverity::Error));
}

#[test]
fn comments_and_quotes_hide_brackets() {
    assert!(detect_delimiter_errors("// (\n/* [ */ let s = \"{ \\\" (\";", "rust").is_empty());
    assert!(detect_delimiter_errors("# (\nx = ')'", "python").is_empty());
    assert_eq!(detect_delimiter_errors("# (", "rust")[0].message, "unclosed delimiter '('");
    assert_eq!(detect_delimiter_errors("// (", "python")[0].line, 1);
}

#[test]
fn what_is_left_open_is_told() {
    let errors = detect_delimiter_errors("{\n(\n\"abc", "go");
    let seen: Vec<(usize, &str)> = errors.iter().map(|e| (e.line, e.message.as_str())).collect();
    assert_eq!(
        seen,
        vec![
            (3, "unterminated string literal starting with '\"'"),
            (1, "unclosed delimiter '{'"),
            (2, "unclosed delimiter '('"),
        ]
    );
    assert_eq!(errors[0].severity, ParseErrorSeverity::Warning);
    let open = detect_delimiter_errors("a /* b\n", "java");
    assert_eq!((open[0].line, open[0].message.as_str()), (2, "unterminated block comment"));
}

#[test]
fn plain_text_has_no_errors() {
    assert!(detect_delimiter_errors("just words\nand more words", "rust").is_empty());
}

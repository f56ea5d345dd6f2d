use caduceus::chunker::{compute_content_hash, CodeChunk, CodeChunker};
use caduceus::symbols::SymbolType;
use std::hash::{Hash, Hasher};

#[test]
fn parse_rust_file_into_chunks() {
    let src = "\
use std::io;

pub struct Point {
    pub x: f64,
    pub y: f64,
}

pub enum Color {
    Red,
    Green,
    Blue,
}

pub trait Drawable {
    fn draw(&self);
}

pub fn distance(a: &Point, b: &Point) -> f64 {
    ((a.x - b.x).powi(2) + (a.y - b.y).powi(2)).sqrt()
}

impl Point {
    pub fn origin() -> Self {
        Self { x: 0.0, y: 0.0 }
    }
}
";
    let chunker = CodeChunker::default();
    let chunks = chunker.chunk_file("geometry.rs", src);

    let types: Vec<(&str, &SymbolType)> = chunks
        .iter()
        .map(|c| (c.symbol_name.as_str(), &c.symbol_type))
        .collect();

    assert!(
        types.iter().any(|(_, t)| **t == SymbolType::Import),
        "missing import"
    );
    assert!(
        types
            .iter()
            .any(|(n, t)| *n == "Point" && **t == SymbolType::Struct),
        "missing struct"
    );
    assert!(
        types
            .iter()
            .any(|(n, t)| *n == "Color" && **t == SymbolType::Enum),
        "missing enum"
    );
    assert!(
        types
            .iter()
            .any(|(n, t)| *n == "Drawable" && **t == SymbolType::Trait),
        "missing trait"
    );
    assert!(
        types
            .iter()
            .any(|(n, t)| *n == "distance" && **t == SymbolType::Function),
        "missing fn"
    );
    assert!(
        types.iter().any(|(n, _)| n.starts_with("impl")),
        "missing impl"
    );
    assert!(
        chunks.len() >= 6,
        "expected >=6 chunks, got {}",
        chunks.len()
    );

    for c in &chunks {
        assert!(!c.content_hash.is_empty());
        assert_eq!(c.language, "rust");
        assert!(c.start_line <= c.end_line);
    }
}

#[test]
fn parse_typescript_file_into_chunks() {
    let src = "\
import { Request, Response } from 'express';

interface Config {
    host: string;
    port: number;
}

export class Server {
    private config: Config;

    constructor(config: Config) {
        this.config = config;
    }

    start() {
        console.log('Starting');
    }
}

export function createServer(config: Config): Server {
    return new Server(config);
}

const handler = async (req: Request) => {
    return { ok: true };
};
";
    let chunker = CodeChunker::default();
    let chunks = chunker.chunk_file("server.ts", src);

    let types: Vec<(&str, &SymbolType)> = chunks
        .iter()
        .map(|c| (c.symbol_name.as_str(), &c.symbol_type))
        .collect();

    assert!(
        types.iter().any(|(_, t)| **t == SymbolType::Import),
        "missing import"
    );
    assert!(
        types
            .iter()
            .any(|(n, t)| *n == "Config" && **t == SymbolType::Interface),
        "missing interface"
    );
    assert!(
        types
            .iter()
            .any(|(n, t)| *n == "Server" && **t == SymbolType::Class),
        "missing class"
    );
    assert!(
        types
            .iter()
            .any(|(n, t)| *n == "createServer" && **t == SymbolType::Function),
        "missing fn"
    );
    assert!(
        types
            .iter()
            .any(|(n, t)| *n == "handler" && **t == SymbolType::Function),
        "missing arrow fn"
    );
    assert!(
        chunks.len() >= 5,
        "expected >=5 chunks, got {}",
        chunks.len()
    );
}

#[test]
fn fallback_line_chunking_unknown_language() {
    let lines: Vec<String> = (1..=120).map(|i| format!("line {i}")).collect();
    let content = lines.join("\n");

    let chunker = CodeChunker::new(50, 10);
    let chunks = chunker.chunk_file("data.xyz", &content);

    assert!(
        chunks.len() >= 3,
        "expected >=3 chunks, got {}",
        chunks.len()
    );
    assert_eq!(chunks[0].start_line, 1);
    assert_eq!(chunks[0].end_line, 50);
    assert_eq!(chunks[0].language, "unknown");
    assert_eq!(chunks[0].symbol_type, SymbolType::Other);
    // Second chunk starts at 50-10+1 = 41
    assert_eq!(chunks[1].start_line, 41);
}

#[test]
fn parse_python_file_into_chunks() {
    let src = "\
import os
from pathlib import Path

class Config:
    def __init__(self, path):
        self.path = path

    def load(self):
        return {}

def standalone():
    pass

@staticmethod
def decorated():
    pass
";
    let chunker = CodeChunker::default();
    let chunks = chunker.chunk_file("config.py", src);

    let names: Vec<&str> = chunks.iter().map(|c| c.symbol_name.as_str()).collect();
    assert!(names.contains(&"os"), "missing 'os' import: {names:?}");
    assert!(
        names.contains(&"Config"),
        "missing 'Config' class: {names:?}"
    );
    assert!(
        names.contains(&"standalone"),
        "missing 'standalone' fn: {names:?}"
    );

    let config_chunk = chunks.iter().find(|c| c.symbol_name == "Config").unwrap();
    assert!(config_chunk.content.contains("__init__"));
    assert!(config_chunk.content.contains("load"));
}

#[test]
fn content_hash_is_deterministic() {
    let chunker = CodeChunker::default();
    let src = "pub fn foo() {}\n";
    let c1 = chunker.chunk_file("a.rs", src);
    let c2 = chunker.chunk_file("a.rs", src);
    assert_eq!(c1[0].content_hash, c2[0].content_hash);

    let c3 = chunker.chunk_file("a.rs", "pub fn bar() {}\n");
    assert_ne!(c1[0].content_hash, c3[0].content_hash);
}

fn find<'a>(chunks: &'a [CodeChunk], name: &str) -> &'a CodeChunk {
    chunks.iter().find(|c| c.symbol_name == name).unwrap()
}

#[test]
fn blocks_end_with_their_braces() {
    let src = "pub fn one() {\n    if a {\n    }\n}\n\nmod outside;\n\nstruct Two {\n    a: u8,\n}\n";
    let chunks = CodeChunker::default().chunk_file("src/a.rs", src);
    let lines: Vec<(&str, usize, usize)> =
        chunks.iter().map(|c| (c.symbol_name.as_str(), c.start_line, c.end_line)).collect();
    assert_eq!(lines, vec![("one", 1, 4), ("outside", 6, 6), ("Two", 8, 10)]);
    assert_eq!(find(&chunks, "one").content, "pub fn one() {\n    if a {\n    }\n}");
    assert_eq!(find(&chunks, "outside").symbol_type, SymbolType::Module);
}

#[test]
fn an_open_block_reaches_to_the_end() {
    let chunks = CodeChunker::default().chunk_file("a.go", "func Run() {\n  x()\n  y()\n");
    assert_eq!(chunks.len(), 1);
    assert_eq!((chunks[0].start_line, chunks[0].end_line), (1, 3));
}

#[test]
fn decorators_belong_to_what_they_decorate() {
    let src = "def a():\n    pass\n\n\n@cache\n@other\ndef b():\n    return 1\n\nx = 1\n";
    let chunks = CodeChunker::default().chunk_file("a.py", src);
    let b = find(&chunks, "b");
    assert_eq!((b.start_line, b.end_line), (5, 8));
    assert_eq!((find(&chunks, "a").start_line, find(&chunks, "a").end_line), (1, 2));
}

#[test]
fn windows_cover_all_lines() {
    let text: Vec<String> = (1..=120).map(|i| format!("line {i}")).collect();
    let chunks = CodeChunker::new(50, 10).chunk_file("data", &text.join("\n"));
    let lines: Vec<(usize, usize)> = chunks.iter().map(|c| (c.start_line, c.end_line)).collect();
    assert_eq!(lines, vec![(1, 50), (41, 90), (81, 120)]);
    assert_eq!(chunks[1].symbol_name, "chunk_41");
}

#[test]
fn no_symbol_means_windows() {
    let chunks = CodeChunker::new(2, 1).chunk_file("a.rs", "// one\n// two\n// three\n");
    let lines: Vec<(usize, usize)> = chunks.iter().map(|c| (c.start_line, c.end_line)).collect();
    assert_eq!(lines, vec![(1, 2), (2, 3)]);
    assert!(CodeChunker::default().chunk_file("a.rs", "").is_empty());
}

#[test]
fn hashes_are_those_of_the_standard_hasher() {
    for text in ["", "pub fn foo() {}", "äöü\n"] {
        let mut h = std::collections::hash_map::DefaultHasher::new();
        text.hash(&mut h);
        assert_eq!(compute_content_hash(text), format!("{:016x}", h.finish()));
    }
}

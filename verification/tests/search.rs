use caduceus::chunker::CodeChunker;
use caduceus::delimiters::ParseErrorSeverity;
use caduceus::semantic::{
    default_top_k, semantic_search_tool_spec, ParseErrorDownRanker, ScoredChunk, SemanticIndex,
};
use caduceus::sorting::{order_numbers, order_texts, sort_texts};

fn texts(v: &[&str]) -> Vec<String> {
    v.iter().map(|s| s.to_string()).collect()
}

/// The place of a number in the order of numbers.
fn key(score: f64) -> i64 {
    let bits = score.to_bits() as i64;
    bits ^ (((bits >> 63) as u64) >> 1) as i64
}

fn penalised(score: f64, penalty: f64, has_errors: bool) -> f64 {
    if has_errors {
        score * (1.0 - penalty)
    } else {
        score
    }
}

#[test]
fn tool_spec_is_valid_json() {
    let spec = semantic_search_tool_spec();
    assert_eq!(spec.get_str("name"), Some("semantic_search"));
    let properties = spec.get("parameters").unwrap().get("properties").unwrap();
    assert!(properties.get("query").unwrap().get("type").is_some());
    assert!(properties.get("top_k").unwrap().get("type").is_some());
    assert_eq!(properties.get("top_k").unwrap().get("default").unwrap().as_u64(), Some(10));
    assert_eq!(default_top_k(), 10);
}

#[test]
fn parse_error_downranker_reduces_scores_for_error_chunks() {
    let adjusted = penalised(0.8, 0.25, true);
    assert!((adjusted - 0.6).abs() < 1e-9);

    let errors = ParseErrorDownRanker::detect_parse_errors(
        "pub fn broken() {\n    println!(\"oops\");\n",
        "rust",
    );
    assert!(!errors.is_empty());
    assert_eq!(errors[0].severity, ParseErrorSeverity::Error);
}

#[test]
fn parse_error_downranker_leaves_clean_chunks_unchanged() {
    assert!((penalised(0.8, 0.4, false) - 0.8).abs() < 1e-9);

    let errors = ParseErrorDownRanker::detect_parse_errors(
        "pub fn clean() -> i32 {\n    42\n}\n",
        "rust",
    );
    assert!(errors.is_empty());
}

#[test]
fn parse_error_downranker_ranks_clean_chunks_first() {
    let scores = [0.9, 0.8];
    let mut chunks = vec![
        ScoredChunk {
            content: "pub fn broken() {".to_string(),
            score: key(scores[0]),
            has_errors: false,
            file_path: "broken.rs".to_string(),
        },
        ScoredChunk {
            content: "pub fn clean() -> i32 {\n    42\n}\n".to_string(),
            score: key(scores[1]),
            has_errors: false,
            file_path: "clean.rs".to_string(),
        },
    ];

    ParseErrorDownRanker::flag_errors(&mut chunks);
    for (chunk, score) in chunks.iter_mut().zip(scores) {
        chunk.score = key(penalised(score, 0.5, chunk.has_errors));
    }
    ParseErrorDownRanker::rank_chunks(&mut chunks);

    assert_eq!(chunks[0].file_path, "clean.rs");
    assert!(!chunks[0].has_errors);
    assert_eq!(chunks[1].file_path, "broken.rs");
    assert!(chunks[1].has_errors);
    assert!(chunks[1].score < chunks[0].score);
}

#[test]
fn ranks_go_by_score_then_path_then_content() {
    let chunk = |score: i64, path: &str, content: &str| ScoredChunk {
        content: content.to_string(),
        score,
        has_errors: false,
        file_path: path.to_string(),
    };
    let mut v = vec![chunk(1, "b", "x"), chunk(2, "z", "x"), chunk(1, "a", "y"), chunk(1, "a", "x")];
    ParseErrorDownRanker::rank_chunks(&mut v);
    let seen: Vec<(i64, &str, &str)> =
        v.iter().map(|c| (c.score, c.file_path.as_str(), c.content.as_str())).collect();
    assert_eq!(seen, vec![(2, "z", "x"), (1, "a", "x"), (1, "a", "y"), (1, "b", "x")]);
}

fn index_content(index: &mut SemanticIndex<Vec<f32>>, path: &str, content: &str) -> usize {
    let chunks = index.chunks_of(path, content);
    let vectors: Vec<Vec<f32>> = chunks.iter().map(|c| vec![c.content.len() as f32, 1.0]).collect();
    index.add(chunks, vectors)
}

#[test]
fn index_directory_and_search() {
    let mut index: SemanticIndex<Vec<f32>> = SemanticIndex::new();
    let mut count = index_content(
        &mut index,
        "math.rs",
        "pub fn add(a: i32, b: i32) -> i32 {\n    a + b\n}\n\npub fn multiply(a: i32, b: i32) -> i32 {\n    a * b\n}\n",
    );
    count += index_content(
        &mut index,
        "greet.py",
        "def greet(name):\n    return f\"Hello, {name}!\"\n\ndef farewell(name):\n    return f\"Goodbye, {name}!\"\n",
    );
    assert!(count >= 4, "expected >=4 chunks, got {count}");
    let scores: Vec<f32> = (0..index.chunk_count()).map(|i| index.vector(i)[0]).collect();
    let keys: Vec<i64> = scores.iter().map(|s| key(*s as f64)).collect();
    let results = index.search(&keys, &scores, 3);
    assert_eq!(results.len(), 3);
    assert!(results[0].score != 0.0);
    assert!(results.windows(2).all(|w| w[0].score >= w[1].score));
}

#[test]
fn reindex_single_file() {
    let mut index: SemanticIndex<Vec<f32>> = SemanticIndex::new();
    index.remove_file("lib.rs");
    index_content(&mut index, "lib.rs", "pub fn alpha() {}\n");
    assert_eq!(index.chunk_count(), 1);
    index.remove_file("lib.rs");
    index_content(&mut index, "lib.rs", "pub fn alpha() {}\n\npub fn beta() {}\n");
    assert_eq!(index.chunk_count(), 2);
    index_content(&mut index, "other.rs", "pub fn gamma() {}\n");
    index.remove_file("lib.rs");
    assert_eq!(index.chunk_count(), 1);
    assert_eq!(index.search(&[0], &[1.0f32], 5)[0].chunk.symbol_name, "gamma");
}

#[test]
fn empty_directory_returns_empty_index() {
    let mut index: SemanticIndex<Vec<f32>> = SemanticIndex::new();
    assert_eq!(index_content(&mut index, "empty.rs", ""), 0);
    assert_eq!(index.chunk_count(), 0);
}

#[test]
fn search_with_no_results_on_empty_index() {
    let index: SemanticIndex<Vec<f32>> = SemanticIndex::new();
    let none: Vec<f32> = Vec::new();
    assert!(index.search(&[], &none, 10).is_empty());
}

#[test]
fn vectors_that_are_missing_leave_chunks_out() {
    let mut index: SemanticIndex<u8> = SemanticIndex::new().with_chunker(CodeChunker::new(1, 0));
    let chunks = index.chunks_of("a.txt", "one\ntwo\nthree");
    assert_eq!(chunks.len(), 3);
    assert_eq!(index.add(chunks, vec![7, 8]), 3);
    assert_eq!(index.chunk_count(), 2);
    assert_eq!(*index.vector(1), 8);
}

#[test]
fn equal_keys_stay_as_they_are() {
    assert_eq!(order_numbers(&[3, 5, 3, 9]), vec![3, 1, 0, 2]);
    assert_eq!(order_texts(&texts(&["b", "a", "b", "aa"])), vec![1, 3, 0, 2]);
    assert_eq!(sort_texts(&texts(&["é", "z", "", "Z"])), texts(&["", "Z", "z", "é"]));
}

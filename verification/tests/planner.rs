use caduceus::planner::{
    Beam, BranchExpander, BranchScorer, PlannerConfig, ThoughtNode, TreeOfThoughts,
};
use caduceus::planner_prompts::{parse_expansion, score_text};

struct PathExpander;
impl BranchExpander<String> for PathExpander {
    fn expand(&self, node: &ThoughtNode<String>, k: usize) -> Vec<(String, bool)> {
        (1..=k)
            .map(|i| {
                let next = format!("{}+{i}", node.thought);
                let terminal = node.depth + 1 >= 3;
                (next, terminal)
            })
            .collect()
    }
}

struct SuffixScorer;
impl BranchScorer<String> for SuffixScorer {
    fn score(&self, node: &ThoughtNode<String>) -> i64 {
        node.thought
            .rsplit('+')
            .next()
            .and_then(|s| s.parse::<i64>().ok())
            .unwrap_or(0)
    }
}

struct EmptyExpander;
impl BranchExpander<String> for EmptyExpander {
    fn expand(&self, _: &ThoughtNode<String>, _: usize) -> Vec<(String, bool)> {
        vec![]
    }
}

struct EarlyTerminalExpander;
impl BranchExpander<String> for EarlyTerminalExpander {
    fn expand(&self, node: &ThoughtNode<String>, k: usize) -> Vec<(String, bool)> {
        (1..=k)
            .map(|i| (format!("{}+{i}", node.thought), i == 1))
            .collect()
    }
}

#[test]
fn p12_3_search_terminates_and_returns_best() {
    let cfg = PlannerConfig {
        branching_factor: 3,
        beam_width: 2,
        max_depth: 5,
    };
    let tot = TreeOfThoughts::new(cfg, PathExpander, SuffixScorer);
    let result = tot.search("root".to_string());
    assert!(result.best.is_some());
    let best = result.best.unwrap();
    // Best should end in "+3" (highest score per level).
    assert!(best.thought.ends_with("+3"), "got {:?}", best.thought);
    assert!(best.terminal, "best should be terminal at depth 3");
}

#[test]
fn p12_3_beam_width_one_is_greedy() {
    let cfg = PlannerConfig {
        branching_factor: 3,
        beam_width: 1,
        max_depth: 5,
    };
    let tot = TreeOfThoughts::new(cfg, PathExpander, SuffixScorer);
    let result = tot.search("r".to_string());
    // Greedy with branching=3 expands exactly 1 node per depth
    // until depth 3 (terminal). So 3 expansions total.
    assert_eq!(result.nodes_expanded, 3);
}

#[test]
fn p12_3_max_depth_caps_search() {
    let cfg = PlannerConfig {
        branching_factor: 2,
        beam_width: 1,
        max_depth: 1,
    };
    let tot = TreeOfThoughts::new(cfg, PathExpander, SuffixScorer);
    let result = tot.search("r".to_string());
    // Hard-cap at depth 1: exactly one expansion of the root.
    assert_eq!(result.nodes_expanded, 1);
    assert_eq!(result.depth_reached, 0);
}

#[test]
fn p12_3_empty_expansion_returns_root_as_best() {
    let cfg = PlannerConfig::default();
    let tot = TreeOfThoughts::new(cfg, EmptyExpander, SuffixScorer);
    let result = tot.search("root".to_string());
    assert!(result.best.is_some());
    assert_eq!(result.best.unwrap().thought, "root");
    // Engine attempted exactly one expansion of the root, which
    // returned no children — counted as one attempt.
    assert_eq!(result.nodes_expanded, 1);
}

#[test]
fn p12_3_terminal_child_seen_round_one_is_promoted() {
    let cfg = PlannerConfig {
        branching_factor: 3,
        beam_width: 3,
        max_depth: 5,
    };
    let tot = TreeOfThoughts::new(cfg, EarlyTerminalExpander, SuffixScorer);
    let result = tot.search("r".to_string());
    // Best non-terminal child has +3 (score 3); terminal child
    // has +1 (score 1). Best (per score) wins → "+3" non-terminal
    // until it becomes terminal at deeper depth (it never does
    // here since EarlyTerminalExpander only marks i==1 terminal).
    // The PROMOTED `best` must have terminal=true (the +1 child)
    // since that's the only node that ever got the terminal flag
    // and we promote on terminal.
    let best = result.best.expect("must have a best");
    assert!(best.terminal, "best should be terminal");
    assert!(best.thought.ends_with("+1"));
}

#[test]
fn parse_expansion_takes_k_lines_and_marks_terminal() {
    let txt = "step one\nstep two DONE.\nstep three\nstep four";
    let v = parse_expansion(txt, 3);
    assert_eq!(v.len(), 3);
    assert_eq!(v[0], ("step one".into(), false));
    assert_eq!(v[1], ("step two".into(), true));
    assert_eq!(v[2], ("step three".into(), false));
}

#[test]
fn parse_expansion_skips_blank_lines() {
    let v = parse_expansion("\n\nfoo\n\nbar\n", 5);
    assert_eq!(v, vec![("foo".into(), false), ("bar".into(), false)]);
}

/// The number that a text stands for, between none and one.
fn parse_score(text: &str) -> f32 {
    score_text(text).parse::<f32>().map(|v| v.clamp(0.0, 1.0)).unwrap_or(0.0)
}

#[test]
fn parse_score_handles_clean_decimal() {
    assert_eq!(parse_score("0.7"), 0.7);
    assert_eq!(parse_score("  0.42 "), 0.42);
}

#[test]
fn parse_score_clamps_out_of_range() {
    assert_eq!(parse_score("1.5"), 1.0);
    assert_eq!(parse_score("-0.3"), 0.0);
}

#[test]
fn parse_score_falls_back_to_zero_on_garbage() {
    assert_eq!(parse_score("not a number"), 0.0);
    assert_eq!(parse_score(""), 0.0);
}

#[test]
fn p13_3_search_async_terminates_on_done_marker() {
    let cfg = PlannerConfig {
        branching_factor: 3,
        beam_width: 1,
        max_depth: 3,
    };
    let mut replies = vec!["0.1", "a\nb DONE.\nc", "0.3", "0.9", "0.2"].into_iter();
    let mut score = |text: &str| (parse_score(text) * 1000.0) as i64;
    let root = score(replies.next().unwrap());
    let mut beam = Beam::new(cfg, "root".to_string(), root);
    while beam.start_round() {
        while beam.next_parent().is_some() {
            let k = beam.branching_factor();
            for (thought, terminal) in parse_expansion(replies.next().unwrap(), k) {
                let value = score(replies.next().unwrap());
                beam.add_child(thought, terminal, value);
            }
        }
        if !beam.end_round() {
            break;
        }
    }
    let result = beam.finish();
    let best = result.best.expect("must find a terminal");
    assert_eq!(best.thought, "b");
    assert!(best.terminal);
    assert!(best.score > 500);
}

struct FirstOfThree;

impl BranchExpander<String> for FirstOfThree {
    fn expand(&self, node: &ThoughtNode<String>, _: usize) -> Vec<(String, bool)> {
        (1..=3).map(|i| (format!("{}+{i}", node.thought), i == 1)).collect()
    }
}

struct LastNumber;

impl BranchScorer<String> for LastNumber {
    fn score(&self, node: &ThoughtNode<String>) -> i64 {
        node.thought.rsplit_once('+').and_then(|(_, n)| n.parse().ok()).unwrap_or(0)
    }
}

#[test]
fn a_terminal_node_in_the_beam_stops_the_search() {
    let cfg = PlannerConfig { branching_factor: 3, beam_width: 3, max_depth: 5 };
    let r = TreeOfThoughts::new(cfg, FirstOfThree, LastNumber).search("r".to_string());
    assert_eq!((r.nodes_expanded, r.depth_reached), (1, 0));
    let best = r.best.unwrap();
    assert!(best.terminal);
    assert_eq!(best.thought, "r+1");
    let beam: Vec<&str> =
        r.frontier_at_termination.iter().map(|n| n.thought.as_str()).collect();
    assert_eq!(beam, vec!["r+3", "r+2", "r+1"]);
    // One that does not survive does not stop it.
    let cfg = PlannerConfig { branching_factor: 3, beam_width: 2, max_depth: 2 };
    let r = TreeOfThoughts::new(cfg, FirstOfThree, LastNumber).search("r".to_string());
    assert_eq!((r.nodes_expanded, r.depth_reached), (3, 1));
    // A beam of no width ends after the first round.
    let cfg = PlannerConfig { branching_factor: 3, beam_width: 0, max_depth: 5 };
    let r = TreeOfThoughts::new(cfg, FirstOfThree, LastNumber).search("r".to_string());
    assert_eq!((r.nodes_expanded, r.depth_reached), (1, 0));
    assert!(r.best.is_none());
}

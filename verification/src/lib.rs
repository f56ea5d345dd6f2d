//! Verified core of an agent orchestrator and its code index.

pub mod agent_run;
pub mod approval;
pub mod assembler;
pub mod automation_commands;
pub mod automations;
pub mod background;
pub mod background_commands;
pub mod bugbot;
pub mod bus;
pub mod checkpoint;
pub mod chunker;
pub mod clock;
pub mod context;
pub mod context_fold;
pub mod context_manager;
pub mod context_view;
pub mod critic;
pub mod delimiters;
pub mod deltas;
pub mod embedding;
pub mod emitter;
pub mod events;
pub mod eviction;
pub mod federation;
pub mod graph;
pub mod groups;
pub mod harness;
pub mod json;
pub mod keyed;
pub mod languages;
pub mod memories;
pub mod memory_blocks;
pub mod message;
pub mod metadata;
pub mod numeral;
pub mod overlay;
pub mod pairing;
pub mod pipeline;
pub mod planner;
pub mod planner_prompts;
pub mod preflight;
pub mod priority;
pub mod prompt;
pub mod recovery;
pub mod reflection;
pub mod run_machine;
pub mod scorer;
pub mod semantic;
pub mod sorting;
pub mod sources;
pub mod space;
pub mod split;
pub mod strategies;
pub mod summarize;
pub mod symbols;
pub mod telemetry;
pub mod test_gate;
pub mod text;
pub mod tokens;
pub mod tool_batch;
pub mod verification;

# caduceus

The core of a coding agent: what it knows of a code base, how it keeps a
conversation within the context of its model, and how it drives a run from the
user's words to an answer. The core is verified with Verus.

## Layout

`src/` is the library. Every function states what it returns or changes, and
Verus proves it.

- Texts and numbers: `text`, `split`, `numeral`, `tokens`, `sorting`, `keyed`,
  `json`, `clock`.
- Code: `languages`, `symbols`, `delimiters`, `chunker`, `semantic`, `embedding`,
  `federation`, `graph`, `metadata`, `space`, `overlay`.
- Errors: `reflection`, `recovery`.
- Conversations: `message`, `pairing`, `groups`, `strategies`, `summarize`,
  `priority`, `pipeline`, `eviction`, `telemetry`, `scorer`, `context`,
  `context_manager`, `context_view`, `context_fold`, `sources`, `assembler`,
  `memory_blocks`.
- Runs: `events`, `emitter`, `prompt`, `preflight`, `approval`, `tool_batch`,
  `deltas`, `critic`, `verification`, `test_gate`, `memories`, `checkpoint`,
  `agent_run`, `run_machine`, `harness`.
- Plans: `planner`, `planner_prompts`.
- Around runs: `background`, `background_commands`, `automations`,
  `automation_commands`, `bugbot`, `bus`.

`app/` is ordinary Rust around the library: providers, tools, files, processes, a
database, tasks, and what is measured in floating-point numbers. It asks the
library what to do, does it, and reports back.

`tests/` runs the library.

## What is proved

Contracts are stated over models: texts are sequences of characters, collections
are sequences of models, and a component is what its `view` says. The public proof
functions whose names begin with `law_` state what holds across functions, for
example that no strategy parts a tool call from its results
(`pipeline::law_run_keeps_atomic_and_system`), that a request holds whole units of
a conversation (`assembler::law_requests_hold_whole_units`), that a batch of tool
calls is such a unit (`tool_batch::law_a_batch_is_one_unit`), and that every run
comes to an end (`run_machine::law_runs_end`).

Where the library calls `chrono`, `uuid`, `serde_json`, `tokio` or the standard
library, the contract of the call is trusted; the doc comment above it says what is
claimed.

Numbers that are floating-point elsewhere are exact here: shares are pairs of
integers, and scores are keys in the same order.

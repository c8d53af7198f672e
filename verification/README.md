# etw_profiler

A sampling CPU profiler built on Event Tracing for Windows (ETW): it starts a
kernel trace session, decodes the sampled-profile, process, thread and image
events, walks and filters call stacks, aggregates them per thread and per
function, and writes reports (text, CSV, JSON, folded flame-graph stacks).

## Layout

- `src/` — the library, verified with Verus. Its public functions state what
  they return or change in `requires`/`ensures` over spec models:
  - `analysis/` — the statistics aggregator, per-function calculators, thread
    analyzer (call graph, hot paths), flame graphs and the analysis result;
  - `etw/` — provider flags and GUIDs, the event decoder and the process /
    thread / module context it keeps, the session and controller state
    machines, and the byte layout of a session's properties block;
  - `stackwalker/` — frames, collected stacks, filters, address classes and
    unwind-data parsing;
  - `report/`, `cli/`, `config.rs`, `session.rs`, `profiler.rs` — report text,
    console helpers, configuration, session lifecycle and the profiling
    decisions;
  - `text.rs`, `winpath.rs` — verified text and path helpers.
- `app/` — the program around the library: argument parsing, file and console
  I/O, the Windows system calls, serde conversions, floating-point ratios and
  the tokio task that runs a profile.
- `tests/` — tests of the library's public functions.

Calls into std and `uuid` whose results the library uses go through small
trusted wrappers whose contracts are stated beside them.

# llama_cpp_profiler

A profiler for `llama-server`: it reads a GGUF model's header, plans candidate
settings, runs each of them, and keeps the profiles that are fast and safe on
this machine.

- `src/` is the library, verified with Verus: the GGUF header, the plan of
  candidates, server commands, the parsing of server output and telemetry, the
  assessment and ranking of runs, refinement and validation, reports, exports,
  and the state of the model picker.
- `app/` is the program around it: arguments, files, processes, requests, the
  terminal, and floating-point arithmetic.
- `tests/` runs the library on concrete values.

Floating-point measurements cross into the library as their bit patterns, with
the results of arithmetic on them handed in by the caller; texts that show them
are handed in ready to print. `regex`, `serde_json` and `chrono` are called from
the library behind small wrappers whose contracts state what is relied on.

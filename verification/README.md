# vava

A small coding agent for DeepSeek models, with its core logic verified in
Verus.

- `src/` is the verified library: SSE framing of the model's stream,
  translation of stream chunks into model events, assembly of assistant
  messages, the agent harness's turn steps, the request's wire messages,
  the coding tools' logic (`read`, `write`, `edit`, `bash` reports, path
  resolution inside the workspace), session persistence rules (ids, keys,
  replay of JSONL logs, listing order, prefix resolution), the CLI's
  rendering, REPL and picker, the terminal UI's state machine, and the
  desktop views and recent-repository list. Every function there carries a
  contract that Verus proves; calls into `serde_json`, `chrono`, `uuid` and
  `reqwest` go through small trusted wrappers whose contracts are stated
  next to them.
- `app/` is the `vava` program around it: argument parsing, the HTTP client,
  files and processes, the REPL and terminal loops.
- `tests/` runs the library on concrete inputs.

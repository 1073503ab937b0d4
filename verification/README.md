# codex_runtime

The decisions behind a coding agent's runtime services, verified with
[Verus](https://github.com/verus-lang/verus).

- `src/` is the library. Its functions carry contracts, and the laws that relate several functions
  are public proof functions beside them.
- `tests/` runs the library on concrete values.
- `app/` is ordinary Rust around it: files, locks, tasks and wire formats.

What is trusted: `serde_json`, with `serde`, reads and writes JSON text (`src/json.rs`), `sha1` computes digests
(`src/digest.rs`), and the host's path rules and `String::push` come from the standard library
(`src/paths.rs`, `src/text.rs`). Everything else is proved.

Path URIs, server configurations, file systems and cells belong to other parts of the agent. The
library takes what they answer as arguments, and its contracts hold whatever the answers are.

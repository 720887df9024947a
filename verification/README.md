# praude

`praude` runs an interactive coding-assistant CLI in a hidden terminal and
gives scripts print-style output: plain text, one JSON result, or streamed
JSON lines.

## Layout

- `src/` is the library, verified with Verus. It holds every decision the
  program makes: which arguments the wrapper consumes and which it forwards,
  the hook settings and how they merge with the caller's, the upstream
  command line, the environment settings, the trust marking of the project,
  and everything read from the session transcript (the result record, the
  streamed messages, the initial system record, usage totals).
  - `text.rs`: string operations with their specifications.
  - `json.rs`: a JSON value with a mathematical view.
  - `args.rs`, `cli.rs`, `env.rs`: the command line and the environment.
  - `hooks.rs`, `trust.rs`: settings files and the upstream configuration.
  - `usage.rs`, `transcript.rs`: reading the transcript.
  - `runner.rs`: the upstream command line and the printed output.
- `app/` is the program around it: reading files, stdin and the environment,
  the pseudo-terminal, the polling loops, and the conversion between
  `serde_json` values and the library's JSON values.
- `tests/` exercises the library on concrete values.

# sofka core

The terminal-independent logic of sofka, a Kubernetes TUI, written in Verus:
every public function states its behaviour in `requires`/`ensures`, and the
properties that span functions are stated and proved as `law_*` proof
functions.

Layout:

- `src/` – the verified library, one module per concern:
  `keys`, `keymap` (bindings, compilation, conflicts), `help`, `hints`,
  `config` (validation and warnings), `layers` (configuration layering),
  `loader` (which documents make up the configuration and how they combine),
  `launch` (launch options), `logline`, `logs` (the log buffer), `ansi`,
  `pretty` (JSON records and the JSON view), `wrap` (row wrapping), `text`, `layout`, `order`,
  `screen` (table geometry and titles), `session` (pickers, namespaces and
  context switches).
- `tests/` – ordinary Rust tests run against the compiled library.
- `app/` – the command-line front end: reads the configuration files
  (base, `conf.d/` drop-ins, and with `--cluster`/`--context` the
  per-cluster and per-context overrides) and prints what the library
  reports.

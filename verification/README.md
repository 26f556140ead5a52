# houndlens

The decision-making core of the houndlens / omnilens code-analysis tools, written
in Verus: every function in `src/` carries a contract that Verus proves.

- `src/parser.rs` — the HoundQL tokenizer and parser (`FIND target WHERE ...`).
- `src/executor.rs` — evaluation of queries over a model of the semantic graph,
  glob patterns, and the laws of query results.
- `src/float.rs` — comparison of counts with numbers read as `f64` (the reading is
  done by the caller; the comparison, EPSILON test included, is integer arithmetic here).
- `src/syntax_check.rs` — bracket balance, Python indentation, HTML/Vue tag and
  attribute checks.
- `src/hook.rs` — the git hook commands as step plans, with a model of the hooks
  directory and the laws of install and uninstall.
- `src/output.rs` — JSON summary parts and the SARIF log of a verification result.
- `src/ci.rs` — CI platform, diff base, failure threshold and platform outputs.
- `src/text.rs` — character-sequence helpers and the few calls into `std` whose
  results are named rather than proved.

`app/` is the unverified side: file, process and terminal I/O, and serde
serialisation through copies of the output types. `tests/` runs the library on
concrete inputs.

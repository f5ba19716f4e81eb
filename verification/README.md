# httpstat_rs

A verified library for an HTTP timing tool in the style of `httpstat`: it
reads SLO options, decides which SLO checks are violated, keeps the response
head of the final response, assembles diagnostics, and lays out the
human-readable report, each with a contract proved by Verus.

- `src/` — the library. `slo.rs` (metrics, `metric=value` terms, violation
  selection), `response.rs` (status line and headers), `diagnostics.rs`,
  `render.rs` (timeline and report), `palette.rs`, `cli.rs`, `model.rs`,
  and `text.rs` (white space, trimming, decimal digits, padding).
- `app/` — the program around it: command-line parsing with clap, the
  transfer with curl, floating-point timing arithmetic, JSON with serde.
- `tests/` — tests of the library.

# dep_audit

A verified library for auditing the dependencies of a Rust crate, with a
command-line program around it.

- `src/` — the library, written in Verus and verified:
  - `health.rs`: the 0–100 health score, its letter grade, the per-factor
    breakdown and the recommendations;
  - `tree.rs`: dependency depth from a resolved graph (breadth-first, shortest
    distances) and from `cargo tree` text;
  - `audit.rs`: reading the `cargo audit` report into advisories;
  - `outdated.rs`: version requirements, the `cargo outdated` JSON report;
  - `unused.rs`: dependencies that no source file refers to;
  - `report.rs`: the Markdown summary of an audit;
  - `text.rs`: character classes, lines, trimming and searching.
- `tests/` — tests of the library.
- `app/` — the `dep-audit` program: command-line handling, running `cargo`,
  `curl` and `cargo metadata`, reading files, and writing the JSON and
  Markdown reports.

## Behaviour that follows the documentation

In three places the library does what the comments and documentation of
the tool describe:

- in `cargo tree` text, the depth of a line is the length of its prefix of
  white space and box-drawing characters divided by four: one level per
  group of four columns (`├── `, `│   `);
- a dependency counts as used only where its name stands as a whole word in
  a `use`, `extern crate`, path or attribute, so `serde_json::` is no use of
  `serde`;
- an advisory with no package line after it has severity `unknown`, one of
  the four severities (`high`, `medium`, `low`, `unknown`) that an advisory
  can have.

# guard_lang

A verified library for the Guard policy language: its grammar, the data model
that rules are checked against, and the evaluation of queries and comparisons.

## Layout

- `src/parser/` — the parser of rules files. `lexical.rs` and `values.rs` read
  tokens and scalar literals; `syntax.rs` states the whole grammar as spec
  functions (where each construct ends, or where and how it gives up, and the
  tree it builds); `grammar.rs` holds the parsing functions, each proved to
  compute exactly what `syntax.rs` states.
- `src/exprs.rs`, `src/tree.rs` — the expression types and their model as trees.
- `src/value.rs`, `src/data.rs` — data values, their model, the conversion of
  literals to values, and the reader that builds values from YAML events.
- `src/equality.rs`, `src/compare.rs`, `src/value_order.rs` — equality and
  order of values and literals.
- `src/evaluation.rs`, `src/query.rs` — comparisons, unary checks, scopes,
  variables and query evaluation against data.
- `src/cases.rs`, `src/matching.rs` — the calls into `Inflector` and `regex`.
- `src/laws.rs` — properties that relate several functions.
- `app/` — what stands around the library: feeding `yaml-rust` events to the
  reader, serialisable copies of values, loading rules files from disk, and
  the `migrate` command line.

## Modelling choices

- Key/value literals and mapping values are ordered association lists
  (`Vec<(String, _)>`, `src/assoc.rs`) whose keys are unique: a key written
  again keeps its first place and takes the last value. Their insertion order
  and uniqueness are stated and proved rather than left to a hash map.
- Floats are kept as the text they were written in and compared as exact
  decimals; `inf`/`infinity` (any case, with a sign) are the infinities and
  `NaN` is unordered and equal to nothing. Integers are read exactly.
- Whatever a reporter is told is stated through the relations its trait
  declares (`reports_missing`, `reports_mismatch`, `reports_evaluation`), so
  the contracts of queries and comparisons say exactly which values and
  checks are told, in what order, and an error of the reporter can only
  come from a report.

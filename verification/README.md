# sptrace

Offline static analysis of SQL stored procedures: procedure name, parameters,
read/write/execute dependencies, temp tables, statement summaries and risk
findings, rendered as terminal, Markdown, Mermaid, context and diff reports.

The library in `src/` is verified with Verus; each public function states its
result exactly in its `ensures`, over models of text as `Seq<char>`.

- `text` — character-level helpers and their models (trim, words, split,
  join, ordering of strings, sorted sets).
- `pattern` — regular-expression searches through the `regex` crate; their
  answers are named, and byte offsets are turned into character positions.
- `normalizer` — comment removal, white space, identifiers, statements.
- `parser` — name, body, parameters, dependencies, temp tables, summaries.
- `rules` — risk rules, rule configuration, ordering of findings.
- `analyzer` — the whole analysis and its metrics.
- `report` — every text report.
- `scan` — file names, the diagram-format check and the folder index.
- `laws` — properties proved of all inputs: findings strictly ordered by
  severity then rule id, each rule at most once, taken from the fixed rule
  table, honouring the configuration (against the default analysis too), the
  temp-table rule exactly at three or more temp tables; the risk level as the
  highest severity; comment removal keeping lines; the shapes of bodies,
  parameters and dependencies; summaries numbered from 1; sanitized file
  names; sorted temp tables and index entries; the Markdown report's section
  order; distinct folder-diagram lines, unchanged by repeated input; a trace
  diffed with itself showing no change; dependency objects that are never
  variables.
- `headings` — the Markdown report read line by line: its `## ` lines are
  exactly the nine section headings, in order.

`app/` is the command-line program (argument parsing, files, JSON output);
`tests/` exercise the library on concrete inputs.

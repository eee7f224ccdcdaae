# cypherlite-query

The query front end of CypherLite, an embedded graph database: it turns an
openCypher query string into tokens, a syntax tree, and a logical plan, and
rewrites that plan before execution. Every function of the library carries a
contract that Verus proves.

## Layout

- `src/text.rs` — character and byte-offset helpers shared by the rest.
- `src/lexer.rs` — the tokenizer, specified as longest-match scanning over
  the characters of the input (`lex_spec`), with a law on how tokens lie in
  the input.
- `src/parser/` — the recursive-descent parser. `ast.rs` holds the syntax
  tree and its mathematical model; `expression.rs`, `pattern.rs` and
  `clause.rs` each give the grammar they read as spec functions over the
  token sequence (`expr_at`, `pattern_at`, `clause_at`, ...), and every
  parsing method is proved to return exactly what its grammar function
  reads, or an error exactly where it reads nothing. `congruence.rs` shows
  that the grammar reads tokens only through their models, so a query's
  parse is fixed by its lexing, and does not depend on the letter case of
  keywords.
- `src/planner/` — the label/type catalog, the logical planner (its result
  stated by `plan_spec` in `semantics.rs`), and the rule-based optimizer
  (`optimize.rs`), with laws on the plans they produce.
- `src/executor/` — the decisions of execution that work on plain values:
  property-name rules, edge validity in time, LIMIT/SKIP, SKIP/LIMIT counts,
  column names, ordered comparison of numbers and strings, and ISO 8601
  date-time literals (with a law on how the time-zone suffixes of a text
  relate);
  `traverse.rs` (single-hop expansion, its OPTIONAL left join over a list
  of records, and the depth-first search of variable-length relationships
  over the edges of each node, each of whose matches ends a path that
  repeats no node), `temporal.rs` (which state of a node was current at a time, or was
  written within a range), `props.rs` (setting, removing and reading a
  property in a property list, with read-after-write laws, and what a SET
  or REMOVE target must be) and `delete.rs`
  (what a DELETE removes, each entity once), and `logic.rs` (three-valued
  AND and OR).
- `tests/` — the test suite, run against the compiled library.

# bwq_linter

A linter for Brandwatch boolean search queries, with its logic verified by Verus.

## Layout

- `src/lexer.rs`, `src/parser.rs`, `src/ast.rs`: the tokens of a query and its
  parse, each stated against a grammar written as spec functions.
- `src/validation/`, `src/validator.rs`: the rules on fields, operators and
  terms (the coordinate and range rules among them, over the number readings of
  the query's values), and the engine that applies them to every expression.
- `src/lib.rs`: `BrandwatchLinter`, `lint_query`, `analyze_query`, `parse_query`.
- `src/output.rs`: the text the command line prints, with the lines of the query
  around each diagnostic, long lines cut around the span, and the span underlined.
- `src/lsp.rs`: diagnostics in editor coordinates and editor positions as byte
  offsets, for the language server.
- `src/commands.rs`: exit statuses, file extensions, and the example queries.
- `src/text.rs`, `src/number.rs`: characters, strings and numbers.
- `app/`: the `bwq` program (`check`, `examples`, `server`): arguments, files,
  JSON output, the reading of query values as floating-point numbers (handed to
  the library as `NumberFacts`), and the language server loop.
- `tests/`: tests of the library.

Run `bwq check --query "apple AND juice*"`, or `bwq check path/` for the `.bwq`
files below a directory.

# ham

The front end of the `ham` language: a lexer that turns UTF-8 source text into tokens,
the file and position bookkeeping it reports through, and the start of a parser.

The library under `src/` is written in Verus and verified:

- `frontend/lexer/token.rs`: token kinds, their spellings, keyword lookup, precedence.
- `frontend/lexer/pos.rs`: positions, files with their line tables, and file sets.
- `frontend/lexer/unicode.rs`: UTF-8 decoding and the character classes the lexer uses.
- `frontend/lexer/rules.rs`: the lexical rules as spec functions (`scan_spec`), the errors,
  and the laws proved of them.
- `frontend/lexer/lex.rs`: the lexer, proved to follow `scan_spec`.
- `frontend/lexer/lines.rs`: what line and column a position read by the lexer gets.
- `frontend/lexer/valid.rs`: a source that is valid UTF-8 is always safe to scan.
- `frontend/lexer/stream.rs`: laws over whole runs of scans (comments, reaching the end).
- `frontend/lexer/spelled.rs`: the spelling of a keyword or operator scans back as it.
- `frontend/parser/parse.rs`, `cli/builder.rs`: parser and build settings.

`app/main.rs` is the program around it; `tests/` holds the tests.

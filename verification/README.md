# lex

The front end of the Lex language — lexer, parser and checker — and its
diagnostics, written in Verus and proved against mathematical models.

Layout of `src/`:

- `text.rs` — characters, decimal numbers and UTF-8 byte offsets.
- `syntax.rs` — the spellings of keywords, built-ins and type names.
- `diag.rs` — spans, diagnostics and their exact rendered form.
- `lexer.rs` — tokens, and the lexer with error recovery.
- `ast.rs` — the program tree and its model.
- `parser.rs` — the recursive-descent parser.
- `sema.rs` — the checker: definitions, `main`, calls, ownership conventions.
- `laws.rs` — properties of the front end as a whole.
- `lib.rs` — `compile`, which runs the whole front end.

Each executable function carries a contract over a spec-level model
(`lex_spec`, `parse_spec`, `check_spec`, `compile_spec`, `render_spec`);
`laws.rs` proves what holds across them, such as that lints never block a
compile, that a missing `main` is reported exactly when no function is named
`main`, that suggestions are the closest names within edit distance 2, and
that checking a checked program again changes nothing.

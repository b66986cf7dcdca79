# leblanc

The front end of the LeBlanc compiler, written in Verus: every pass below states what
it computes in `requires`/`ensures` over mathematical models, and Verus proves it.

## Layout

- `src/text.rs` — string and character helpers, and the few `std` character and
  formatting functions the passes call, each behind a stated contract.
- `src/native_types.rs`, `src/rustblanc.rs` — the language's value types, error stubs and
  token trees.
- `src/compiler/tokenizer.rs` — the lexer: how characters are marked as symbols and cut
  into tokens (`create_tokens`).
- `src/compiler/identifier/` — the typing pass (`token_typer`), the identification of
  calls, lambdas and token trees (`token_identifier`), and their type map and function
  matcher.
- `src/compiler/token_stack_generator.rs` — the stack order of a token tree.
- `src/compiler/syntax_rules.rs` — the syntax rules run over the typed tokens.
- `src/compiler/parser/` — the syntax tree, scopes and declarations, the declaration rule
  (`rules/declaration_rule.rs`), the numbering of functions (`function_sorter`), the
  selection of imported items (`import_manager`), and the stack bookkeeping of the
  bytecode generator (`generator`).
- `src/compiler3/` — bytecode types and the symbol tables of the second back end.
- `app/` — what stays outside the verified library: diagnostics printed through
  `codespan-reporting`, the search for source files with `glob`, and JSON forms of
  locations with `serde`.
- `tests/` — scenarios for each pass.

## Laws

Besides each function's own contract, `src/` proves properties that span functions, for
example: the lexer never cuts a comment or an empty token; the typing and ownership passes
keep every token; the declaration rule never records a clashing declaration, and its
tables always meet what the function sorter asks of its input; a symbol added to a table
is found from every table opened in it.

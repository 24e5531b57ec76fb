# crucible

An interpreter for a PL/SQL-like block language, verified with Verus. It
reads anonymous blocks (`[DECLARE ...] BEGIN ... [EXCEPTION ...] END;`) and
runs them against an in-memory database with transactions, cursors,
functions and procedures, and row triggers.

## Layout

- `src/parser`: the lexer (`lexer.rs`), the expression parser (`expr.rs`,
  whose grammar is `expr_at`), the block parser (`block.rs`) and the grammar
  of blocks and statements (`grammar.rs`). Each parser function is proved to
  return syntax that the tokens it consumed spell.
- `src/expr`: values, exact decimal numbers, record fields, dates, and the
  unary and binary operators.
- `src/db`: rows, tables, the table catalog and the transactional database.
- `src/cursors.rs`, `src/triggers.rs`, `src/routines.rs`: scoped cursors,
  row triggers and routines.
- `src/runtime`: variable scopes (`env.rs`), statement execution
  (`exec.rs`), data statements (`dml.rs`), queries and joins (`query.rs`)
  and routine calls (`routine.rs`).
- `src/laws.rs`: properties that relate several operations (reading after
  writing, scopes, commit and rollback, cursor fetches, trigger order,
  quoting).
- `tests/`: the test suite; `app/`: the interactive prompt.

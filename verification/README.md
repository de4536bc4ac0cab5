# AlexDB

AlexDB is an aggregation-focused relational database with SQLScript, a dialect
of SQL that embeds a small functional scripting language in its queries.

This crate's library (`src/`) is written in Verus: each function carries a
contract, and Verus proves that the code meets it.

- `column`: the column stores (plain, packed booleans, run-length, bitmap,
  XOR delta encoding) and what reading them back gives.
- `table`: tables of typed, compressed columns, with aggregates and
  computations; recompression keeps every value.
- `env`: the scopes that scripts are evaluated in.
- `lexer`, `grammar`, `parser`, `query`: the SQLScript lexer, its grammar as
  functions over the token stream, and the recursive-descent parser proved to
  follow it.
- `calc`: the lexer and token cursor for plain arithmetic scripts.
- `database`: named tables, constants and calculated columns, and the
  bookkeeping of each query.
- `csv_import`: which column of a CSV file feeds each column of a table, and
  what each cell's text stands for.
- `layout`: the text of a table as the REPL prints it.
- `bits`, `regex_match`: the bit vectors and regular expressions the library
  uses, from the `bitvec` and `regex` crates.
- `num`, `decimal`, `types`: numbers, decimal text, and the syntax trees.

`app/` is the REPL: it evaluates SQLScript (floating-point arithmetic), reads
CSV files and drives the library. `tests/` holds the tests.

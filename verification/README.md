# tyr_rust

Small programs from a Rust course, kept as a Verus-verified library with a
thin command-line layer around it.

- `src/lang.rs`: a token stream and a recursive-descent parser for a toy
  language of function declarations and calls; the grammar is written as spec
  functions and each parse function is proved to follow it.
- `src/kv.rs`, `src/kv/`: a key-value command service: the messages, a
  storage trait with an in-memory table, and the command handlers, proved
  against a map model of the storage.
- `src/strtok.rs`: C-style `strtok` on string slices.
- `src/fib.rs`: Fibonacci numbers with `loop`, `while` and `for`.
- `src/httpie.rs`, `src/grep.rs`, `src/dialect.rs`: the computational cores
  of an HTTP client, a grep and a SQL dialect.
- `src/text.rs`: string helpers.
- `app/`: the programs themselves (argument parsing, network and file I/O,
  printing), one subcommand each, and the page-to-Markdown converter, whose
  conversion call can panic on some pages.

The course's Lua example is not included, as its pest grammar (`lua.pest`)
is not available.

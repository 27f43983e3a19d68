# semanticgrep

A line-oriented search tool: it selects the lines of files that match a regular
expression (or, with `-s`, whose embedding is similar enough to the query's),
with ripgrep-style options for inverting, counting, listing files, context
lines, globs and file types.

- `src/` is the library, verified with Verus: reading file contents into lines,
  selecting lines by regex (through the `regex` crate), numbering similarity
  results, limiting results, context windows, glob filtering (through
  `globset`), what is printed for each result, and the meaning of the
  command-line options. The laws of the library are public proof functions
  named `law_*` beside the functions they speak of.
- `app/` is the program around it: argument parsing with `clap`, the directory
  walk with `ignore`, file reading, embeddings and cosine scores with
  `model2vec-rs` (floating point), and colored output with `termcolor`.
- `tests/` exercises the library on concrete values.

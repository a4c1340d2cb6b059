# raudit

Verified core of a set of tools that study unsafe code in Rust crates:

- `src/inject.rs` — which reported unsafe call sites of a crate are marked,
  under which ids and binding names, in which order, and how a copied
  manifest's dependency paths are rebased.
- `src/extract.rs` — the documented declarations of a source file and the
  selection of the unsafe ones.
- `src/source.rs` — a source file's text parsed with `syn` and read into
  those declarations, and the units of the file.
- `src/fastcheck.rs` — the quick scan for `core`/`std` paths inside `unsafe`
  blocks of public safe functions: command line, file filters, the reference
  collector and the findings of a file.
- `src/report.rs`, `src/driver.rs` — records of the MIR audit report and the
  decisions the compiler driver makes on plain values.
- `src/klee.rs` — argument bindings reported to the symbolic executor.
- `src/xtool.rs` — the project command line's log levels and the search for
  the scanning compiler driver.
- `src/text.rs` — the character-level string model the others are stated in.

`app/` holds the programs around the library: file and process I/O, the
`syn` visitors that rewrite files and walk function bodies, JSON and TOML
handling, and the calls into the symbolic executor.

# gymnast

A verified library for the Gymnast specification pipeline: lexing and
parsing `.gym` sources, checking them, planning generation nodes,
compiling prompts, executing deterministic recipes, verifying
obligations, assembling evidence bundles and deciding promotion, and
running generative nodes with bounded repair. The functions in `src/`
are verified by Verus against contracts over plain mathematical values;
the exceptions are five small wrappers in `text.rs` around std string
operations (comparison, appending, upper-casing), whose contracts are
trusted.

Layout:

- `src/` — the library. Each module pairs executable code with spec
  functions that say what it computes; laws relating several functions
  are public proof functions (`lemma_*`).
- `tests/` — ordinary Rust tests of the library on concrete inputs.
- `app/` — the command line (`parse`, `check`) around the library.

# linc

`linc` checks that a C declaration set links against a native artifact set,
and records the evidence for it as a content-addressed link-analysis package.
The library is written in Verus: every function in `src/` carries a contract
that the verifier proves.

Layout:

- `src/contract/`: the package model and its constructors: artifacts, symbol
  inventories, probe and layout evidence, per-declaration assessments, the
  resolved link plan, diagnostics, the canonical payload and fingerprints, and
  the checks of a package against its complete source package.
- `src/native/`: native evidence: ELF and archive inspection over the `object`
  crate, provider resolution as a state machine, measurement-blob decoding,
  the x86-64 System V classifier, callable-shape checks, and the analyzer that
  assembles a validated package.
- `src/symbols.rs`, `src/validate.rs`, `src/cli.rs`: the standalone symbol
  inventory and binding check, and the command-line argument rules.
- `tests/`: the test suite.
- `app/`: the program around the library: argument handling, file I/O and
  JSON output.

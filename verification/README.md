# nessemble (verified core)

The logic of the `nessemble` 6502 assembler toolkit, written in Verus: every
function under `src/` carries a `requires`/`ensures` contract that Verus proves.

## Layout

- `src/text.rs` — character-sequence helpers shared by everything else
  (decimal and hex rendering, trimming, splitting, case folding, number
  parsing), each with a spec function it is proved against.
- `src/isa.rs` — the 6502 opcode table, register sets and mnemonic lookup,
  with the laws of `RegSet::union` and of the table.
- `src/media/` — PNG-to-CHR conversion, NES palette matching, the `.incrle`
  run-length encoder (with its round-trip law) and WAV-to-DPCM conversion.
- `src/script/` — what pseudo-op scripts call: the CSV and XML readers, the
  host functions, the purity rules, the coverage collector, and how a path a
  script names is resolved.
- `src/script_api.rs` — the catalogue of host functions, grouped by domain.
- `src/rc.rs`, `src/rc/` — `.nessemblerc` options and include globbing.
- `src/lsp.rs`, `src/lsp/` — the editor features that work on source text:
  tokens, symbols, folding, hovers, signature help, colours, code actions and
  the checks on a script's text.
- `src/order.rs` — a canonical order used to list what Rhai hands out in an
  order of its own (functions, calls) the same way every time.
- `src/changeset.rs` — release versioning: reading changeset files, the bump
  policy, version arithmetic and changelog rendering.
- `src/docs.rs`, `src/parity.rs` — the documentation checks and the report of
  the golden-ROM comparison.

Calls into outside crates (`image`, `rhai`, `changesets`, std's `char`,
`Path` and integer parsing) sit behind small `#[verifier::external_body]`
wrappers whose doc comments say what their contracts claim.

`app/` is plain Rust around the core: the Rhai engine and its host-function
wiring, JSON values, file and process I/O for the changeset, documentation
and parity tasks. It makes no decisions of its own; it hands plain values to
the core and acts on what comes back.

## What is not here

The language server's message loop, its assembler-backed diagnostics, and the
completion and checking of path arguments run on the assembler core
(`nessemble_core`) and on the `lsp_server` and `lsp_types` crates, none of
which is part of this build, so they have no counterpart here. Nor does the
linter's per-file configuration (`lint_for`): its rule names and severities
are the assembler core's, and its ignore patterns are `regex_lite` regular
expressions, neither of which is part of this build.

Running a script under Rhai's debugger to collect line coverage is in
`app/script_engine.rs` (`run_with_coverage`); the collector those runs fill
(`script::coverage`) is verified.

## Checking

`tests/` holds the example-based tests; Verus checks `src/` as a whole.

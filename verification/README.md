# gust

The host side of a Rust-to-Slang GPU compiler, written in Verus. Every
function in `src/` carries a contract that Verus proves, except nine small
wrappers around std functions, whose contracts are trusted, not proved:
`text_address`, `table_address` and `layout_debug` (`src/backend.rs`),
`utf8_str` and `char_from_u32` (`src/json.rs`), `string_from_utf8`,
`invalid_data` and `io_error_text` (`src/slang.rs`), and `push_char`
(`src/text.rs`). Three std types are declared to Verus without their
insides: `str::Utf8Error` (`src/json.rs`), `io::Error` and
`string::FromUtf8Error` (`src/slang.rs`).

## Layout

- `src/syntax.rs`, `src/dialect.rs`, `src/rejection.rs`, `src/subset.rs`,
  `src/compat.rs`: the Rust subset that a `#[gpu]` module may use, for the
  GUST dialect and the older compatibility dialect. A module is held as plain
  syntax values; the checks return every rejection in source order and are
  proved equal to the rules stated as spec functions.
- `src/expand.rs`: what a checked module declares to the host: entry points,
  workgroup sizes, parameter kinds and resource bindings.
- `src/abi.rs`, `src/descriptor.rs`, `src/reflect.rs`, `src/json.rs`: storage
  layouts, kernel descriptors, and the cross-check of Slang reflection JSON
  against them.
- `src/backend.rs`, `src/graph.rs`, `src/pool.rs`, `src/render.rs`: the
  dispatch rules of the wgpu runtime, staged graphs (their validation, the
  step each node becomes and the transfer report of an execution), growable
  pools and the rendered host bindings.
- `src/slang.rs`, `src/source_map.rs`, `src/spirv.rs`: compiler arguments,
  diagnostics mapped back to Rust kernels, SPIR-V structure checks.
- `src/tooling.rs`, `src/validation.rs`: the developer tasks' plans, the
  validation record, SHA-256 and UTC timestamps.
- `app/`: the parts that touch the GPU, processes and files (`wgpu`,
  `slangc`, the task runner) and the reading of Rust source into the
  library's syntax values (`syn`), calling the library for every decision.
- `tests/`: tests of the library.

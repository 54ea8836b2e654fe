# gloam

The verified core of a loader generator for Vulkan, OpenGL, OpenGL ES, EGL,
GLX and WGL: it reads the Khronos XML registries and computes what the
generated C and Rust loaders are built from.

Layout:

- `src/` — the library, proved with Verus.
  - `identity.rs`, `cli.rs`: API and spec names, `--api` / `--baseline` /
    `--extensions` parsing.
  - `parse/`: the registry documents (`xml.rs`, over `roxmltree`), C
    declarators (`ctype.rs`), types with their dependency order
    (`types.rs`), the structured form of text-form types (`payload.rs`,
    over `typedefs.rs`, `signatures.rs` and `records.rs`), enums
    (`enums.rs`), commands with alias fixup (`commands.rs`), features and
    extensions (`features.rs`), and the whole-registry entry point
    (`mod.rs`).
  - `generator/`: naming, layout and text policy of the emitted C and Rust
    loaders; `c/output.rs` holds the C output tree, the auxiliary-header
    scan and the unchecked Vulkan offset table, `rust/vk_struct.rs` the
    Vulkan struct emitter with its bitfield packing, `rust/typedef_alias.rs`
    the aliases of conditional typedefs.
  - `bundled.rs`: inflating the bundled raw-DEFLATE blobs (over `flate2`).
  - `invocation.rs`: the command line recorded in generated files.
  - `diag.rs`: which informational and warning lines `--quiet` keeps.
  - `ordered_map.rs`: the `indexmap::IndexMap` operations the parser uses,
    each with its contract.
- `tests/` — the test suite, run against the compiled library.
- `app/` — the `gloam` command: argument handling and file reading around
  the library.

Not here: the feature resolver (which turns `--api`, `--extensions`,
`--baseline`, `--promoted` and `--predecessors` into the selected feature
set), the provenance registry and `lock`, the C templates and the
rendering of the loaders, and the bundled registry files.  The library
holds the registry parsing, the decisions of the C backend (output tree,
name blob, offset table, auxiliary headers) and the Rust emitters that do
not need a resolved feature set; the `gloam` command parses a registry and
reports the C output it would plan, but does not generate loaders.

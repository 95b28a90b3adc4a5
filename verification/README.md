# micropython-build

Tools for embedding MicroPython in Rust: evaluating a port's configuration at
build time, generating the interpreter's headers, and the typed layer over the
C API that embedded code uses. The logic is a Verus library whose functions
carry `requires`/`ensures` contracts proved by the verifier; the command-line
tool, the build-script plumbing and the procedural macros are ordinary Rust
around it.

## Layout

- `src/` — the verified library:
  - `tail_parser`, `expression`, `config_map`, `config`, `string_order`: reading
    the preprocessed configuration table, evaluating its C constant
    expressions, and deciding which `micropython` cfgs a build turns on;
    `enclosing` proves that an expression keeps its value inside parentheses,
    behind `!` or `~`, and or-ed with zero.
  - `depfile`: the Makefile dependency files the preprocessor writes.
  - `generate`, `cc_search`, `manifest`, `bindings`: header generation, the C
    compiler lookup, the project manifest and the bindings allowlist.
  - `sig`, `signature`, `root_project`: the syntax and the validation of
    `#[pyfunction]` signatures, and the plan of `#[derive(RootProject)]`.
  - `obj` (with the tagging schemes `repr_a` to `repr_d`), `bitfields`,
    `type_slots`, `ty`, `args`, `vm`: object words, packed C bit fields, type
    objects and their slot tables, native-function arguments, and the
    interpreter's lifecycle.
- `app/` — the `mpy-rs` command (install, generate), the build-script and
  procedural-macro side: file system, processes, `syn`/`quote`, `serde`.
- `tests/` — tests run against the compiled library.

Calls into outside crates that the library makes (`blake3`, `regex`, `syn`)
stand behind small trusted wrappers whose contracts are stated in their doc
comments.

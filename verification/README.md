# spin-deps

The `add` command for Spin applications: it adds a WebAssembly component, from a local file, a
download or a registry, as a dependency of a component of the application, and prepares the
bindings of that component.

`src/` is the core of the command, written and proved in [Verus](https://github.com/verus-lang/verus):

- `source`: what the source of a component is
- `selection`: which of its interfaces are imported
- `dependency`: how the manifest lists them
- `command`, `stages`: the arguments, and what a run does next
- `language`, `cargo_manifest`, `deps_module`: the language of the component, its `Cargo.toml` and
  the `deps` module of its `src/lib.rs`
- `deps_module_laws`: what holds of scanning and creating that module
- `error`, `text`: the errors, and operations on texts

URLs, version requirements, package references and TOML documents are parsed by the crates `url`,
`semver`, `wasm-pkg-client` and `toml_edit`. What is relied on of them stands above the functions
that call them, which are marked `external_body`.

`app/` does the work that the stages ask for: it reads and writes files, asks the user, and hands
the rest to a `Host`. `tests/` runs the library on examples.

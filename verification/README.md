# bundler

Creates a single-source-file version of a Cargo package: the library crate is
inlined where the binary says `extern crate`, the binary's `use` items of the
library go, module files are read and inlined, and paths that start with the
library's name lose that segment.

- `src/` is the verified library.
  - `manifest.rs`: parsing `Cargo.toml` and the crate name that it declares.
  - `syntax.rs`: the items of a source file as bundling reads them, and the
    tests on items and paths.
  - `sources.rs`: the files read so far, and where modules are looked for.
  - `expander.rs`: bundling itself, with its laws.
  - `format.rs`: parsing Rust source.
- `app/` is the `bundle` command (`bundle path/to/project >output.rs`).
  Its `bundle(path)` function reads files as bundling asks for them, parses
  them, assembles the bundled file and prints it, with a line on standard
  error for each library and module file read in.  The layout is
  prettyplease's (with its `verbatim` feature); where prettyplease cannot
  print a tree, the code is printed unformatted.
- `tests/` runs the library on concrete packages.

## Using the library

The library reads no files itself.  A caller holds a `Sources`, the files
read so far, and calls `bundle_step(&sources, &crate_name)` until it no
longer answers `Halt::NeedFile(location)`; each time, it reads the file at
`location` (relative to the package), records it with `sources.insert`
(as `SourceState::Unreadable`, `Unparsable` or `Parsed`), and calls again.
The crate name comes from `get_crate_name` on the manifest that
`parse_manifest` gives.  The answer is then the `Bundle` (its pieces, in
order) or the `BundleError` that stops bundling; `tests/expansion.rs` holds
such a loop.

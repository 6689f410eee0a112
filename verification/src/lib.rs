//! Bundles a Cargo package into a single source file: the library crate is
//! inlined where the binary imports it, out-of-line modules are read and
//! inlined, and paths that name the library crate lose that first segment.
pub mod expander;
pub mod format;
pub mod manifest;
pub mod sources;
pub mod syntax;

pub use expander::{bundle_step, Bundle, BundleError, Expander, Halt, Piece};
pub use format::{parse_source, NotRustSource, RustSource};
pub use manifest::{
    get_crate_name, parse_manifest, replace_hyphens, ManifestError, NotToml, ParsedManifest,
};
pub use sources::{
    join_location, lib_location, main_location, mod_dir_file, mod_file, src_dir, SourceEntry,
    SourceState, Sources,
};
pub use syntax::{
    crate_prefix_len, is_extern_crate, is_use_path, path_starts_with, str_eq, Item, SourceFile,
};
